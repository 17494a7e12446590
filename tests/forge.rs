use foundry_cli::dependency::Dependency;
use foundry_cli::error::ParseError;
use foundry_cli::locator::{get_contract_name, get_file_name, ContractInfo, FullContractInfo};
use foundry_cli::paths::is_sol_test_name;

#[test]
fn parses_dependencies() {
    [
        ("gakonst/lootloose", "https://github.com/gakonst/lootloose", None),
        ("github.com/gakonst/lootloose", "https://github.com/gakonst/lootloose", None),
        ("https://github.com/gakonst/lootloose", "https://github.com/gakonst/lootloose", None),
        (
            "git+https://github.com/gakonst/lootloose",
            "https://github.com/gakonst/lootloose",
            None,
        ),
        (
            "git@github.com:gakonst/lootloose@v1",
            "https://github.com/gakonst/lootloose",
            Some("v1"),
        ),
        ("git@github.com:gakonst/lootloose", "https://github.com/gakonst/lootloose", None),
        ("https://gitlab.com/gakonst/lootloose", "https://gitlab.com/gakonst/lootloose", None),
        ("https://github.xyz/gakonst/lootloose", "https://github.xyz/gakonst/lootloose", None),
        ("gakonst/lootloose@0.1.0", "https://github.com/gakonst/lootloose", Some("0.1.0")),
        ("gakonst/lootloose@develop", "https://github.com/gakonst/lootloose", Some("develop")),
        (
            "gakonst/lootloose@98369d0edc900c71d0ec33a01dfba1d92111deed",
            "https://github.com/gakonst/lootloose",
            Some("98369d0edc900c71d0ec33a01dfba1d92111deed"),
        ),
    ]
    .iter()
    .for_each(|(input, expected_path, expected_tag)| {
        let dep = Dependency::from_str(input).unwrap();
        assert_eq!(dep.url, expected_path.to_string());
        assert_eq!(dep.tag, expected_tag.map(ToString::to_string));
        assert_eq!(dep.name, "lootloose");
    });
}

#[test]
#[should_panic]
fn test_invalid_github_repo_dependency() {
    Dependency::from_str("solmate").unwrap();
}

#[test]
fn parses_contract_info() {
    [
        ("src/contracts/Contracts.sol:Contract", Some("src/contracts/Contracts.sol"), "Contract"),
        ("Contract", None, "Contract"),
    ]
    .iter()
    .for_each(|(input, expected_path, expected_name)| {
        let contract = ContractInfo::from_str(input).unwrap();
        assert_eq!(contract.path, expected_path.map(ToString::to_string));
        assert_eq!(contract.name, expected_name.to_string());
    });
}

#[test]
fn contract_info_should_reject_without_name() {
    ["src/contracts/", "src/contracts/Contracts.sol"].iter().for_each(|input| {
        let contract = ContractInfo::from_str(input);
        assert!(contract.is_err())
    });
}

#[test]
fn shorthand_without_slash_is_refused_with_its_input() {
    assert_eq!(
        Dependency::from_str("solmate").unwrap_err(),
        ParseError::InvalidRepoShorthand("solmate".to_string())
    );
    assert!(Dependency::from_str("").is_err());
}

#[test]
fn colon_without_slash_is_still_a_remote_address() {
    let dep = Dependency::from_str("git@github.com:solmate").unwrap();
    assert_eq!(dep.url, "https://github.com/solmate");
    assert_eq!(dep.name, "solmate");
}

#[test]
fn shorthand_with_ref_keeps_url_and_name() {
    let dep = Dependency::from_str("transmissions11/solmate@v7").unwrap();
    assert_eq!(dep.url, "https://github.com/transmissions11/solmate");
    assert_eq!(dep.name, "solmate");
    assert_eq!(dep.tag, Some("v7".to_string()));
}

#[test]
fn remote_forms_resolve_to_one_url() {
    let inputs = [
        "git@gitlab.com:owner/repo",
        "https://gitlab.com/owner/repo",
        "git+https://gitlab.com/owner/repo",
    ];
    for input in inputs {
        let dep = Dependency::from_str(input).unwrap();
        assert_eq!(dep.url, "https://gitlab.com/owner/repo");
        assert_eq!(dep.name, "repo");
        assert_eq!(dep.tag, None);
    }
}

#[test]
fn canonical_url_resolves_to_itself() {
    let first = Dependency::from_str("owner/repo@main").unwrap();
    let again = Dependency::from_str(&first.url).unwrap();
    assert_eq!(again.url, first.url);
    assert_eq!(again.name, first.name);
    assert_eq!(again.tag, None);
    let short = Dependency::from_str("owner/repo").unwrap();
    let canonical = Dependency::from_str("https://github.com/owner/repo").unwrap();
    assert_eq!(short.url, canonical.url);
    assert_eq!(short.name, canonical.name);
    assert_eq!(short.tag, canonical.tag);
}

#[test]
fn only_the_first_ref_segment_is_kept() {
    let dep = Dependency::from_str("owner/repo@v1@v2").unwrap();
    assert_eq!(dep.url, "https://github.com/owner/repo");
    assert_eq!(dep.tag, Some("v1".to_string()));
    let empty = Dependency::from_str("owner/repo@").unwrap();
    assert_eq!(empty.tag, Some(String::new()));
}

#[test]
fn url_without_last_segment_has_no_name() {
    assert_eq!(Dependency::from_str("https://github.com/").unwrap_err(), ParseError::EmptyName);
}

#[test]
fn address_prefix_only_counts_at_the_start() {
    let dep = Dependency::from_str("xgit@github.com:a/b").unwrap();
    assert_eq!(dep.url, "https://github.com/xgit");
    assert_eq!(dep.name, "xgit");
    assert_eq!(dep.tag, Some("github.com:a/b".to_string()));
}

#[test]
fn contract_locator_shapes() {
    let c = ContractInfo::from_str("src/A.sol:B").unwrap();
    assert_eq!(c.path, Some("src/A.sol".to_string()));
    assert_eq!(c.name, "B");
    let c = ContractInfo::from_str("B").unwrap();
    assert_eq!(c.path, None);
    assert_eq!(c.name, "B");
    assert!(ContractInfo::from_str("src/contracts/").is_err());
    assert_eq!(
        ContractInfo::from_str("src/contracts/Contracts.sol").unwrap_err(),
        ParseError::MalformedLocator("src/contracts/Contracts.sol".to_string())
    );
}

#[test]
fn contract_locator_splits_at_last_colon_and_trims_name() {
    let c = ContractInfo::from_str("C:/dir/A.sol: Token\t").unwrap();
    assert_eq!(c.path, Some("C:/dir/A.sol".to_string()));
    assert_eq!(c.name, "Token");
    let c = ContractInfo::from_str("path:").unwrap();
    assert_eq!(c.name, "");
}

#[test]
fn full_contract_locator_shapes() {
    let c = FullContractInfo::from_str("path:Name").unwrap();
    assert_eq!(c.path, "path");
    assert_eq!(c.name, "Name");
    let c = FullContractInfo::from_str("a:b:\u{a0}C ").unwrap();
    assert_eq!(c.path, "a");
    assert_eq!(c.name, "b:\u{a0}C".trim());
    assert_eq!(
        FullContractInfo::from_str("NoColonHere").unwrap_err(),
        ParseError::MissingLocatorSeparator("NoColonHere".to_string())
    );
}

#[test]
fn artifact_identifier_parts() {
    let id = "SafeTransferLibTest.json:SafeTransferLibTest";
    assert_eq!(get_contract_name(id), "SafeTransferLibTest");
    assert_eq!(get_file_name(id), "SafeTransferLibTest.json");
    assert_eq!(get_contract_name("a:b:c"), "c");
    assert_eq!(get_file_name("a:b:c"), "a");
    assert_eq!(get_contract_name("plain"), "plain");
    assert_eq!(get_file_name("plain"), "plain");
}

#[test]
fn parse_through_from_str_trait() {
    let dep: Dependency = "owner/repo@v2".parse().unwrap();
    assert_eq!(dep.url, "https://github.com/owner/repo");
    assert_eq!(dep.tag, Some("v2".to_string()));
    let c: ContractInfo = "src/A.sol:B".parse().unwrap();
    assert_eq!(c.name, "B");
    let f: FullContractInfo = "x.sol:Y".parse().unwrap();
    assert_eq!(f.path, "x.sol");
    assert!("NoColon".parse::<FullContractInfo>().is_err());
}

#[test]
fn ref_may_hold_a_slash() {
    let dep = Dependency::from_str("owner/repo@feature/x").unwrap();
    assert_eq!(dep.url, "https://github.com/owner/repo");
    assert_eq!(dep.name, "repo");
    assert_eq!(dep.tag, Some("feature/x".to_string()));
}

#[test]
fn ref_shaped_like_an_address_stays_a_ref() {
    let dep = Dependency::from_str("owner/repo@v1.0/x").unwrap();
    assert_eq!(dep.url, "https://github.com/owner/repo");
    assert_eq!(dep.name, "repo");
    assert_eq!(dep.tag, Some("v1.0/x".to_string()));
}

#[test]
fn sol_test_file_names() {
    assert!(is_sol_test_name("MyTest.t.sol"));
    assert!(is_sol_test_name(".t.sol"));
    assert!(!is_sol_test_name("Greeter.sol"));
    assert!(!is_sol_test_name("t.sol"));
    assert!(!is_sol_test_name("MyTest.t.sol.bak"));
}
