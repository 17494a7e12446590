use foundry_cli::fork::{
    decide, decide_with, decimal_string, foundry_block_cache_file, get_fork, CachedChains,
    CachedEndpoints, CachingPolicy, ForkOptions, StorageCachingConfig,
};

fn policy(endpoint: bool, chain: bool) -> StorageCachingConfig {
    StorageCachingConfig {
        chains: if chain { CachedChains::All } else { CachedChains::Nothing },
        endpoints: if endpoint { CachedEndpoints::All } else { CachedEndpoints::Nothing },
    }
}

fn pinned() -> ForkOptions {
    ForkOptions {
        fork_url: Some("https://eth.example".to_string()),
        fork_block_number: Some(14435000),
        no_storage_caching: false,
    }
}

const ROOT: &str = "/home/user/.foundry/cache";

#[test]
fn decimal_representation() {
    assert_eq!(decimal_string(0), "0");
    assert_eq!(decimal_string(7), "7");
    assert_eq!(decimal_string(14435000), "14435000");
    assert_eq!(decimal_string(u64::MAX), u64::MAX.to_string());
}

#[test]
fn cache_file_is_keyed_by_chain_and_block() {
    assert_eq!(
        foundry_block_cache_file(ROOT, 1, 14435000),
        "/home/user/.foundry/cache/1/14435000/storage.json"
    );
}

#[test]
fn caching_enabled_when_everything_allows_it() {
    let d = decide_with(&pinned(), 1, true, true, ROOT);
    assert!(d.enabled);
    assert_eq!(d.path, Some("/home/user/.foundry/cache/1/14435000/storage.json".to_string()));
    let d = decide(&pinned(), 1, &policy(true, true), ROOT);
    assert!(d.enabled);
    assert_eq!(d.path, Some("/home/user/.foundry/cache/1/14435000/storage.json".to_string()));
}

#[test]
fn caching_disabled_by_any_missing_condition() {
    let all = policy(true, true);
    let mut no_url = pinned();
    no_url.fork_url = None;
    let mut opted_out = pinned();
    opted_out.no_storage_caching = true;
    let mut tip = pinned();
    tip.fork_block_number = None;
    for fork in [no_url, opted_out, tip] {
        let d = decide(&fork, 1, &all, ROOT);
        assert!(!d.enabled);
        assert_eq!(d.path, None);
        let d = decide_with(&fork, 1, true, true, ROOT);
        assert!(!d.enabled);
        assert_eq!(d.path, None);
    }
    for (endpoint, chain) in [(false, true), (true, false), (false, false)] {
        let d = decide(&pinned(), 1, &policy(endpoint, chain), ROOT);
        assert!(!d.enabled);
        assert_eq!(d.path, None);
    }
}

#[test]
fn fork_only_with_an_endpoint() {
    let all = policy(true, true);
    let f = get_fork(&pinned(), 10, &all, ROOT).unwrap();
    assert_eq!(f.url, "https://eth.example");
    assert_eq!(f.pin_block, Some(14435000));
    assert_eq!(f.chain_id, 10);
    assert_eq!(f.cache_path, Some("/home/user/.foundry/cache/10/14435000/storage.json".to_string()));
    let mut tip = pinned();
    tip.fork_block_number = None;
    let f = get_fork(&tip, 10, &all, ROOT).unwrap();
    assert_eq!(f.cache_path, None);
    assert_eq!(f.pin_block, None);
    let mut none = pinned();
    none.fork_url = None;
    assert!(get_fork(&none, 10, &all, ROOT).is_none());
}

#[test]
fn listed_chains_only() {
    let config = StorageCachingConfig {
        chains: CachedChains::Chains(vec![1, 137]),
        endpoints: CachedEndpoints::All,
    };
    assert!(config.enable_for_chain_id(137));
    assert!(!config.enable_for_chain_id(10));
    assert!(config.enable_for_endpoint("https://eth.example"));
    let d = decide(&pinned(), 137, &config, ROOT);
    assert_eq!(d.path, Some("/home/user/.foundry/cache/137/14435000/storage.json".to_string()));
    let d = decide(&pinned(), 10, &config, ROOT);
    assert!(!d.enabled);
    assert_eq!(d.path, None);
}
