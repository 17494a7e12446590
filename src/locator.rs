//! Contract locators: `<path>:<name>` strings that identify a contract.
use vstd::prelude::*;
use vstd::string::*;
use crate::error::ParseError;
use crate::text::{
    chars_of, find_char_from, index_of, last_index_of, rfind_char, substring, trim,
    trimmed_substring,
};

verus! {

/// `n` ends in `.sol`.
pub open spec fn ends_with_sol(n: Seq<char>) -> bool {
    n.len() >= 4 && n.subrange(n.len() - 4, n.len() as int) == seq!['.', 's', 'o', 'l']
}

/// The `(path, name)` of a locator whose path is optional, or `None` when it is malformed.
///
/// The name is what follows the last `:`, trimmed; the path is everything before it.
pub open spec fn contract_info(s: Seq<char>) -> Option<(Option<Seq<char>>, Seq<char>)> {
    let p = last_index_of(s, ':');
    let name = trim(s.subrange(p + 1, s.len() as int));
    let path = if p >= 0 {
        Some(s.subrange(0, p))
    } else {
        None
    };
    if ends_with_sol(name) || index_of(name, '/') < name.len() {
        None
    } else {
        Some((path, name))
    }
}

/// The `(path, name)` of a fully qualified locator, split at its first `:`, or `None`
/// when it has no `:`.
pub open spec fn full_contract_info(s: Seq<char>) -> Option<(Seq<char>, Seq<char>)> {
    let p = index_of(s, ':');
    if p >= s.len() {
        None
    } else {
        Some((s.subrange(0, p), trim(s.subrange(p + 1, s.len() as int))))
    }
}

/// A contract named as `<path>:<contractname>` or as `<contractname>` alone.
#[derive(Clone, Debug)]
pub struct ContractInfo {
    /// Location of the contract.
    pub path: Option<String>,
    /// Name of the contract.
    pub name: String,
}

impl View for ContractInfo {
    type V = (Option<Seq<char>>, Seq<char>);

    open spec fn view(&self) -> Self::V {
        (
            match self.path {
                Some(p) => Some(p@),
                None => None,
            },
            self.name@,
        )
    }
}

/// A contract named as `<path>:<contractname>`.
#[derive(Clone, Debug)]
pub struct FullContractInfo {
    /// Location of the contract.
    pub path: String,
    /// Name of the contract.
    pub name: String,
}

impl View for FullContractInfo {
    type V = (Seq<char>, Seq<char>);

    open spec fn view(&self) -> Self::V {
        (self.path@, self.name@)
    }
}

fn ends_with_sol_exec(v: &Vec<char>) -> (r: bool)
    ensures
        r == ends_with_sol(v@),
{
    let n = v.len();
    if n < 4 {
        return false;
    }
    let r = v[n - 4] == '.' && v[n - 3] == 's' && v[n - 2] == 'o' && v[n - 1] == 'l';
    proof {
        let tail = v@.subrange(n - 4, n as int);
        if r {
            assert(tail =~= seq!['.', 's', 'o', 'l']);
        } else if tail == seq!['.', 's', 'o', 'l'] {
            assert(tail[0] == v@[n - 4]);
            assert(tail[1] == v@[n - 3]);
            assert(tail[2] == v@[n - 2]);
            assert(tail[3] == v@[n - 1]);
        }
    }
    r
}

impl ContractInfo {
    /// Parses `<path>:<contractname>` or `<contractname>`, splitting at the last `:`.
    ///
    /// Fails when the name ends in `.sol` or holds a `/`: the input then names a
    /// path and no contract.
    pub fn from_str(s: &str) -> (r: Result<ContractInfo, ParseError>)
        ensures
            match r {
                Ok(c) => contract_info(s@) == Some(c@),
                Err(ParseError::MalformedLocator(x)) => contract_info(s@) is None && x@ == s@,
                Err(_) => false,
            },
    {
        let v = chars_of(s);
        let n = v.len();
        let (start, path) = match rfind_char(&v, ':') {
            Some(p) => (p + 1, Some(substring(s, 0, p))),
            None => (0, None),
        };
        let name = trimmed_substring(s, &v, start, n);
        let nv = chars_of(name.as_str());
        let slash = find_char_from(&nv, '/', 0);
        if ends_with_sol_exec(&nv) || slash < nv.len() {
            return Err(ParseError::MalformedLocator(String::from_str(s)));
        }
        Ok(ContractInfo { path, name })
    }
}

impl FullContractInfo {
    /// Parses `<path>:<contractname>`, splitting at the first `:`.
    pub fn from_str(s: &str) -> (r: Result<FullContractInfo, ParseError>)
        ensures
            match r {
                Ok(c) => full_contract_info(s@) == Some(c@),
                Err(ParseError::MissingLocatorSeparator(x)) => full_contract_info(s@) is None
                    && x@ == s@,
                Err(_) => false,
            },
    {
        let v = chars_of(s);
        let n = v.len();
        let p = find_char_from(&v, ':', 0);
        if p == n {
            return Err(ParseError::MissingLocatorSeparator(String::from_str(s)));
        }
        let path = substring(s, 0, p);
        let name = trimmed_substring(s, &v, p + 1, n);
        Ok(FullContractInfo { path, name })
    }
}

/// The contract name of an artifact identifier `<file>:<contract>`: what follows its
/// last `:`, or the whole identifier when it has none.
pub fn get_contract_name(id: &str) -> (r: &str)
    ensures
        r@ == id@.subrange(last_index_of(id@, ':') + 1, id@.len() as int),
{
    let v = chars_of(id);
    let start = match rfind_char(&v, ':') {
        Some(p) => p + 1,
        None => 0,
    };
    id.substring_char(start, v.len())
}

/// The file name of an artifact identifier `<file>:<contract>`: what precedes its
/// first `:`, or the whole identifier when it has none.
pub fn get_file_name(id: &str) -> (r: &str)
    ensures
        r@ == id@.subrange(0, index_of(id@, ':')),
{
    let v = chars_of(id);
    let end = find_char_from(&v, ':', 0);
    id.substring_char(0, end)
}

impl std::str::FromStr for ContractInfo {
    type Err = ParseError;

    fn from_str(s: &str) -> Result<ContractInfo, ParseError> {
        ContractInfo::from_str(s)
    }
}

impl std::str::FromStr for FullContractInfo {
    type Err = ParseError;

    fn from_str(s: &str) -> Result<FullContractInfo, ParseError> {
        FullContractInfo::from_str(s)
    }
}

} // verus!
