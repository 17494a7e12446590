//! Whether, and where, storage reads of a forked execution session are cached.
use vstd::prelude::*;
use vstd::string::*;

verus! {

/// The decimal digits, in order.
pub open spec fn digits() -> Seq<char> {
    "0123456789"@
}

/// The decimal representation of `n`, without leading zeros.
pub open spec fn decimal(n: nat) -> Seq<char>
    decreases n,
{
    if n < 10 {
        digits().subrange(n as int, n as int + 1)
    } else {
        decimal(n / 10) + digits().subrange((n % 10) as int, (n % 10) as int + 1)
    }
}

/// The storage cache file of a chain at a block: `<root>/<chain id>/<block>/storage.json`.
pub open spec fn block_cache_file(root: Seq<char>, chain_id: u64, block: u64) -> Seq<char> {
    root + "/"@ + decimal(chain_id as nat) + "/"@ + decimal(block as nat) + "/storage.json"@
}

/// The fork settings of an execution session.
#[derive(Clone, Debug)]
pub struct ForkOptions {
    /// The endpoint to fork from; `None` when the session does not fork.
    pub fork_url: Option<String>,
    /// The block the fork is pinned to; `None` when it follows the chain tip.
    pub fork_block_number: Option<u64>,
    /// Whether storage caching was explicitly switched off.
    pub no_storage_caching: bool,
}

/// Whether storage reads are cached, and in which file.
#[derive(Clone, Debug)]
pub struct ForkCacheDecision {
    /// Whether storage reads are cached.
    pub enabled: bool,
    /// The cache file; present exactly when caching is enabled.
    pub path: Option<String>,
}

impl View for ForkCacheDecision {
    type V = (bool, Option<Seq<char>>);

    open spec fn view(&self) -> Self::V {
        (
            self.enabled,
            match self.path {
                Some(p) => Some(p@),
                None => None,
            },
        )
    }
}

/// The fork an execution session runs against.
#[derive(Clone, Debug)]
pub struct Fork {
    /// The endpoint forked from.
    pub url: String,
    /// The block the fork is pinned to, if any.
    pub pin_block: Option<u64>,
    /// Where storage reads are cached, when caching is enabled.
    pub cache_path: Option<String>,
    /// The chain id of the endpoint.
    pub chain_id: u64,
}

/// Which endpoints and chains storage may be cached for.
///
/// An implementation states its answers as the two spec functions, and each method
/// returns what its spec function says.
pub trait CachingPolicy {
    /// Whether storage read from `endpoint` may be cached.
    spec fn allows_endpoint(&self, endpoint: Seq<char>) -> bool;

    /// Whether storage of the chain `chain_id` may be cached.
    spec fn allows_chain(&self, chain_id: u64) -> bool;

    /// Whether storage read from `endpoint` may be cached.
    fn enable_for_endpoint(&self, endpoint: &str) -> (r: bool)
        ensures
            r == self.allows_endpoint(endpoint@),
    ;

    /// Whether storage of the chain `chain_id` may be cached.
    fn enable_for_chain_id(&self, chain_id: u64) -> (r: bool)
        ensures
            r == self.allows_chain(chain_id),
    ;
}

/// The chains whose storage is cached.
#[derive(Clone, Debug)]
pub enum CachedChains {
    /// Every chain.
    All,
    /// No chain.
    Nothing,
    /// The listed chain ids.
    Chains(Vec<u64>),
}

/// The endpoints whose storage is cached.
#[derive(Clone, Debug)]
pub enum CachedEndpoints {
    /// Every endpoint.
    All,
    /// No endpoint.
    Nothing,
}

/// A caching policy given by the chains and the endpoints it allows.
#[derive(Clone, Debug)]
pub struct StorageCachingConfig {
    /// The chains whose storage is cached.
    pub chains: CachedChains,
    /// The endpoints whose storage is cached.
    pub endpoints: CachedEndpoints,
}

impl CachingPolicy for StorageCachingConfig {
    open spec fn allows_endpoint(&self, endpoint: Seq<char>) -> bool {
        self.endpoints is All
    }

    open spec fn allows_chain(&self, chain_id: u64) -> bool {
        match self.chains {
            CachedChains::All => true,
            CachedChains::Nothing => false,
            CachedChains::Chains(ids) => ids@.contains(chain_id),
        }
    }

    fn enable_for_endpoint(&self, endpoint: &str) -> (r: bool) {
        match self.endpoints {
            CachedEndpoints::All => true,
            CachedEndpoints::Nothing => false,
        }
    }

    fn enable_for_chain_id(&self, chain_id: u64) -> (r: bool) {
        match &self.chains {
            CachedChains::All => true,
            CachedChains::Nothing => false,
            CachedChains::Chains(ids) => {
                let mut i: usize = 0;
                while i < ids.len()
                    invariant
                        self.chains == CachedChains::Chains(*ids),
                        i <= ids@.len(),
                        forall|k: int| 0 <= k < i ==> ids@[k] != chain_id,
                    decreases ids@.len() - i,
                {
                    if ids[i] == chain_id {
                        assert(ids@[i as int] == chain_id);
                        assert(ids@.contains(chain_id));
                        return true;
                    }
                    i = i + 1;
                }
                false
            },
        }
    }
}

/// Whether `policy` allows caching for the fork's endpoint; false without one.
pub open spec fn endpoint_allowed<P: CachingPolicy>(policy: &P, fork: ForkOptions) -> bool {
    match fork.fork_url {
        Some(u) => policy.allows_endpoint(u@),
        None => false,
    }
}

/// The fork is set up for caching: an endpoint, a pinned block, and no opt-out.
pub open spec fn cacheable(fork: ForkOptions) -> bool {
    fork.fork_url is Some && fork.fork_block_number is Some && !fork.no_storage_caching
}

/// The decision for a fork, given the policy's answers for its endpoint and chain.
pub open spec fn decision(
    fork: ForkOptions,
    chain_id: u64,
    endpoint_eligible: bool,
    chain_eligible: bool,
    cache_root: Seq<char>,
) -> (bool, Option<Seq<char>>) {
    if cacheable(fork) && endpoint_eligible && chain_eligible {
        (true, Some(block_cache_file(cache_root, chain_id, fork.fork_block_number->0)))
    } else {
        (false, None)
    }
}

/// The decimal representation of `n`.
pub fn decimal_string(n: u64) -> (r: String)
    ensures
        r@ == decimal(n as nat),
    decreases n,
{
    let digits = "0123456789";
    proof {
        reveal_strlit("0123456789");
    }
    let d = (n % 10) as usize;
    if n < 10 {
        String::from_str(digits.substring_char(d, d + 1))
    } else {
        let mut r = decimal_string(n / 10);
        r.append(digits.substring_char(d, d + 1));
        r
    }
}

/// The storage cache file of chain `chain_id` at `block`, under `cache_root`.
pub fn foundry_block_cache_file(cache_root: &str, chain_id: u64, block: u64) -> (r: String)
    ensures
        r@ == block_cache_file(cache_root@, chain_id, block),
{
    let mut r = String::from_str(cache_root);
    r.append("/");
    r.append(decimal_string(chain_id).as_str());
    r.append("/");
    r.append(decimal_string(block).as_str());
    r.append("/storage.json");
    r
}

/// Decides on storage caching from the policy's answers for the fork's endpoint and chain.
///
/// Caching is enabled exactly when an endpoint is given, a block is pinned, caching
/// was not switched off and both answers allow it; the path is then the cache file
/// of the chain at that block.
pub fn decide_with(
    fork: &ForkOptions,
    chain_id: u64,
    endpoint_eligible: bool,
    chain_eligible: bool,
    cache_root: &str,
) -> (r: ForkCacheDecision)
    ensures
        r@ == decision(*fork, chain_id, endpoint_eligible, chain_eligible, cache_root@),
        r.enabled <==> r.path is Some,
{
    if fork.no_storage_caching || fork.fork_url.is_none() || !endpoint_eligible
        || !chain_eligible {
        return ForkCacheDecision { enabled: false, path: None };
    }
    match fork.fork_block_number {
        Some(block) => ForkCacheDecision {
            enabled: true,
            path: Some(foundry_block_cache_file(cache_root, chain_id, block)),
        },
        None => ForkCacheDecision { enabled: false, path: None },
    }
}

/// Decides on storage caching for a fork whose chain id is `chain_id`, asking `policy`
/// about the fork's endpoint and that chain only when the fork is pinned, has an
/// endpoint and was not opted out.
pub fn decide<P: CachingPolicy>(
    fork: &ForkOptions,
    chain_id: u64,
    policy: &P,
    cache_root: &str,
) -> (r: ForkCacheDecision)
    ensures
        r@ == decision(
            *fork,
            chain_id,
            endpoint_allowed(policy, *fork),
            policy.allows_chain(chain_id),
            cache_root@,
        ),
        r.enabled <==> r.path is Some,
{
    if !fork.no_storage_caching && fork.fork_block_number.is_some() {
        if let Some(url) = &fork.fork_url {
            let e = policy.enable_for_endpoint(url.as_str());
            let c = e && policy.enable_for_chain_id(chain_id);
            return decide_with(fork, chain_id, e, c, cache_root);
        }
    }
    decide_with(fork, chain_id, false, false, cache_root)
}

/// The fork to run against, if the options name an endpoint, with its storage cache
/// file when caching is enabled for it.
pub fn get_fork<P: CachingPolicy>(
    fork: &ForkOptions,
    chain_id: u64,
    policy: &P,
    cache_root: &str,
) -> (r: Option<Fork>)
    ensures
        match r {
            Some(f) => fork.fork_url matches Some(u) && f.url@ == u@ && f.pin_block
                == fork.fork_block_number && f.chain_id == chain_id && decision(
                *fork,
                chain_id,
                endpoint_allowed(policy, *fork),
                policy.allows_chain(chain_id),
                cache_root@,
            ).1 == match f.cache_path {
                Some(p) => Some(p@),
                None => None,
            },
            None => fork.fork_url is None,
        },
{
    match &fork.fork_url {
        Some(url) => {
            let d = decide(fork, chain_id, policy, cache_root);
            Some(
                Fork {
                    url: url.clone(),
                    pin_block: fork.fork_block_number,
                    cache_path: d.path,
                    chain_id,
                },
            )
        },
        None => None,
    }
}

/// Caching is enabled, with a non-empty cache path, exactly when an endpoint is given,
/// a block is pinned, caching is not switched off and both the endpoint and the chain
/// are eligible; otherwise it is disabled and there is no path, whatever the answers.
pub proof fn lemma_decision_exact(
    fork: ForkOptions,
    chain_id: u64,
    endpoint_eligible: bool,
    chain_eligible: bool,
    cache_root: Seq<char>,
)
    ensures
        ({
            let d = decision(fork, chain_id, endpoint_eligible, chain_eligible, cache_root);
            &&& d.0 <==> (fork.fork_url is Some && fork.fork_block_number is Some
                && !fork.no_storage_caching && endpoint_eligible && chain_eligible)
            &&& d.0 ==> (d.1 matches Some(p) && p.len() > 0)
            &&& !d.0 ==> d.1 is None
            &&& (fork.fork_url is None || fork.no_storage_caching
                || fork.fork_block_number is None) ==> !d.0
        }),
{
    reveal_strlit("/storage.json");
}

} // verus!
