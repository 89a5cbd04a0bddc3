//! Configuration.

use vstd::prelude::*;

use crate::float::Single;
use crate::identity::{namespace, namespace_of};

verus! {

/// Configuration of the facade.
#[derive(Clone, Copy, Debug, PartialEq)]
pub struct ResolverConfig {
    /// Whether the resolver may be asked at all.
    pub online_enabled: bool,
    /// The namespace of target ids.
    pub namespace: u128,
    /// The least similarity of a fuzzy hit; `None` where fuzzy search is off.
    pub fuzzy_min_score: Option<Single>,
}

impl ResolverConfig {
    /// Online, without fuzzy search, and with the namespace of `seed`.
    pub fn new(seed: &str) -> (r: Self)
        ensures
            r.online_enabled,
            r.namespace == namespace_of(seed@),
            r.fuzzy_min_score is None,
    {
        ResolverConfig { online_enabled: true, namespace: namespace(seed), fuzzy_min_score: None }
    }

    /// Switch online resolution on or off.
    pub fn with_online(self, online_enabled: bool) -> (r: Self)
        ensures
            r.online_enabled == online_enabled,
            r.namespace == self.namespace,
            r.fuzzy_min_score == self.fuzzy_min_score,
    {
        ResolverConfig {
            online_enabled,
            namespace: self.namespace,
            fuzzy_min_score: self.fuzzy_min_score,
        }
    }

    /// Switch fuzzy search on, with the given least similarity.
    pub fn with_fuzzy(self, min_score: Single) -> (r: Self)
        ensures
            r.online_enabled == self.online_enabled,
            r.namespace == self.namespace,
            r.fuzzy_min_score == Some(min_score),
    {
        ResolverConfig {
            online_enabled: self.online_enabled,
            namespace: self.namespace,
            fuzzy_min_score: Some(min_score),
        }
    }
}

/// A span of time, in whole seconds and nanoseconds.
#[derive(Clone, Copy, Debug, Eq, PartialEq, Structural)]
pub struct Timeout {
    /// Whole seconds.
    pub secs: u64,
    /// Nanoseconds beyond those.
    pub nanos: u32,
}

/// The TAP endpoint of SIMBAD.
pub const DEFAULT_TAP_ENDPOINT: &'static str =
    "https://simbad.cds.unistra.fr/simbad/sim-tap/sync";

/// The header by which requests identify themselves.
pub const DEFAULT_USER_AGENT: &'static str =
    "simbad-resolver/0.5.0 (+https://github.com/nightwatch-astro/simbad-resolver)";

/// The view of a [`SimbadConfig`].
#[verifier::ext_equal]
pub struct ConfigView {
    pub endpoint: Seq<char>,
    pub timeout: Timeout,
    pub user_agent: Seq<char>,
}

/// Configuration of a service.
#[derive(Debug, Eq, PartialEq)]
pub struct SimbadConfig {
    /// The URL of the service.
    pub endpoint: String,
    /// How long a request may take.
    pub timeout: Timeout,
    /// The identifying header sent with every request.
    pub user_agent: String,
}

impl View for SimbadConfig {
    type V = ConfigView;

    open spec fn view(&self) -> ConfigView {
        ConfigView {
            endpoint: self.endpoint@,
            timeout: self.timeout,
            user_agent: self.user_agent@,
        }
    }
}

impl Clone for SimbadConfig {
    fn clone(&self) -> (r: Self)
        ensures
            r@ == self@,
    {
        SimbadConfig {
            endpoint: self.endpoint.clone(),
            timeout: self.timeout,
            user_agent: self.user_agent.clone(),
        }
    }
}

impl Default for SimbadConfig {
    /// The TAP endpoint of SIMBAD, ten seconds, and the library's own header.
    fn default() -> (r: Self)
        ensures
            r@ == (ConfigView {
                endpoint: DEFAULT_TAP_ENDPOINT@,
                timeout: (Timeout { secs: 10, nanos: 0 }),
                user_agent: DEFAULT_USER_AGENT@,
            }),
    {
        SimbadConfig {
            endpoint: DEFAULT_TAP_ENDPOINT.to_owned(),
            timeout: Timeout { secs: 10, nanos: 0 },
            user_agent: DEFAULT_USER_AGENT.to_owned(),
        }
    }
}

} // verus!
