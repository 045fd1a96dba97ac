//! The provider pool configuration. A `Config` is an immutable snapshot;
//! the process around the library parses the configuration file into it
//! and swaps whole snapshots atomically, so every request sees either the
//! old pool or the new one, never a mix.

use vstd::prelude::*;

verus! {

/// How a provider decides whether it serves a requested model:
/// `exact` demands equality with one of `value`; `keyword` demands that
/// one of `value` occurs in the model name as a substring.
pub struct ModelMatch {
    pub match_type: String,
    pub value: Vec<String>,
}

/// One upstream provider.
pub struct ClientConfig {
    pub name: String,
    pub base_url: String,
    pub api_key: Option<String>,
    pub model_match: ModelMatch,
    pub priority: Option<u32>,
    pub fallback: Option<String>,
    pub special_prefix: Option<String>,
    pub stop: Option<Vec<String>>,
    pub max_tokens: Option<u32>,
}

/// The whole configuration: the ordered provider pool plus the health
/// check block.
pub struct Config {
    pub check_config: Option<CheckConfig>,
    pub openai_clients: Vec<ClientConfig>,
}

pub struct CheckConfig {
    pub enabled: bool,
    pub endpoint: String,
    pub interval: u64,
}

/// Mathematical shape of a provider entry.
pub struct ClientConfigV {
    pub name: Seq<char>,
    pub base_url: Seq<char>,
    pub api_key: Option<Seq<char>>,
    pub match_type: Seq<char>,
    pub match_values: Seq<Seq<char>>,
    pub priority: Option<u32>,
    pub fallback: Option<Seq<char>>,
    pub special_prefix: Option<Seq<char>>,
    pub stop: Option<Seq<Seq<char>>>,
    pub max_tokens: Option<u32>,
}

impl DeepView for ClientConfig {
    type V = ClientConfigV;

    open spec fn deep_view(&self) -> ClientConfigV {
        ClientConfigV {
            name: self.name@,
            base_url: self.base_url@,
            api_key: self.api_key.deep_view(),
            match_type: self.model_match.match_type@,
            match_values: self.model_match.value.deep_view(),
            priority: self.priority,
            fallback: self.fallback.deep_view(),
            special_prefix: self.special_prefix.deep_view(),
            stop: self.stop.deep_view(),
            max_tokens: self.max_tokens,
        }
    }
}

fn clone_opt_string(o: &Option<String>) -> (r: Option<String>)
    ensures
        r == *o,
{
    match o {
        Some(s) => Some(s.clone()),
        None => None,
    }
}

pub(crate) fn clone_vec_string(v: &Vec<String>) -> (r: Vec<String>)
    ensures
        r@ == v@,
{
    let n: usize = v.len();
    let mut out: Vec<String> = Vec::new();
    let mut i: usize = 0;
    while i < n
        invariant
            n == v@.len(),
            i <= n,
            out@ =~= v@.subrange(0, i as int),
        decreases n - i,
    {
        out.push(v[i].clone());
        proof {
            assert(out@ =~= v@.subrange(0, i + 1));
        }
        i = i + 1;
    }
    proof {
        assert(out@ =~= v@);
    }
    out
}

impl ClientConfig {
    /// An exact copy of the entry.
    pub fn duplicate(&self) -> (r: ClientConfig)
        ensures
            r.deep_view() == self.deep_view(),
    {
        let stop: Option<Vec<String>> = match &self.stop {
            Some(v) => Some(clone_vec_string(v)),
            None => None,
        };
        let r = ClientConfig {
            name: self.name.clone(),
            base_url: self.base_url.clone(),
            api_key: clone_opt_string(&self.api_key),
            model_match: ModelMatch {
                match_type: self.model_match.match_type.clone(),
                value: clone_vec_string(&self.model_match.value),
            },
            priority: self.priority,
            fallback: clone_opt_string(&self.fallback),
            special_prefix: clone_opt_string(&self.special_prefix),
            stop,
            max_tokens: self.max_tokens,
        };
        proof {
            assert(r.deep_view().match_values =~= self.deep_view().match_values);
            match (&r.stop, &self.stop) {
                (Some(a), Some(b)) => {
                    assert(a.deep_view() =~= b.deep_view());
                },
                _ => {},
            }
        }
        r
    }
}

} // verus!
