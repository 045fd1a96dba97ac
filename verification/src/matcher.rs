//! Matching the provider pool against a requested model name. Pure: the
//! result is the pool filtered by each provider's match predicate, in
//! pool order.

use vstd::prelude::*;
use crate::config::{ClientConfig, ClientConfigV, Config};
use crate::strutil::is_substring;

verus! {

/// Whether one provider accepts the model name.
pub open spec fn model_matches(c: ClientConfigV, model: Seq<char>) -> bool {
    if c.match_type == "keyword"@ {
        exists|i: int| 0 <= i < c.match_values.len() && is_substring(model, c.match_values[i])
    } else if c.match_type == "exact"@ {
        exists|i: int| 0 <= i < c.match_values.len() && c.match_values[i] == model
    } else {
        false
    }
}

/// The pool filtered by the match predicate, in pool order.
pub open spec fn matching_clients(pool: Seq<ClientConfigV>, model: Seq<char>) -> Seq<ClientConfigV> {
    pool.filter(|c: ClientConfigV| model_matches(c, model))
}

/// Whether `c` accepts `model`.
pub fn client_matches(c: &ClientConfig, model: &str) -> (r: bool)
    ensures
        r == model_matches(c.deep_view(), model@),
{
    let values: &Vec<String> = &c.model_match.value;
    let n: usize = values.len();
    if crate::strutil::eq_str(c.model_match.match_type.as_str(), "keyword") {
        let mut i: usize = 0;
        while i < n
            invariant
                n == values@.len(),
                i <= n,
                c.deep_view().match_type == "keyword"@,
                c.deep_view().match_values == values.deep_view(),
                forall|k: int| 0 <= k < i
                    ==> !is_substring(model@, c.deep_view().match_values[k]),
            decreases n - i,
        {
            if crate::strutil::str_contains(model, values[i].as_str()) {
                proof {
                    assert(is_substring(model@, c.deep_view().match_values[i as int]));
                }
                return true;
            }
            i = i + 1;
        }
        false
    } else if crate::strutil::eq_str(c.model_match.match_type.as_str(), "exact") {
        let mut i: usize = 0;
        while i < n
            invariant
                n == values@.len(),
                i <= n,
                c.deep_view().match_type == "exact"@,
                c.deep_view().match_type != "keyword"@,
                c.deep_view().match_values == values.deep_view(),
                forall|k: int| 0 <= k < i ==> c.deep_view().match_values[k] != model@,
            decreases n - i,
        {
            if crate::strutil::eq_str(values[i].as_str(), model) {
                proof {
                    assert(c.deep_view().match_values[i as int] == model@);
                }
                return true;
            }
            i = i + 1;
        }
        false
    } else {
        false
    }
}

/// The providers of the pool that accept `model`, in pool order.
pub fn find_matching_clients(config: &Config, model: &str) -> (r: Vec<ClientConfig>)
    ensures
        r.deep_view() == matching_clients(config.openai_clients.deep_view(), model@),
{
    let ghost pred = |c: ClientConfigV| model_matches(c, model@);
    let pool: &Vec<ClientConfig> = &config.openai_clients;
    let n: usize = pool.len();
    let mut out: Vec<ClientConfig> = Vec::new();
    let mut i: usize = 0;
    proof {
        assert(pool.deep_view().subrange(0, 0).filter(pred) =~= Seq::<ClientConfigV>::empty());
    }
    while i < n
        invariant
            n == pool@.len(),
            pool == &config.openai_clients,
            i <= n,
            out.deep_view() == pool.deep_view().subrange(0, i as int).filter(pred),
            pred == (|c: ClientConfigV| model_matches(c, model@)),
        decreases n - i,
    {
        let ghost prefix = pool.deep_view().subrange(0, i as int);
        let ghost next = pool.deep_view().subrange(0, i + 1);
        proof {
            assert(next.drop_last() =~= prefix);
            assert(next.last() == pool.deep_view()[i as int]);
            reveal(Seq::filter);
        }
        if client_matches(&pool[i], model) {
            out.push(pool[i].duplicate());
            proof {
                assert(out.deep_view() =~= prefix.filter(pred).push(pool.deep_view()[i as int]));
                assert(next.filter(pred) == prefix.filter(pred).push(next.last()));
            }
        } else {
            proof {
                assert(next.filter(pred) == prefix.filter(pred));
            }
        }
        i = i + 1;
    }
    proof {
        assert(pool.deep_view().subrange(0, n as int) =~= pool.deep_view());
    }
    out
}

} // verus!
