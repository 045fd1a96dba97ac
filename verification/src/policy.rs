//! Per-request provider policy: the stop-word merge and the max_tokens
//! clamp applied to every outbound request body.

use vstd::prelude::*;

verus! {

/// `acc` extended with each element of `xs`, left to right, skipping an
/// element that is already present.
pub open spec fn dedup_into(acc: Seq<Seq<char>>, xs: Seq<Seq<char>>) -> Seq<Seq<char>>
    decreases xs.len(),
{
    if xs.len() == 0 {
        acc
    } else if acc.contains(xs[0]) {
        dedup_into(acc, xs.subrange(1, xs.len() as int))
    } else {
        dedup_into(acc.push(xs[0]), xs.subrange(1, xs.len() as int))
    }
}

/// The elements of `xs` in first-occurrence order, each kept once.
pub open spec fn dedup(xs: Seq<Seq<char>>) -> Seq<Seq<char>> {
    dedup_into(Seq::empty(), xs)
}

/// The effective stop set sent upstream: the provider's stop words
/// followed by the request's, in first-occurrence order with duplicates
/// dropped; `None` only when neither side names any.
pub open spec fn merged_stops(client: Option<Seq<Seq<char>>>, request: Option<Seq<Seq<char>>>)
    -> Option<Seq<Seq<char>>>
{
    match (client, request) {
        (Some(c), Some(r)) => Some(dedup(c + r)),
        (Some(c), None) => Some(dedup(c)),
        (None, Some(r)) => Some(dedup(r)),
        (None, None) => None,
    }
}

pub(crate) fn vec_contains_str(v: &Vec<String>, w: &String) -> (r: bool)
    ensures
        r == v.deep_view().contains(w@),
{
    let n: usize = v.len();
    let mut i: usize = 0;
    while i < n
        invariant
            n == v@.len(),
            i <= n,
            forall|k: int| 0 <= k < i ==> v.deep_view()[k] != w@,
        decreases n - i,
    {
        if crate::strutil::eq_str(v[i].as_str(), w.as_str()) {
            proof {
                assert(v.deep_view()[i as int] == w@);
            }
            return true;
        }
        i = i + 1;
    }
    proof {
        if v.deep_view().contains(w@) {
            let k = choose|k: int| 0 <= k < v.deep_view().len() && v.deep_view()[k] == w@;
        }
    }
    false
}

/// Appends the words of `xs` to `acc`, skipping those already present.
fn dedup_append(acc: &mut Vec<String>, xs: &Vec<String>)
    ensures
        final(acc).deep_view() == dedup_into(old(acc).deep_view(), xs.deep_view()),
{
    let n: usize = xs.len();
    let mut i: usize = 0;
    proof {
        assert(xs.deep_view().subrange(0, n as int) =~= xs.deep_view());
    }
    while i < n
        invariant
            n == xs@.len(),
            i <= n,
            dedup_into(acc.deep_view(), xs.deep_view().subrange(i as int, n as int))
                == dedup_into(old(acc).deep_view(), xs.deep_view()),
        decreases n - i,
    {
        let ghost rest = xs.deep_view().subrange(i as int, n as int);
        proof {
            assert(rest[0] == xs.deep_view()[i as int]);
            assert(rest.subrange(1, rest.len() as int)
                =~= xs.deep_view().subrange(i + 1, n as int));
        }
        if !vec_contains_str(acc, &xs[i]) {
            let ghost before = acc.deep_view();
            acc.push(xs[i].clone());
            proof {
                assert(acc.deep_view() =~= before.push(xs.deep_view()[i as int]));
            }
        }
        i = i + 1;
    }
    proof {
        assert(xs.deep_view().subrange(n as int, n as int).len() == 0);
    }
}

/// The stop words sent upstream: provider words first, then the
/// request's, first occurrence kept, later repeats dropped.
pub fn merge_stop_words(client_stop: Option<&Vec<String>>, request_stop: Option<Vec<String>>)
    -> (r: Option<Vec<String>>)
    ensures
        r.deep_view() == merged_stops(client_stop.deep_view(), request_stop.deep_view()),
{
    match (client_stop, request_stop) {
        (Some(c), Some(rq)) => {
            let mut merged: Vec<String> = Vec::new();
            let ghost empty_acc = Seq::<Seq<char>>::empty();
            proof {
                assert(merged.deep_view() =~= empty_acc);
            }
            dedup_append(&mut merged, c);
            dedup_append(&mut merged, &rq);
            proof {
                lemma_dedup_into_concat(empty_acc, c.deep_view(), rq.deep_view());
            }
            Some(merged)
        },
        (Some(c), None) => {
            let mut merged: Vec<String> = Vec::new();
            proof {
                assert(merged.deep_view() =~= Seq::<Seq<char>>::empty());
            }
            dedup_append(&mut merged, c);
            Some(merged)
        },
        (None, Some(rq)) => {
            let mut merged: Vec<String> = Vec::new();
            proof {
                assert(merged.deep_view() =~= Seq::<Seq<char>>::empty());
            }
            dedup_append(&mut merged, &rq);
            Some(merged)
        },
        (None, None) => None,
    }
}

proof fn lemma_dedup_into_concat(acc: Seq<Seq<char>>, xs: Seq<Seq<char>>, ys: Seq<Seq<char>>)
    ensures
        dedup_into(dedup_into(acc, xs), ys) == dedup_into(acc, xs + ys),
    decreases xs.len(),
{
    if xs.len() == 0 {
        assert(xs + ys =~= ys);
    } else {
        let rest = xs.subrange(1, xs.len() as int);
        assert((xs + ys)[0] == xs[0]);
        assert((xs + ys).subrange(1, (xs + ys).len() as int) =~= rest + ys);
        if acc.contains(xs[0]) {
            lemma_dedup_into_concat(acc, rest, ys);
        } else {
            lemma_dedup_into_concat(acc.push(xs[0]), rest, ys);
        }
    }
}

/// The request's max_tokens clamped by the provider's cap; whichever
/// side is absent defers to the other.
pub open spec fn clamped(client: Option<u32>, request: Option<u32>) -> Option<u32> {
    match (client, request) {
        (Some(c), Some(q)) => Some(if q > c { c } else { q }),
        (Some(c), None) => Some(c),
        (None, Some(q)) => Some(q),
        (None, None) => None,
    }
}

/// The max_tokens sent upstream: the request's value clamped by the
/// provider's cap; whichever side is absent defers to the other.
pub fn adjust_max_tokens(client_max_tokens: Option<u32>, request_max_tokens: Option<u32>)
    -> (r: Option<u32>)
    ensures
        r == clamped(client_max_tokens, request_max_tokens),
{
    match (client_max_tokens, request_max_tokens) {
        (Some(client_limit), Some(requested)) => {
            if requested > client_limit {
                Some(client_limit)
            } else {
                Some(requested)
            }
        },
        (Some(client_limit), None) => Some(client_limit),
        (None, Some(requested)) => Some(requested),
        (None, None) => None,
    }
}

} // verus!
