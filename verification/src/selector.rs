//! Ordering the matched providers. With no routing keys the order is a
//! weighted random shuffle: the caller draws one sort key per provider
//! and the selector orders by those keys, a zero or absent priority
//! always sinking to the bottom. With routing keys the order is the
//! cache-affine vote: every key anchors on the provider that wins its
//! rendezvous hash, providers collect the weights of the anchors they
//! win, and the result is ordered by points, ties broken by name, so
//! that the same keys against the same pool always give the same order.

use vstd::prelude::*;
use crate::config::{ClientConfig, ClientConfigV};
use crate::strutil::lex_lt;

verus! {

/// The priority of a provider; absent counts as zero.
pub open spec fn priority_of(c: ClientConfigV) -> u64 {
    match c.priority {
        Some(p) => p as u64,
        None => 0,
    }
}

/// The sort key a provider competes with: its drawn key, or the lowest
/// key when its priority is zero or absent.
pub open spec fn eff_key(c: ClientConfigV, k: u64) -> u64 {
    if priority_of(c) == 0 {
        0
    } else {
        k
    }
}

/// A pair inserted into a descending run: it goes before the first
/// element with a strictly smaller key, so equal keys keep their
/// arrival order.
pub open spec fn insert_desc(sorted: Seq<(u64, ClientConfigV)>, x: (u64, ClientConfigV))
    -> Seq<(u64, ClientConfigV)>
    decreases sorted.len(),
{
    if sorted.len() == 0 {
        seq![x]
    } else if x.0 > sorted[0].0 {
        seq![x] + sorted
    } else {
        seq![sorted[0]] + insert_desc(sorted.subrange(1, sorted.len() as int), x)
    }
}

/// Stable descending insertion sort over key-provider pairs.
pub open spec fn sort_desc(ps: Seq<(u64, ClientConfigV)>) -> Seq<(u64, ClientConfigV)>
    decreases ps.len(),
{
    if ps.len() == 0 {
        Seq::empty()
    } else {
        insert_desc(sort_desc(ps.drop_last()), ps.last())
    }
}

/// The weighted-random order: provider `i` competes with key
/// `eff_key(clients[i], keys[i])`, and the result is the providers in
/// descending key order, equal keys keeping pool order.
pub open spec fn spec_select_by_weight(clients: Seq<ClientConfigV>, keys: Seq<u64>)
    -> Seq<ClientConfigV>
{
    let pairs = Seq::new(clients.len(), |i: int| (eff_key(clients[i], keys[i]), clients[i]));
    let sorted = sort_desc(pairs);
    Seq::new(sorted.len(), |i: int| sorted[i].1)
}

proof fn lemma_insert_desc_at(sorted: Seq<(u64, ClientConfigV)>, x: (u64, ClientConfigV), j: int)
    requires
        0 <= j <= sorted.len(),
        forall|k: int| 0 <= k < j ==> !(x.0 > #[trigger] sorted[k].0),
        j < sorted.len() ==> x.0 > sorted[j].0,
    ensures
        insert_desc(sorted, x)
            =~= sorted.subrange(0, j) + seq![x] + sorted.subrange(j, sorted.len() as int),
    decreases j,
{
    if j == 0 {
        if sorted.len() == 0 {
            assert(insert_desc(sorted, x) == seq![x]);
        }
    } else {
        let rest = sorted.subrange(1, sorted.len() as int);
        assert(!(x.0 > sorted[0].0));
        assert(forall|k: int| 0 <= k < j - 1 ==> rest[k] == sorted[k + 1]
            && !(x.0 > #[trigger] rest[k].0));
        if j - 1 < rest.len() {
            assert(rest[j - 1] == sorted[j]);
        }
        lemma_insert_desc_at(rest, x, j - 1);
        assert(rest.subrange(0, j - 1) =~= sorted.subrange(1, j));
        assert(rest.subrange(j - 1, rest.len() as int)
            =~= sorted.subrange(j, sorted.len() as int));
    }
}

fn insert_pair_desc(sorted: &mut Vec<(u64, ClientConfig)>, x: (u64, ClientConfig))
    ensures
        final(sorted).deep_view() == insert_desc(old(sorted).deep_view(), x.deep_view()),
{
    let n: usize = sorted.len();
    let key: u64 = x.0;
    let mut j: usize = 0;
    while j < n && !(key > sorted[j].0)
        invariant
            n == sorted@.len(),
            n == sorted.deep_view().len(),
            sorted.deep_view() == old(sorted).deep_view(),
            key == x.0,
            j <= n,
            forall|k: int| 0 <= k < j ==> !(key > #[trigger] sorted.deep_view()[k].0),
        decreases n - j,
    {
        j = j + 1;
    }
    let ghost before = sorted.deep_view();
    let ghost jj = j as int;
    sorted.insert(j, x);
    proof {
        lemma_insert_desc_at(before, x.deep_view(), jj);
        assert(sorted.deep_view()
            =~= before.subrange(0, jj) + seq![x.deep_view()]
                + before.subrange(jj, before.len() as int));
    }
}

/// The weighted-random order (the caller draws `sort_keys`, one per
/// provider, from its randomness source): providers are returned in
/// descending order of their effective keys, where a provider whose
/// priority is zero or absent always competes with the lowest key, and
/// equal keys keep pool order.
pub fn select_clients_by_weight(clients: Vec<ClientConfig>, sort_keys: Vec<u64>)
    -> (r: Vec<ClientConfig>)
    requires
        sort_keys@.len() == clients@.len(),
    ensures
        r.deep_view() == spec_select_by_weight(clients.deep_view(), sort_keys@),
{
    let ghost cv = clients.deep_view();
    let ghost kv = sort_keys@;
    let ghost all_pairs = Seq::new(cv.len(), |i: int| (eff_key(cv[i], kv[i]), cv[i]));
    let n: usize = clients.len();
    let mut sorted: Vec<(u64, ClientConfig)> = Vec::new();
    let mut i: usize = 0;
    proof {
        assert(sorted.deep_view() =~= Seq::<(u64, ClientConfigV)>::empty());
        assert(all_pairs.subrange(0, 0) =~= Seq::<(u64, ClientConfigV)>::empty());
        assert(sort_desc(all_pairs.subrange(0, 0)) == Seq::<(u64, ClientConfigV)>::empty());
    }
    while i < n
        invariant
            n == cv.len(),
            n == clients@.len(),
            kv == sort_keys@,
            kv.len() == n,
            clients.deep_view() == cv,
            all_pairs == Seq::new(cv.len(), |k: int| (eff_key(cv[k], kv[k]), cv[k])),
            i <= n,
            sorted.deep_view() == sort_desc(all_pairs.subrange(0, i as int)),
        decreases n - i,
    {
        let c: ClientConfig = clients[i].duplicate();
        proof {
            assert(c.deep_view() == cv[i as int]);
        }
        let zero_priority: bool = match c.priority {
            Some(p) => p == 0,
            None => true,
        };
        let key: u64 = if zero_priority {
            0
        } else {
            sort_keys[i]
        };
        proof {
            assert(key == eff_key(cv[i as int], kv[i as int]));
        }
        let pair: (u64, ClientConfig) = (key, c);
        proof {
            assert(pair.deep_view() == all_pairs[i as int]);
        }
        insert_pair_desc(&mut sorted, pair);
        proof {
            let prefix = all_pairs.subrange(0, i as int);
            let next = all_pairs.subrange(0, i + 1);
            assert(next.drop_last() =~= prefix);
            assert(next.last() == all_pairs[i as int]);
        }
        i = i + 1;
    }
    let ghost sorted_v = sorted.deep_view();
    let m: usize = sorted.len();
    let mut out: Vec<ClientConfig> = Vec::new();
    let mut j: usize = 0;
    while j < m
        invariant
            m == sorted@.len(),
            m == sorted_v.len(),
            sorted.deep_view() == sorted_v,
            j <= m,
            out@.len() == j,
            forall|k: int| 0 <= k < j
                ==> (#[trigger] out@[k]).deep_view() == sorted_v[k].1,
        decreases m - j,
    {
        let pair: &(u64, ClientConfig) = &sorted[j];
        let elem: ClientConfig = pair.1.duplicate();
        proof {
            assert(sorted_v[j as int] == sorted@[j as int].deep_view());
            assert(elem.deep_view() == sorted_v[j as int].1);
        }
        out.push(elem);
        j = j + 1;
    }
    proof {
        assert(all_pairs.subrange(0, n as int) =~= all_pairs);
        assert(out.deep_view() =~= Seq::new(sorted_v.len(), |k: int| sorted_v[k].1));
    }
    out
}

} // verus!

verus! {

/// One routing key: an anchor's content and its vote weight.
pub struct RoutingKey {
    pub content: String,
    pub weight: u64,
}

pub struct RoutingKeyV {
    pub content: Seq<char>,
    pub weight: u64,
}

impl DeepView for RoutingKey {
    type V = RoutingKeyV;

    open spec fn deep_view(&self) -> RoutingKeyV {
        RoutingKeyV { content: self.content@, weight: self.weight }
    }
}

/// One step of the 64-bit FNV-1a fold, over a character's code point.
pub open spec fn fnv_step(h: u64, c: char) -> u64 {
    (((h ^ (c as u64)) as nat * 0x100000001b3) % 0x1_0000_0000_0000_0000) as u64
}

pub open spec fn fnv64_from(h: u64, s: Seq<char>) -> u64
    decreases s.len(),
{
    if s.len() == 0 {
        h
    } else {
        fnv64_from(fnv_step(h, s[0]), s.subrange(1, s.len() as int))
    }
}

/// The 64-bit FNV-1a hash of a character sequence, folded over code
/// points.
pub open spec fn fnv64(s: Seq<char>) -> u64 {
    fnv64_from(0xcbf29ce484222325, s)
}

fn fnv64_chars(v: &Vec<char>) -> (r: u64)
    ensures
        r == fnv64(v@),
{
    let n: usize = v.len();
    let mut h: u64 = 0xcbf29ce484222325;
    let mut i: usize = 0;
    proof {
        assert(v@.subrange(0, n as int) =~= v@);
    }
    while i < n
        invariant
            n == v@.len(),
            i <= n,
            fnv64_from(h, v@.subrange(i as int, n as int)) == fnv64(v@),
        decreases n - i,
    {
        let ghost rest = v@.subrange(i as int, n as int);
        proof {
            assert(rest[0] == v@[i as int]);
            assert(rest.subrange(1, rest.len() as int)
                =~= v@.subrange(i + 1, n as int));
        }
        let c: char = v[i];
        let x: u64 = h ^ (c as u64);
        h = x.wrapping_mul(0x100000001b3);
        i = i + 1;
    }
    proof {
        assert(v@.subrange(n as int, n as int).len() == 0);
    }
    h
}

/// The rendezvous score of a provider for an anchor: its priority
/// scaled by the hash of the anchor's content joined with the
/// provider's name; a provider of zero or absent priority never wins.
pub open spec fn anchor_score(c: ClientConfigV, content: Seq<char>) -> int {
    if priority_of(c) > 0 {
        priority_of(c) * fnv64(content + c.name)
    } else {
        -1
    }
}

/// The winner among the first `n` providers: the highest score, the
/// earliest on a tie, none when no provider has positive priority.
pub open spec fn winner_upto(clients: Seq<ClientConfigV>, content: Seq<char>, n: int)
    -> Option<int>
    decreases n,
{
    if n <= 0 {
        None
    } else {
        let prev = winner_upto(clients, content, n - 1);
        let s = anchor_score(clients[n - 1], content);
        if s < 0 {
            prev
        } else {
            match prev {
                None => Some(n - 1),
                Some(w) => if s > anchor_score(clients[w], content) {
                    Some(n - 1)
                } else {
                    Some(w)
                },
            }
        }
    }
}

pub open spec fn anchor_winner(clients: Seq<ClientConfigV>, content: Seq<char>) -> Option<int> {
    winner_upto(clients, content, clients.len() as int)
}

proof fn lemma_winner_range(clients: Seq<ClientConfigV>, content: Seq<char>, n: int)
    requires
        n <= clients.len(),
    ensures
        match winner_upto(clients, content, n) {
            Some(w) => 0 <= w < n,
            None => true,
        },
    decreases n,
{
    if n > 0 {
        lemma_winner_range(clients, content, n - 1);
    }
}

pub open spec fn sat_add(a: u64, b: u64) -> u64 {
    if a + b > u64::MAX {
        u64::MAX
    } else {
        (a + b) as u64
    }
}

/// One anchor's vote: its weight added to the winner's points.
pub open spec fn apply_anchor(points: Seq<u64>, clients: Seq<ClientConfigV>, key: RoutingKeyV)
    -> Seq<u64>
{
    match anchor_winner(clients, key.content) {
        Some(w) => points.update(w, sat_add(points[w], key.weight)),
        None => points,
    }
}

pub open spec fn tally_from(points: Seq<u64>, clients: Seq<ClientConfigV>,
    keys: Seq<RoutingKeyV>) -> Seq<u64>
    decreases keys.len(),
{
    if keys.len() == 0 {
        points
    } else {
        tally_from(apply_anchor(points, clients, keys[0]), clients,
            keys.subrange(1, keys.len() as int))
    }
}

/// The points each provider collects over all anchors.
pub open spec fn spec_tally(clients: Seq<ClientConfigV>, keys: Seq<RoutingKeyV>) -> Seq<u64> {
    tally_from(Seq::new(clients.len(), |i: int| 0u64), clients, keys)
}

/// The affinity order: more points first, ties broken by ascending
/// provider name.
pub open spec fn aff_before(x: (u64, ClientConfigV), y: (u64, ClientConfigV)) -> bool {
    x.0 > y.0 || (x.0 == y.0 && lex_lt(x.1.name, y.1.name))
}

pub open spec fn insert_aff(sorted: Seq<(u64, ClientConfigV)>, x: (u64, ClientConfigV))
    -> Seq<(u64, ClientConfigV)>
    decreases sorted.len(),
{
    if sorted.len() == 0 {
        seq![x]
    } else if aff_before(x, sorted[0]) {
        seq![x] + sorted
    } else {
        seq![sorted[0]] + insert_aff(sorted.subrange(1, sorted.len() as int), x)
    }
}

pub open spec fn sort_aff(ps: Seq<(u64, ClientConfigV)>) -> Seq<(u64, ClientConfigV)>
    decreases ps.len(),
{
    if ps.len() == 0 {
        Seq::empty()
    } else {
        insert_aff(sort_aff(ps.drop_last()), ps.last())
    }
}

/// The cache-affine order: a pure function of the pool and the routing
/// keys, so the same conversation prefix against the same pool always
/// yields the same order.
pub open spec fn spec_select_affine(clients: Seq<ClientConfigV>, keys: Seq<RoutingKeyV>)
    -> Seq<ClientConfigV>
{
    let points = spec_tally(clients, keys);
    let pairs = Seq::new(clients.len(), |i: int| (points[i], clients[i]));
    let sorted = sort_aff(pairs);
    Seq::new(sorted.len(), |i: int| sorted[i].1)
}

proof fn lemma_insert_aff_at(sorted: Seq<(u64, ClientConfigV)>, x: (u64, ClientConfigV), j: int)
    requires
        0 <= j <= sorted.len(),
        forall|k: int| 0 <= k < j ==> !aff_before(x, #[trigger] sorted[k]),
        j < sorted.len() ==> aff_before(x, sorted[j]),
    ensures
        insert_aff(sorted, x)
            =~= sorted.subrange(0, j) + seq![x] + sorted.subrange(j, sorted.len() as int),
    decreases j,
{
    if j == 0 {
        if sorted.len() == 0 {
            assert(insert_aff(sorted, x) == seq![x]);
        }
    } else {
        let rest = sorted.subrange(1, sorted.len() as int);
        assert(!aff_before(x, sorted[0]));
        assert(forall|k: int| 0 <= k < j - 1 ==> rest[k] == sorted[k + 1]
            && !aff_before(x, #[trigger] rest[k]));
        if j - 1 < rest.len() {
            assert(rest[j - 1] == sorted[j]);
        }
        lemma_insert_aff_at(rest, x, j - 1);
        assert(rest.subrange(0, j - 1) =~= sorted.subrange(1, j));
        assert(rest.subrange(j - 1, rest.len() as int)
            =~= sorted.subrange(j, sorted.len() as int));
    }
}

fn aff_before_exec(x: &(u64, ClientConfig), y: &(u64, ClientConfig)) -> (r: bool)
    ensures
        r == aff_before(x.deep_view(), y.deep_view()),
{
    if x.0 > y.0 {
        true
    } else if x.0 == y.0 {
        crate::strutil::str_lex_lt(x.1.name.as_str(), y.1.name.as_str())
    } else {
        false
    }
}

fn insert_pair_aff(sorted: &mut Vec<(u64, ClientConfig)>, x: (u64, ClientConfig))
    ensures
        final(sorted).deep_view() == insert_aff(old(sorted).deep_view(), x.deep_view()),
{
    let n: usize = sorted.len();
    let mut j: usize = 0;
    while j < n && !aff_before_exec(&x, &sorted[j])
        invariant
            n == sorted@.len(),
            n == sorted.deep_view().len(),
            sorted.deep_view() == old(sorted).deep_view(),
            j <= n,
            forall|k: int| 0 <= k < j
                ==> !aff_before(x.deep_view(), #[trigger] sorted.deep_view()[k]),
        decreases n - j,
    {
        j = j + 1;
    }
    let ghost before = sorted.deep_view();
    let ghost jj = j as int;
    proof {
        if jj < before.len() {
            assert(sorted.deep_view()[jj] == sorted@[jj].deep_view());
        }
    }
    sorted.insert(j, x);
    proof {
        lemma_insert_aff_at(before, x.deep_view(), jj);
        assert(sorted.deep_view()
            =~= before.subrange(0, jj) + seq![x.deep_view()]
                + before.subrange(jj, before.len() as int));
    }
}

/// The winner of one anchor, by index into the pool.
fn find_winner(clients: &Vec<ClientConfig>, content: &Vec<char>) -> (r: Option<usize>)
    ensures
        match r {
            Some(w) => anchor_winner(clients.deep_view(), content@) == Some(w as int),
            None => anchor_winner(clients.deep_view(), content@) is None,
        },
{
    let ghost cv = clients.deep_view();
    let n: usize = clients.len();
    let mut best: Option<(usize, u128)> = None;
    let mut i: usize = 0;
    while i < n
        invariant
            n == clients@.len(),
            n == cv.len(),
            cv == clients.deep_view(),
            i <= n,
            match best {
                Some((w, sc)) => winner_upto(cv, content@, i as int) == Some(w as int)
                    && w < i && sc as int == anchor_score(cv[w as int], content@),
                None => winner_upto(cv, content@, i as int) is None,
            },
        decreases n - i,
    {
        let c: &ClientConfig = &clients[i];
        let pri: u64 = match c.priority {
            Some(p) => p as u64,
            None => 0,
        };
        proof {
            assert(cv[i as int] == clients@[i as int].deep_view());
            assert(pri == priority_of(cv[i as int]));
        }
        if pri > 0 {
            let mut buf: Vec<char> = Vec::new();
            let mut content_copy: Vec<char> = Vec::new();
            let cn: usize = content.len();
            let mut k: usize = 0;
            while k < cn
                invariant
                    cn == content@.len(),
                    k <= cn,
                    buf@ == content@.subrange(0, k as int),
                decreases cn - k,
            {
                buf.push(content[k]);
                proof {
                    assert(buf@ =~= content@.subrange(0, k + 1));
                }
                k = k + 1;
            }
            let mut name_chars: Vec<char> = crate::strutil::to_chars(c.name.as_str());
            let ghost namev = name_chars@;
            let ghost buf_before = buf@;
            proof {
                assert(namev == cv[i as int].name);
                assert(buf_before =~= content@);
            }
            buf.append(&mut name_chars);
            proof {
                assert(buf@ == buf_before + namev);
                assert(buf@ =~= content@ + cv[i as int].name);
            }
            let h: u64 = fnv64_chars(&buf);
            proof {
                assert((pri as nat) * (h as nat) < 0x1000000000000000000000000
                    <= u128::MAX) by (nonlinear_arith)
                    requires
                        pri <= 0xffffffffu64,
                        h <= 0xffffffffffffffffu64,
                ;
            }
            let score: u128 = (pri as u128) * (h as u128);
            proof {
                assert(score as int == anchor_score(cv[i as int], content@));
            }
            let replace: bool = match &best {
                Some((_, sc)) => score > *sc,
                None => true,
            };
            if replace {
                best = Some((i, score));
            }
        }
        i = i + 1;
    }
    match best {
        Some((w, _)) => Some(w),
        None => None,
    }
}

/// The cache-affine order over the pool for the request's routing keys:
/// every anchor's weight goes to the provider winning its rendezvous
/// hash, and providers are returned by points, more first, ties broken
/// by ascending name. The order is a pure function of the pool and the
/// keys.
pub fn select_clients(clients: Vec<ClientConfig>, keys: &Vec<RoutingKey>)
    -> (r: Vec<ClientConfig>)
    ensures
        r.deep_view() == spec_select_affine(clients.deep_view(), keys.deep_view()),
{
    let ghost cv = clients.deep_view();
    let ghost kv = keys.deep_view();
    let n: usize = clients.len();
    let mut points: Vec<u64> = Vec::new();
    let mut z: usize = 0;
    while z < n
        invariant
            z <= n,
            points@.len() == z,
            forall|k: int| 0 <= k < z ==> points@[k] == 0u64,
        decreases n - z,
    {
        points.push(0);
        z = z + 1;
    }
    proof {
        assert(points@ =~= Seq::new(cv.len(), |i: int| 0u64));
    }
    let m: usize = keys.len();
    let mut t: usize = 0;
    proof {
        assert(kv.subrange(0, m as int) =~= kv);
    }
    while t < m
        invariant
            n == clients@.len(),
            n == cv.len(),
            cv == clients.deep_view(),
            kv == keys.deep_view(),
            m == kv.len(),
            m == keys@.len(),
            t <= m,
            points@.len() == n,
            tally_from(points@, cv, kv.subrange(t as int, m as int)) == spec_tally(cv, kv),
        decreases m - t,
    {
        let ghost rest = kv.subrange(t as int, m as int);
        proof {
            assert(rest[0] == kv[t as int]);
            assert(rest.subrange(1, rest.len() as int)
                =~= kv.subrange(t + 1, m as int));
        }
        let key: &RoutingKey = &keys[t];
        let content: Vec<char> = crate::strutil::to_chars(key.content.as_str());
        proof {
            assert(key.deep_view() == kv[t as int]);
        }
        match find_winner(&clients, &content) {
            Some(w) => {
                proof {
                    lemma_winner_range(cv, content@, cv.len() as int);
                }
                let ghost before = points@;
                let updated: u64 = points[w].saturating_add(key.weight);
                points[w] = updated;
                proof {
                    assert(points@ =~= before.update(w as int,
                        sat_add(before[w as int], kv[t as int].weight)));
                }
            },
            None => {},
        }
        t = t + 1;
    }
    proof {
        assert(kv.subrange(m as int, m as int).len() == 0);
    }
    let ghost final_points = points@;
    proof {
        assert(final_points == spec_tally(cv, kv));
    }
    let ghost all_pairs = Seq::new(cv.len(), |i: int| (final_points[i], cv[i]));
    let mut sorted: Vec<(u64, ClientConfig)> = Vec::new();
    let mut i: usize = 0;
    proof {
        assert(sorted.deep_view() =~= Seq::<(u64, ClientConfigV)>::empty());
        assert(all_pairs.subrange(0, 0) =~= Seq::<(u64, ClientConfigV)>::empty());
        assert(sort_aff(all_pairs.subrange(0, 0)) == Seq::<(u64, ClientConfigV)>::empty());
    }
    while i < n
        invariant
            n == cv.len(),
            n == clients@.len(),
            cv == clients.deep_view(),
            points@ == final_points,
            final_points.len() == n,
            all_pairs == Seq::new(cv.len(), |k: int| (final_points[k], cv[k])),
            i <= n,
            sorted.deep_view() == sort_aff(all_pairs.subrange(0, i as int)),
        decreases n - i,
    {
        let c: ClientConfig = clients[i].duplicate();
        let pair: (u64, ClientConfig) = (points[i], c);
        proof {
            assert(pair.deep_view() == all_pairs[i as int]);
        }
        insert_pair_aff(&mut sorted, pair);
        proof {
            let prefix = all_pairs.subrange(0, i as int);
            let next = all_pairs.subrange(0, i + 1);
            assert(next.drop_last() =~= prefix);
            assert(next.last() == all_pairs[i as int]);
        }
        i = i + 1;
    }
    let ghost sorted_v = sorted.deep_view();
    let sm: usize = sorted.len();
    let mut out: Vec<ClientConfig> = Vec::new();
    let mut j: usize = 0;
    while j < sm
        invariant
            sm == sorted@.len(),
            sm == sorted_v.len(),
            sorted.deep_view() == sorted_v,
            j <= sm,
            out@.len() == j,
            forall|k: int| 0 <= k < j
                ==> (#[trigger] out@[k]).deep_view() == sorted_v[k].1,
        decreases sm - j,
    {
        let pair: &(u64, ClientConfig) = &sorted[j];
        let elem: ClientConfig = pair.1.duplicate();
        proof {
            assert(sorted_v[j as int] == sorted@[j as int].deep_view());
            assert(elem.deep_view() == sorted_v[j as int].1);
        }
        out.push(elem);
        j = j + 1;
    }
    proof {
        assert(all_pairs.subrange(0, n as int) =~= all_pairs);
        assert(out.deep_view() =~= Seq::new(sorted_v.len(), |k: int| sorted_v[k].1));
    }
    out
}

} // verus!
