//! Character-level string helpers shared by the matcher, the selector and
//! the response pipeline. All results are specified against `Seq<char>`
//! views; whitespace is the ASCII set (space, tab, line feed, carriage
//! return).

use vstd::prelude::*;

verus! {

/// ASCII whitespace, the set stripped by `trim`.
pub open spec fn is_space(c: char) -> bool {
    c == ' ' || c == '\t' || c == '\n' || c == '\r'
}

pub fn space_char(c: char) -> (b: bool)
    ensures
        b == is_space(c),
{
    c == ' ' || c == '\t' || c == '\n' || c == '\r'
}

/// The characters of `s`, as a vector.
pub fn to_chars(s: &str) -> (v: Vec<char>)
    ensures
        v@ == s@,
{
    let n: usize = s.unicode_len();
    let mut v: Vec<char> = Vec::new();
    let mut i: usize = 0;
    while i < n
        invariant
            n == s@.len(),
            i <= n,
            v@ == s@.subrange(0, i as int),
        decreases n - i,
    {
        v.push(s.get_char(i));
        proof {
            assert(v@ =~= s@.subrange(0, i + 1 as int));
        }
        i = i + 1;
    }
    proof {
        assert(v@ =~= s@);
    }
    v
}

/// Whether the two slices hold the same characters.
pub fn eq_str(a: &str, b: &str) -> (r: bool)
    ensures
        r == (a@ == b@),
{
    let x: String = a.to_owned();
    let y: String = b.to_owned();
    x == y
}

/// `n` occurs in `h` starting at position `i`.
pub open spec fn occurs_at(h: Seq<char>, n: Seq<char>, i: int) -> bool {
    0 <= i && i + n.len() <= h.len() && h.subrange(i, i + n.len()) == n
}

/// `n` is a contiguous substring of `h`.
pub open spec fn is_substring(h: Seq<char>, n: Seq<char>) -> bool {
    exists|i: int| occurs_at(h, n, i)
}

/// `n` occurs in `h` at `i` and nowhere earlier than `from`.
pub open spec fn first_occurrence_from(h: Seq<char>, n: Seq<char>, from: int, i: int) -> bool {
    occurs_at(h, n, i) && from <= i && forall|k: int| from <= k < i ==> !occurs_at(h, n, k)
}

fn chars_match_at(h: &Vec<char>, n: &Vec<char>, i: usize) -> (r: bool)
    requires
        i + n@.len() <= h@.len(),
    ensures
        r == occurs_at(h@, n@, i as int),
{
    let m: usize = n.len();
    let hl: usize = h.len();
    let mut j: usize = 0;
    while j < m
        invariant
            m == n@.len(),
            hl == h@.len(),
            i + m <= hl,
            j <= m,
            forall|k: int| 0 <= k < j ==> h@[i + k] == n@[k],
        decreases m - j,
    {
        if h[i + j] != n[j] {
            proof {
                let sub = h@.subrange(i as int, i + m);
                assert(sub[j as int] == h@[i + j]);
                assert(sub != n@) by {
                    if sub == n@ {
                        assert(sub[j as int] == n@[j as int]);
                    }
                }
            }
            return false;
        }
        j = j + 1;
    }
    proof {
        assert(h@.subrange(i as int, i + m) =~= n@);
    }
    true
}

/// Position of the first occurrence of `n` in `h` at or after `from`,
/// if there is one.
pub fn find_from(h: &Vec<char>, n: &Vec<char>, from: usize) -> (r: Option<usize>)
    ensures
        match r {
            Some(i) => first_occurrence_from(h@, n@, from as int, i as int),
            None => forall|k: int| from <= k ==> !occurs_at(h@, n@, k),
        },
{
    let hl: usize = h.len();
    let nl: usize = n.len();
    if nl == 0 {
        if from <= hl {
            proof {
                assert(h@.subrange(from as int, from as int) =~= n@);
            }
            return Some(from);
        }
        proof {
            assert(forall|k: int| from <= k ==> !occurs_at(h@, n@, k));
        }
        return None;
    }
    if nl > hl {
        proof {
            assert(forall|k: int| from <= k ==> !occurs_at(h@, n@, k));
        }
        return None;
    }
    let stop: usize = hl - nl;
    if from > stop {
        proof {
            assert(forall|k: int| from <= k ==> !occurs_at(h@, n@, k));
        }
        return None;
    }
    let mut i: usize = from;
    loop
        invariant
            nl == n@.len(),
            hl == h@.len(),
            1 <= nl <= hl,
            stop == hl - nl,
            from <= i <= stop + 1,
            forall|k: int| from <= k < i ==> !occurs_at(h@, n@, k),
        decreases stop + 1 - i,
    {
        if i > stop {
            proof {
                assert(forall|k: int| from <= k ==> !occurs_at(h@, n@, k));
            }
            return None;
        }
        if chars_match_at(h, n, i) {
            return Some(i);
        }
        i = i + 1;
    }
}

/// Whether `n` occurs as a substring of `h`.
pub fn str_contains(h: &str, n: &str) -> (r: bool)
    ensures
        r == is_substring(h@, n@),
{
    let hv: Vec<char> = to_chars(h);
    let nv: Vec<char> = to_chars(n);
    match find_from(&hv, &nv, 0) {
        Some(_) => true,
        None => false,
    }
}

/// `p` is a prefix of `s`.
pub open spec fn has_prefix(s: Seq<char>, p: Seq<char>) -> bool {
    p.len() <= s.len() && s.subrange(0, p.len() as int) == p
}

pub fn starts_with(s: &str, p: &str) -> (r: bool)
    ensures
        r == has_prefix(s@, p@),
{
    let sv: Vec<char> = to_chars(s);
    let pv: Vec<char> = to_chars(p);
    if pv.len() > sv.len() {
        return false;
    }
    chars_match_at(&sv, &pv, 0)
}

/// The characters of `s` after the prefix `p`, when `p` is a prefix.
pub fn strip_prefix_str(s: &str, p: &str) -> (r: Option<String>)
    ensures
        match r {
            Some(t) => has_prefix(s@, p@) && t@ == s@.subrange(p@.len() as int, s@.len() as int),
            None => !has_prefix(s@, p@),
        },
{
    if starts_with(s, p) {
        let pl: usize = p.unicode_len();
        let sl: usize = s.unicode_len();
        let rest: &str = s.substring_char(pl, sl);
        Some(rest.to_owned())
    } else {
        None
    }
}

/// Number of leading whitespace characters.
pub open spec fn leading_spaces(s: Seq<char>) -> int
    decreases s.len(),
{
    if s.len() > 0 && is_space(s[0]) {
        1 + leading_spaces(s.subrange(1, s.len() as int))
    } else {
        0
    }
}

/// Number of trailing whitespace characters.
pub open spec fn trailing_spaces(s: Seq<char>) -> int
    decreases s.len(),
{
    if s.len() > 0 && is_space(s[s.len() - 1]) {
        1 + trailing_spaces(s.subrange(0, s.len() - 1))
    } else {
        0
    }
}

/// `s` with leading and trailing ASCII whitespace removed.
pub open spec fn trim_spec(s: Seq<char>) -> Seq<char> {
    if leading_spaces(s) == s.len() {
        Seq::<char>::empty()
    } else {
        s.subrange(leading_spaces(s), s.len() - trailing_spaces(s))
    }
}

proof fn lemma_leading_spaces_bound(s: Seq<char>)
    ensures
        0 <= leading_spaces(s) <= s.len(),
        forall|k: int| 0 <= k < leading_spaces(s) ==> is_space(s[k]),
        leading_spaces(s) < s.len() ==> !is_space(s[leading_spaces(s)]),
    decreases s.len(),
{
    if s.len() > 0 && is_space(s[0]) {
        let t = s.subrange(1, s.len() as int);
        lemma_leading_spaces_bound(t);
        assert forall|k: int| 0 <= k < leading_spaces(s) implies is_space(s[k]) by {
            if k > 0 {
                assert(t[k - 1] == s[k]);
            }
        }
        if leading_spaces(s) < s.len() {
            assert(t[leading_spaces(s) - 1] == s[leading_spaces(s)]);
        }
    }
}

proof fn lemma_trailing_spaces_bound(s: Seq<char>)
    ensures
        0 <= trailing_spaces(s) <= s.len(),
        forall|k: int| s.len() - trailing_spaces(s) <= k < s.len() ==> is_space(s[k]),
        trailing_spaces(s) < s.len() ==> !is_space(s[s.len() - trailing_spaces(s) - 1]),
    decreases s.len(),
{
    if s.len() > 0 && is_space(s[s.len() - 1]) {
        let t = s.subrange(0, s.len() - 1);
        lemma_trailing_spaces_bound(t);
        assert forall|k: int| s.len() - trailing_spaces(s) <= k < s.len() implies is_space(s[k]) by {
            if k < s.len() - 1 {
                assert(t[k] == s[k]);
            }
        }
        if trailing_spaces(s) < s.len() {
            assert(t[t.len() - trailing_spaces(t) - 1] == s[s.len() - trailing_spaces(s) - 1]);
        }
    }
}

/// `s` with leading and trailing ASCII whitespace removed.
pub fn trim(s: &str) -> (r: String)
    ensures
        r@ == trim_spec(s@),
{
    let v: Vec<char> = to_chars(s);
    let n: usize = v.len();
    proof {
        lemma_leading_spaces_bound(s@);
        lemma_trailing_spaces_bound(s@);
    }
    let mut start: usize = 0;
    while start < n && space_char(v[start])
        invariant
            n == v@.len(),
            v@ == s@,
            start <= n,
            forall|k: int| 0 <= k < start ==> is_space(s@[k]),
        decreases n - start,
    {
        start = start + 1;
    }
    if start == n {
        proof {
            lemma_leading_spaces_bound(s@);
            assert(leading_spaces(s@) == s@.len()) by {
                if leading_spaces(s@) < s@.len() {
                    assert(!is_space(s@[leading_spaces(s@)]));
                }
            }
        }
        return String::new();
    }
    proof {
        lemma_leading_spaces_bound(s@);
        assert(leading_spaces(s@) == start) by {
            if leading_spaces(s@) < start {
                assert(is_space(s@[leading_spaces(s@)]));
            }
            if leading_spaces(s@) > start {
                assert(is_space(s@[start as int]));
            }
        }
    }
    let mut end: usize = n;
    while end > start && space_char(v[end - 1])
        invariant
            n == v@.len(),
            v@ == s@,
            start < n,
            start <= end <= n,
            !is_space(s@[start as int]),
            forall|k: int| end <= k < n ==> is_space(s@[k]),
        decreases end,
    {
        end = end - 1;
    }
    proof {
        lemma_trailing_spaces_bound(s@);
        assert(trailing_spaces(s@) == n - end) by {
            if trailing_spaces(s@) < n - end {
                assert(is_space(s@[s@.len() - trailing_spaces(s@) - 1]));
            }
            if trailing_spaces(s@) > n - end {
                assert(is_space(s@[end - 1]));
            }
        }
    }
    let piece: &str = s.substring_char(start, end);
    piece.to_owned()
}

/// `s` with every occurrence of `pat` removed, scanning left to right and
/// not rescanning removed text.
pub open spec fn remove_all_spec(s: Seq<char>, p: Seq<char>) -> Seq<char>
    decreases s.len(),
{
    if p.len() == 0 || s.len() < p.len() {
        s
    } else if s.subrange(0, p.len() as int) == p {
        remove_all_spec(s.subrange(p.len() as int, s.len() as int), p)
    } else {
        seq![s[0]] + remove_all_spec(s.subrange(1, s.len() as int), p)
    }
}

proof fn lemma_remove_all_step(s: Seq<char>, p: Seq<char>, i: int)
    requires
        0 <= i <= s.len(),
        p.len() > 0,
    ensures
        occurs_at(s, p, i) ==> remove_all_spec(s.subrange(i, s.len() as int), p)
            == remove_all_spec(s.subrange(i + p.len(), s.len() as int), p),
        (i < s.len() && !occurs_at(s, p, i)) ==> remove_all_spec(s.subrange(i, s.len() as int), p)
            == seq![s[i]] + remove_all_spec(s.subrange(i + 1, s.len() as int), p),
{
    let rest = s.subrange(i, s.len() as int);
    if occurs_at(s, p, i) {
        assert(rest.subrange(0, p.len() as int) =~= s.subrange(i, i + p.len()));
        assert(rest.subrange(p.len() as int, rest.len() as int)
            =~= s.subrange(i + p.len(), s.len() as int));
    } else if i < s.len() {
        if rest.len() >= p.len() {
            assert(rest.subrange(0, p.len() as int) =~= s.subrange(i, i + p.len()));
        }
        if rest.len() < p.len() {
            assert(rest =~= seq![s[i]] + s.subrange(i + 1, s.len() as int)) by {
                assert(rest.len() == s.len() - i);
            }
            let tail = s.subrange(i + 1, s.len() as int);
            assert(tail.len() < p.len());
            assert(remove_all_spec(tail, p) == tail);
        } else {
            assert(rest[0] == s[i]);
            assert(rest.subrange(1, rest.len() as int) =~= s.subrange(i + 1, s.len() as int));
        }
    }
}

/// `s` with every occurrence of `pat` removed.
pub fn remove_all(s: &str, pat: &str) -> (r: String)
    requires
        pat@.len() > 0,
    ensures
        r@ == remove_all_spec(s@, pat@),
{
    let sv: Vec<char> = to_chars(s);
    let pv: Vec<char> = to_chars(pat);
    let n: usize = sv.len();
    let m: usize = pv.len();
    let mut out: String = String::new();
    let mut seg: usize = 0;
    let mut i: usize = 0;
    proof {
        assert(s@.subrange(0, n as int) =~= s@);
        assert(out@ + s@.subrange(0, 0) + remove_all_spec(s@, pat@)
            =~= remove_all_spec(s@, pat@));
    }
    while i < n
        invariant
            sv@ == s@,
            pv@ == pat@,
            n == s@.len(),
            m == pat@.len(),
            m > 0,
            seg <= i <= n,
            out@ + s@.subrange(seg as int, i as int)
                + remove_all_spec(s@.subrange(i as int, n as int), pat@)
                == remove_all_spec(s@, pat@),
        decreases n - i,
    {
        if m <= n - i && chars_match_at(&sv, &pv, i) {
            let piece: &str = s.substring_char(seg, i);
            out.append(piece);
            proof {
                lemma_remove_all_step(s@, pat@, i as int);
                assert(out@ + s@.subrange((i + m) as int, (i + m) as int)
                    + remove_all_spec(s@.subrange((i + m) as int, n as int), pat@)
                    =~= remove_all_spec(s@, pat@));
            }
            i = i + m;
            seg = i;
        } else {
            proof {
                lemma_remove_all_step(s@, pat@, i as int);
                assert(s@.subrange(seg as int, i as int) + seq![s@[i as int]]
                    =~= s@.subrange(seg as int, i + 1));
                assert(out@ + s@.subrange(seg as int, i + 1)
                    + remove_all_spec(s@.subrange(i + 1, n as int), pat@)
                    =~= remove_all_spec(s@, pat@));
            }
            i = i + 1;
        }
    }
    let piece: &str = s.substring_char(seg, n);
    out.append(piece);
    proof {
        assert(s@.subrange(n as int, n as int) =~= Seq::<char>::empty());
        assert(remove_all_spec(s@.subrange(n as int, n as int), pat@)
            == s@.subrange(n as int, n as int));
        assert(out@ =~= remove_all_spec(s@, pat@));
    }
    out
}

/// The prefix of `s` before the first occurrence of `c`, or all of `s`
/// when `c` does not occur.
pub open spec fn before_char(s: Seq<char>, c: char) -> Seq<char> {
    if exists|i: int| 0 <= i < s.len() && s[i] == c {
        let i = choose|i: int| 0 <= i < s.len() && s[i] == c
            && forall|k: int| 0 <= k < i ==> s[k] != c;
        s.subrange(0, i)
    } else {
        s
    }
}

/// The prefix of `s` before the first occurrence of `c`.
pub fn before_first(s: &str, c: char) -> (r: String)
    ensures
        r@ == before_char(s@, c),
{
    let v: Vec<char> = to_chars(s);
    let n: usize = v.len();
    let mut i: usize = 0;
    while i < n && v[i] != c
        invariant
            v@ == s@,
            n == s@.len(),
            i <= n,
            forall|k: int| 0 <= k < i ==> s@[k] != c,
        decreases n - i,
    {
        i = i + 1;
    }
    let piece: &str = s.substring_char(0, i);
    let r: String = piece.to_owned();
    proof {
        if i < n {
            let w = choose|w: int| 0 <= w < s@.len() && s@[w] == c
                && forall|k: int| 0 <= k < w ==> s@[k] != c;
            assert(s@[i as int] == c);
            assert(w == i);
        } else {
            assert(forall|k: int| 0 <= k < s@.len() ==> s@[k] != c);
            assert(r@ =~= s@);
        }
    }
    r
}

/// Decimal digits of `n`, most significant first.
pub open spec fn dec_spec(n: nat) -> Seq<char>
    decreases n,
{
    if n < 10 {
        seq![digit_char(n)]
    } else {
        dec_spec(n / 10) + seq![digit_char(n % 10)]
    }
}

/// The character for a single decimal digit.
pub open spec fn digit_char(d: nat) -> char {
    if d == 0 { '0' }
    else if d == 1 { '1' }
    else if d == 2 { '2' }
    else if d == 3 { '3' }
    else if d == 4 { '4' }
    else if d == 5 { '5' }
    else if d == 6 { '6' }
    else if d == 7 { '7' }
    else if d == 8 { '8' }
    else { '9' }
}

fn digit_str(d: u64) -> (r: &'static str)
    requires
        d < 10,
    ensures
        r@ == seq![digit_char(d as nat)],
{
    proof {
        reveal_strlit("0");
        reveal_strlit("1");
        reveal_strlit("2");
        reveal_strlit("3");
        reveal_strlit("4");
        reveal_strlit("5");
        reveal_strlit("6");
        reveal_strlit("7");
        reveal_strlit("8");
        reveal_strlit("9");
    }
    if d == 0 { "0" }
    else if d == 1 { "1" }
    else if d == 2 { "2" }
    else if d == 3 { "3" }
    else if d == 4 { "4" }
    else if d == 5 { "5" }
    else if d == 6 { "6" }
    else if d == 7 { "7" }
    else if d == 8 { "8" }
    else { "9" }
}

/// The decimal rendering of `n`.
pub fn u64_to_dec(n: u64) -> (r: String)
    ensures
        r@ == dec_spec(n as nat),
    decreases n,
{
    if n < 10 {
        digit_str(n).to_owned()
    } else {
        let high: String = u64_to_dec(n / 10);
        let low: &str = digit_str(n % 10);
        high.concat(low)
    }
}

/// Lexicographic order on character sequences, by code point.
pub open spec fn lex_lt(a: Seq<char>, b: Seq<char>) -> bool
    decreases a.len(),
{
    if b.len() == 0 {
        false
    } else if a.len() == 0 {
        true
    } else if (a[0] as u32) < (b[0] as u32) {
        true
    } else if (a[0] as u32) > (b[0] as u32) {
        false
    } else {
        lex_lt(a.subrange(1, a.len() as int), b.subrange(1, b.len() as int))
    }
}

/// Whether `a` comes strictly before `b` in lexicographic order.
pub fn str_lex_lt(a: &str, b: &str) -> (r: bool)
    ensures
        r == lex_lt(a@, b@),
{
    let av: Vec<char> = to_chars(a);
    let bv: Vec<char> = to_chars(b);
    let an: usize = av.len();
    let bn: usize = bv.len();
    let mut i: usize = 0;
    proof {
        assert(a@.subrange(0, an as int) =~= a@);
        assert(b@.subrange(0, bn as int) =~= b@);
    }
    loop
        invariant
            av@ == a@,
            bv@ == b@,
            an == a@.len(),
            bn == b@.len(),
            i <= an,
            i <= bn,
            lex_lt(a@, b@) == lex_lt(
                a@.subrange(i as int, an as int),
                b@.subrange(i as int, bn as int),
            ),
        decreases an - i,
    {
        proof {
            assert(a@.subrange(i as int, an as int).len() == an - i);
            assert(b@.subrange(i as int, bn as int).len() == bn - i);
        }
        if i >= bn {
            return false;
        }
        if i >= an {
            return true;
        }
        let ca: u32 = av[i] as u32;
        let cb: u32 = bv[i] as u32;
        proof {
            let sa = a@.subrange(i as int, an as int);
            let sb = b@.subrange(i as int, bn as int);
            assert(sa[0] == a@[i as int]);
            assert(sb[0] == b@[i as int]);
            assert(sa.subrange(1, sa.len() as int) =~= a@.subrange(i + 1, an as int));
            assert(sb.subrange(1, sb.len() as int) =~= b@.subrange(i + 1, bn as int));
        }
        if ca < cb {
            return true;
        }
        if ca > cb {
            return false;
        }
        i = i + 1;
    }
}

} // verus!

verus! {

/// Trimming is idempotent: a trimmed string has no surrounding
/// whitespace left.
pub proof fn lemma_trim_idempotent(s: Seq<char>)
    ensures
        trim_spec(trim_spec(s)) == trim_spec(s),
{
    lemma_leading_spaces_bound(s);
    lemma_trailing_spaces_bound(s);
    let t = trim_spec(s);
    if leading_spaces(s) == s.len() {
        assert(t.len() == 0);
        assert(leading_spaces(t) == 0);
        assert(trim_spec(t) =~= t);
    } else {
        let lead = leading_spaces(s);
        let trail = trailing_spaces(s);
        assert(lead < s.len() - trail) by {
            if lead >= s.len() - trail {
                assert(is_space(s[lead]));
            }
        }
        assert(t == s.subrange(lead, s.len() - trail));
        assert(t.len() > 0);
        assert(t[0] == s[lead]);
        assert(!is_space(t[0]));
        assert(leading_spaces(t) == 0);
        assert(t[t.len() - 1] == s[s.len() - trail - 1]);
        assert(!is_space(t[t.len() - 1])) by {
            if trail < s.len() {
                assert(!is_space(s[s.len() - trail - 1]));
            }
        }
        assert(trailing_spaces(t) == 0);
        assert(trim_spec(t) == t.subrange(0, t.len() as int));
        assert(t.subrange(0, t.len() as int) =~= t);
    }
}

} // verus!
