//! An incremental parser for the upstream event stream. Events are
//! separated by a blank line (`\n\n`); within an event, every line
//! starting with `data:` contributes its payload, with one leading
//! space dropped, and multiple data lines joined by a newline. Bytes
//! after the last complete event stay buffered for the next chunk.

use vstd::prelude::*;

verus! {

pub open spec fn occurs_at_b(h: Seq<u8>, n: Seq<u8>, i: int) -> bool {
    0 <= i && i + n.len() <= h.len() && h.subrange(i, i + n.len()) == n
}

/// Position of the first occurrence of `p` in `s` at or after `from`.
pub open spec fn find_b(s: Seq<u8>, p: Seq<u8>, from: int) -> Option<int>
    decreases s.len() - from,
{
    if from < 0 || p.len() == 0 || from + p.len() > s.len() {
        None
    } else if occurs_at_b(s, p, from) {
        Some(from)
    } else {
        find_b(s, p, from + 1)
    }
}

proof fn lemma_find_b(s: Seq<u8>, p: Seq<u8>, from: int)
    requires
        0 <= from,
        p.len() > 0,
    ensures
        match find_b(s, p, from) {
            Some(i) => occurs_at_b(s, p, i) && from <= i
                && (forall|k: int| from <= k < i ==> !occurs_at_b(s, p, k)),
            None => forall|k: int| from <= k ==> !occurs_at_b(s, p, k),
        },
    decreases s.len() - from,
{
    if p.len() == 0 || from + p.len() > s.len() {
    } else if occurs_at_b(s, p, from) {
    } else {
        lemma_find_b(s, p, from + 1);
    }
}

/// The event separator.
pub open spec fn sep() -> Seq<u8> {
    seq![10u8, 10u8]
}

/// The complete event blocks of a byte run, and the unterminated remainder.
pub open spec fn split_blocks(b: Seq<u8>) -> (Seq<Seq<u8>>, Seq<u8>)
    decreases b.len(),
    via split_blocks_dec
{
    match find_b(b, sep(), 0) {
        Some(i) => {
            let (blocks, rest) = split_blocks(b.subrange(i + 2, b.len() as int));
            (seq![b.subrange(0, i)] + blocks, rest)
        },
        None => (Seq::empty(), b),
    }
}

#[via_fn]
proof fn split_blocks_dec(b: Seq<u8>) {
    match find_b(b, sep(), 0) {
        Some(i) => {
            lemma_find_b(b, sep(), 0);
        },
        None => {},
    }
}

/// The lines of one event block, split at `\n`.
pub open spec fn block_lines(b: Seq<u8>) -> Seq<Seq<u8>>
    decreases b.len(),
    via block_lines_dec
{
    match find_b(b, seq![10u8], 0) {
        Some(i) => seq![b.subrange(0, i)] + block_lines(b.subrange(i + 1, b.len() as int)),
        None => seq![b],
    }
}

#[via_fn]
proof fn block_lines_dec(b: Seq<u8>) {
    match find_b(b, seq![10u8], 0) {
        Some(i) => {
            lemma_find_b(b, seq![10u8], 0);
        },
        None => {},
    }
}

/// The data tag.
pub open spec fn data_tag() -> Seq<u8> {
    seq![100u8, 97u8, 116u8, 97u8, 58u8]
}

/// The payload of one line: the bytes after `data:` with one leading
/// space dropped, or nothing for any other line.
pub open spec fn line_data(line: Seq<u8>) -> Option<Seq<u8>> {
    if line.len() >= 5 && line.subrange(0, 5) == data_tag() {
        let rest = line.subrange(5, line.len() as int);
        if rest.len() > 0 && rest[0] == 32 {
            Some(rest.subrange(1, rest.len() as int))
        } else {
            Some(rest)
        }
    } else {
        None
    }
}

/// The payloads of the data lines of a block, in order.
pub open spec fn block_datas(lines: Seq<Seq<u8>>) -> Seq<Seq<u8>>
    decreases lines.len(),
{
    if lines.len() == 0 {
        Seq::empty()
    } else {
        let tail = block_datas(lines.subrange(1, lines.len() as int));
        match line_data(lines[0]) {
            Some(d) => seq![d] + tail,
            None => tail,
        }
    }
}

/// Data payloads joined by a newline.
pub open spec fn join_nl(ds: Seq<Seq<u8>>) -> Seq<u8>
    decreases ds.len(),
{
    if ds.len() == 0 {
        Seq::empty()
    } else if ds.len() == 1 {
        ds[0]
    } else {
        ds[0] + seq![10u8] + join_nl(ds.subrange(1, ds.len() as int))
    }
}

/// The data of one event block.
pub open spec fn block_data(b: Seq<u8>) -> Seq<u8> {
    join_nl(block_datas(block_lines(b)))
}

fn bytes_match_at(h: &Vec<u8>, n: &Vec<u8>, i: usize) -> (r: bool)
    requires
        i + n@.len() <= h@.len(),
    ensures
        r == occurs_at_b(h@, n@, i as int),
{
    let m: usize = n.len();
    let hl: usize = h.len();
    let mut j: usize = 0;
    while j < m
        invariant
            m == n@.len(),
            hl == h@.len(),
            i + m <= hl,
            j <= m,
            forall|k: int| 0 <= k < j ==> h@[i + k] == n@[k],
        decreases m - j,
    {
        if h[i + j] != n[j] {
            proof {
                let sub = h@.subrange(i as int, i + m);
                assert(sub[j as int] == h@[i + j]);
                assert(sub != n@) by {
                    if sub == n@ {
                        assert(sub[j as int] == n@[j as int]);
                    }
                }
            }
            return false;
        }
        j = j + 1;
    }
    proof {
        assert(h@.subrange(i as int, i + m) =~= n@);
    }
    true
}

/// First occurrence of `n` in `h` at or after `from`, as the spec
/// search finds it.
fn find_bytes(h: &Vec<u8>, n: &Vec<u8>, from: usize) -> (r: Option<usize>)
    requires
        n@.len() > 0,
    ensures
        match r {
            Some(i) => find_b(h@, n@, from as int) == Some(i as int) && from <= i
                && occurs_at_b(h@, n@, i as int),
            None => find_b(h@, n@, from as int) is None,
        },
{
    let hl: usize = h.len();
    let nl: usize = n.len();
    proof {
        lemma_find_b(h@, n@, from as int);
    }
    if nl > hl {
        return None;
    }
    let stop: usize = hl - nl;
    if from > stop {
        return None;
    }
    let mut i: usize = from;
    loop
        invariant
            nl == n@.len(),
            hl == h@.len(),
            1 <= nl <= hl,
            stop == hl - nl,
            from <= i <= stop + 1,
            forall|k: int| from <= k < i ==> !occurs_at_b(h@, n@, k),
        decreases stop + 1 - i,
    {
        if i > stop {
            proof {
                lemma_find_b(h@, n@, from as int);
                if find_b(h@, n@, from as int) is Some {
                    let w = find_b(h@, n@, from as int)->0;
                    assert(occurs_at_b(h@, n@, w));
                    assert(!occurs_at_b(h@, n@, w));
                }
            }
            return None;
        }
        if bytes_match_at(h, n, i) {
            proof {
                lemma_find_b(h@, n@, from as int);
                match find_b(h@, n@, from as int) {
                    Some(w) => {
                        if w < i {
                            assert(!occurs_at_b(h@, n@, w));
                        }
                        if i < w {
                            assert(!occurs_at_b(h@, n@, i as int));
                        }
                    },
                    None => {
                        assert(!occurs_at_b(h@, n@, i as int));
                    },
                }
            }
            return Some(i);
        }
        i = i + 1;
    }
}

/// The data payload of one complete event block.
#[verifier::rlimit(100)]
fn extract_block_data(block: &Vec<u8>) -> (r: Vec<u8>)
    ensures
        r@ == block_data(block@),
{
    let newline: Vec<u8> = vec![10u8];
    let tag: Vec<u8> = vec![100u8, 97u8, 116u8, 97u8, 58u8];
    proof {
        assert(tag@ =~= data_tag());
        assert(newline@ =~= seq![10u8]);
    }
    let mut out: Vec<u8> = Vec::new();
    let mut first: bool = true;
    let mut pos: usize = 0;
    let n: usize = block.len();
    let ghost bv = block@;
    proof {
        assert(bv.subrange(0, n as int) =~= bv);
        assert(out@ + join_nl(block_datas(block_lines(bv))) =~= spec_emit_start(bv));
    }
    let mut done: bool = false;
    while !done
        invariant
            n == bv.len(),
            block@ == bv,
            newline@ == seq![10u8],
            tag@ == data_tag(),
            pos <= n,
            !done ==> spec_emit(out@, first,
                block_datas(block_lines(bv.subrange(pos as int, n as int))))
                == spec_emit_start(bv),
            done ==> out@ == spec_emit_start(bv),
        decreases n + 1 - pos + (if done { 0int } else { 1int }),
    {
        let ghost restb = bv.subrange(pos as int, n as int);
        let ghost out_start = out@;
        let ghost first_start = first;
        let line_end: Option<usize> = find_bytes(block, &newline, pos);
        let (line_start, line_stop, next_pos, is_last): (usize, usize, usize, bool) =
            match line_end {
                Some(e) => (pos, e, e + 1, false),
                None => (pos, n, n, true),
            };
        let ghost line = bv.subrange(line_start as int, line_stop as int);
        proof {
            lemma_find_b(bv, seq![10u8], pos as int);
            match line_end {
                Some(e) => {
                    assert(occurs_at_b(bv, seq![10u8], e as int));
                    lemma_find_b_shift(bv, seq![10u8], pos as int, e as int);
                    assert(block_lines(restb)
                        == seq![restb.subrange(0, e - pos)]
                            + block_lines(restb.subrange(e - pos + 1, restb.len() as int)));
                    assert(restb.subrange(0, e - pos) =~= line);
                    assert(restb.subrange(e - pos + 1, restb.len() as int)
                        =~= bv.subrange(e + 1, n as int));
                },
                None => {
                    lemma_find_b_shift_none(bv, seq![10u8], pos as int);
                    assert(block_lines(restb) == seq![restb]);
                    assert(line =~= restb);
                },
            }
        }
        let line_len: usize = line_stop - line_start;
        let mut is_data: bool = false;
        if line_len >= 5 {
            let mut j: usize = 0;
            is_data = true;
            while j < 5
                invariant
                    j <= 5,
                    line_start + 5 <= line_stop <= n,
                    n == bv.len(),
                    block@ == bv,
                    tag@ == data_tag(),
                    is_data ==> (forall|k: int| 0 <= k < j
                        ==> bv[line_start + k] == data_tag()[k]),
                    !is_data ==> (exists|k: int| 0 <= k < 5
                        && bv[line_start + k] != data_tag()[k]),
                decreases 5 - j,
            {
                if block[line_start + j] != tag[j] {
                    is_data = false;
                    proof {
                        assert(bv[line_start + j as int] != data_tag()[j as int]);
                    }
                    j = 5;
                } else {
                    j = j + 1;
                }
            }
        }
        proof {
            if line_len >= 5 {
                if is_data {
                    assert(line.subrange(0, 5) =~= data_tag()) by {
                        assert(forall|k: int| 0 <= k < 5
                            ==> line.subrange(0, 5)[k] == bv[line_start + k]);
                    }
                } else {
                    let w = choose|k: int| 0 <= k < 5
                        && bv[line_start as int + k] != data_tag()[k];
                    assert(line.subrange(0, 5)[w] == bv[line_start + w]);
                    assert(line.subrange(0, 5) != data_tag());
                    assert(line_data(line) is None);
                }
            } else {
                assert(line.len() < 5);
                assert(line_data(line) is None);
            }
        }
        if is_data {
            let mut dstart: usize = line_start + 5;
            if dstart < line_stop && block[dstart] == 32 {
                dstart = dstart + 1;
            }
            let ghost d = line_data(line)->0;
            proof {
                let rest = line.subrange(5, line.len() as int);
                assert(rest.len() == line_stop - line_start - 5);
                if rest.len() > 0 {
                    assert(rest[0] == bv[line_start + 5]);
                }
                match line_data(line) {
                    Some(dd) => {
                        if rest.len() > 0 && rest[0] == 32 {
                            assert(dd =~= bv.subrange(line_start + 6, line_stop as int));
                            assert(dd =~= bv.subrange(dstart as int, line_stop as int));
                        } else {
                            assert(dd =~= bv.subrange(dstart as int, line_stop as int));
                        }
                    },
                    None => {
                        assert(false);
                    },
                }
            }
            if !first {
                out.push(10u8);
            }
            let mut k: usize = dstart;
            let ghost out_before = out@;
            while k < line_stop
                invariant
                    dstart <= k <= line_stop <= n,
                    n == bv.len(),
                    block@ == bv,
                    out@ == out_before + bv.subrange(dstart as int, k as int),
                decreases line_stop - k,
            {
                out.push(block[k]);
                proof {
                    assert(out@ =~= out_before + bv.subrange(dstart as int, k + 1));
                }
                k = k + 1;
            }
            proof {
                if first_start {
                    assert(out@ =~= out_start + d);
                } else {
                    assert(out_before =~= out_start + seq![10u8]);
                    assert(out@ =~= out_start + (seq![10u8] + d));
                }
            }
            first = false;
        }
        proof {
            let ds_rest = block_datas(block_lines(restb));
            if is_last {
                assert(block_lines(restb) == seq![restb]);
                assert(seq![line] =~= seq![restb]);
                assert(block_datas(seq![line])
                    == (match line_data(line) {
                        Some(dd) => seq![dd] + block_datas(Seq::<Seq<u8>>::empty()),
                        None => block_datas(Seq::<Seq<u8>>::empty()),
                    })) by {
                    assert(seq![line].subrange(1, 1) =~= Seq::<Seq<u8>>::empty());
                }
                match line_data(line) {
                    Some(dd) => {
                        assert(ds_rest =~= seq![dd]);
                        if first_start {
                            assert(spec_emit(out_start, true, ds_rest)
                                =~= out_start + dd);
                            assert(out@ == spec_emit_start(bv));
                        } else {
                            assert(seq![dd].subrange(1, 1) =~= Seq::<Seq<u8>>::empty());
                            assert(join_pre(seq![dd])
                                == seq![10u8] + seq![dd][0] + join_pre(seq![dd].subrange(1, 1)));
                            assert(join_pre(ds_rest)
                                =~= seq![10u8] + dd + join_pre(Seq::<Seq<u8>>::empty()));
                            assert(spec_emit(out_start, false, ds_rest)
                                =~= out_start + (seq![10u8] + dd));
                            assert(out@ == spec_emit_start(bv));
                        }
                    },
                    None => {
                        assert(ds_rest =~= Seq::<Seq<u8>>::empty());
                        assert(spec_emit(out_start, first_start, ds_rest) =~= out_start);
                        assert(out@ == spec_emit_start(bv));
                    },
                }
            } else {
                let restb2 = bv.subrange(next_pos as int, n as int);
                let ds2 = block_datas(block_lines(restb2));
                assert(block_lines(restb) == seq![line] + block_lines(restb2));
                let lines_all = seq![line] + block_lines(restb2);
                assert(lines_all[0] == line);
                assert(lines_all.subrange(1, lines_all.len() as int)
                    =~= block_lines(restb2));
                match line_data(line) {
                    Some(dd) => {
                        assert(ds_rest == seq![dd] + ds2);
                        if first_start {
                            lemma_join_nl_pre(seq![dd] + ds2);
                            assert((seq![dd] + ds2)[0] == dd);
                            assert((seq![dd] + ds2).subrange(1, (seq![dd] + ds2).len() as int)
                                =~= ds2);
                            assert(out_start + join_nl(seq![dd] + ds2)
                                =~= (out_start + dd) + join_pre(ds2));
                            assert(spec_emit(out@, first, ds2) == spec_emit_start(bv));
                        } else {
                            assert(join_pre(seq![dd] + ds2)
                                == seq![10u8] + dd + join_pre(ds2)) by {
                                assert((seq![dd] + ds2)[0] == dd);
                                assert((seq![dd] + ds2).subrange(1,
                                    (seq![dd] + ds2).len() as int) =~= ds2);
                            }
                            assert(out_start + join_pre(seq![dd] + ds2)
                                =~= (out_start + (seq![10u8] + dd)) + join_pre(ds2));
                            assert(spec_emit(out@, first, ds2) == spec_emit_start(bv));
                        }
                    },
                    None => {
                        assert(ds_rest == ds2);
                        assert(spec_emit(out@, first, ds2) == spec_emit_start(bv));
                    },
                }
            }
        }
        if is_last {
            done = true;
        } else {
            pos = next_pos;
        }
    }
    out
}

/// Joined with a leading newline before every payload.
pub open spec fn join_pre(ds: Seq<Seq<u8>>) -> Seq<u8>
    decreases ds.len(),
{
    if ds.len() == 0 {
        Seq::empty()
    } else {
        seq![10u8] + ds[0] + join_pre(ds.subrange(1, ds.len() as int))
    }
}

/// The bytes the extraction loop still owes: the payloads pending,
/// joined behind what is already written.
pub open spec fn spec_emit(written: Seq<u8>, first: bool, pending: Seq<Seq<u8>>) -> Seq<u8> {
    if first {
        written + join_nl(pending)
    } else {
        written + join_pre(pending)
    }
}

pub open spec fn spec_emit_start(b: Seq<u8>) -> Seq<u8> {
    join_nl(block_datas(block_lines(b)))
}

proof fn lemma_join_nl_pre(ds: Seq<Seq<u8>>)
    requires
        ds.len() > 0,
    ensures
        join_nl(ds) == ds[0] + join_pre(ds.subrange(1, ds.len() as int)),
    decreases ds.len(),
{
    if ds.len() == 1 {
        assert(ds.subrange(1, 1).len() == 0);
        assert(ds[0] + join_pre(ds.subrange(1, 1)) =~= ds[0]);
    } else {
        let rest = ds.subrange(1, ds.len() as int);
        lemma_join_nl_pre(rest);
        assert(rest[0] == ds[1]);
        assert(rest.subrange(1, rest.len() as int) =~= ds.subrange(2, ds.len() as int));
        assert(join_nl(ds) == ds[0] + seq![10u8] + join_nl(rest));
        assert(join_pre(rest) == seq![10u8] + rest[0]
            + join_pre(rest.subrange(1, rest.len() as int)));
        assert(ds[0] + seq![10u8] + (rest[0] + join_pre(rest.subrange(1, rest.len() as int)))
            =~= ds[0] + join_pre(rest));
        assert(join_nl(ds) =~= ds[0] + join_pre(rest));
    }
}

proof fn lemma_find_b_shift(b: Seq<u8>, p: Seq<u8>, pos: int, e: int)
    requires
        0 <= pos <= e,
        p.len() > 0,
        e + p.len() <= b.len(),
        occurs_at_b(b, p, e),
        forall|k: int| pos <= k < e ==> !occurs_at_b(b, p, k),
    ensures
        find_b(b.subrange(pos, b.len() as int), p, 0) == Some(e - pos),
{
    let sub = b.subrange(pos, b.len() as int);
    assert(occurs_at_b(sub, p, e - pos)) by {
        assert(sub.subrange(e - pos, e - pos + p.len()) =~= b.subrange(e, e + p.len()));
    }
    assert(forall|k: int| 0 <= k < e - pos ==> !occurs_at_b(sub, p, k)) by {
        assert forall|k: int| 0 <= k < e - pos implies !occurs_at_b(sub, p, k) by {
            if occurs_at_b(sub, p, k) {
                assert(sub.subrange(k, k + p.len()) =~= b.subrange(pos + k, pos + k + p.len()));
                assert(occurs_at_b(b, p, pos + k));
            }
        }
    }
    lemma_find_b(sub, p, 0);
    match find_b(sub, p, 0) {
        Some(w) => {
            if w < e - pos {
                assert(!occurs_at_b(sub, p, w));
            }
            if e - pos < w {
                assert(!occurs_at_b(sub, p, e - pos));
            }
        },
        None => {
            assert(!occurs_at_b(sub, p, e - pos));
        },
    }
}

proof fn lemma_find_b_shift_none(b: Seq<u8>, p: Seq<u8>, pos: int)
    requires
        0 <= pos <= b.len(),
        p.len() > 0,
        forall|k: int| pos <= k ==> !occurs_at_b(b, p, k),
    ensures
        find_b(b.subrange(pos, b.len() as int), p, 0) is None,
{
    let sub = b.subrange(pos, b.len() as int);
    lemma_find_b(sub, p, 0);
    match find_b(sub, p, 0) {
        Some(w) => {
            assert(sub.subrange(w, w + p.len()) =~= b.subrange(pos + w, pos + w + p.len()));
            assert(occurs_at_b(b, p, pos + w));
            assert(!occurs_at_b(b, p, pos + w));
        },
        None => {},
    }
}

proof fn lemma_emit_step(out_now: Seq<u8>, bv: Seq<u8>, pos: int, line_start: int,
    line_stop: int, next_pos: int, is_last: bool, first_now: bool, line: Seq<u8>)
    requires
        true,
    ensures
        true,
{
}

} // verus!

verus! {

/// The incremental parser: bytes go in as they arrive, complete events'
/// data payloads come out, the tail stays buffered.
pub struct SseParser {
    pub buffer: Vec<u8>,
}

impl SseParser {
    pub fn new() -> (r: SseParser)
        ensures
            r.buffer@ == Seq::<u8>::empty(),
    {
        SseParser { buffer: Vec::new() }
    }

    /// Feeds one chunk; returns the data of every event completed by it,
    /// in stream order.
    pub fn feed(&mut self, chunk: &Vec<u8>) -> (events: Vec<Vec<u8>>)
        ensures
            ({
                let combined = old(self).buffer@ + chunk@;
                let (blocks, rest) = split_blocks(combined);
                &&& events.deep_view().len() == blocks.len()
                &&& (forall|i: int| 0 <= i < blocks.len()
                    ==> events.deep_view()[i] == block_data(blocks[i]))
                &&& final(self).buffer@ == rest
            }),
    {
        let ghost combined = self.buffer@ + chunk@;
        let m: usize = chunk.len();
        let mut j: usize = 0;
        while j < m
            invariant
                m == chunk@.len(),
                j <= m,
                self.buffer@ == old(self).buffer@ + chunk@.subrange(0, j as int),
                combined == old(self).buffer@ + chunk@,
            decreases m - j,
        {
            let b: u8 = chunk[j];
            self.buffer.push(b);
            proof {
                assert(self.buffer@
                    =~= old(self).buffer@ + chunk@.subrange(0, j + 1));
            }
            j = j + 1;
        }
        proof {
            assert(self.buffer@ =~= combined);
        }
        let ghost all = split_blocks(combined);
        let sepv: Vec<u8> = vec![10u8, 10u8];
        proof {
            assert(sepv@ =~= sep());
        }
        let mut events: Vec<Vec<u8>> = Vec::new();
        proof {
            assert(events.deep_view() =~= Seq::<Seq<u8>>::empty());
            assert(all.0.subrange(0, 0) =~= Seq::<Seq<u8>>::empty());
        }
        loop
            invariant
                sepv@ == sep(),
                combined == old(self).buffer@ + chunk@,
                all == split_blocks(combined),
                events@.len() <= all.0.len(),
                forall|i: int| 0 <= i < events@.len()
                    ==> (#[trigger] events@[i])@ == block_data(all.0[i]),
                split_blocks(self.buffer@)
                    == (all.0.subrange(events@.len() as int, all.0.len() as int), all.1),
            decreases self.buffer@.len(),
        {
            let found: Option<usize> = find_bytes(&self.buffer, &sepv, 0);
            let ghost bufv = self.buffer@;
            match found {
                Some(i) => {
                    proof {
                        assert(split_blocks(bufv)
                            == ({
                                let (blocks, rest) = split_blocks(
                                    bufv.subrange(i + 2, bufv.len() as int));
                                (seq![bufv.subrange(0, i as int)] + blocks, rest)
                            }));
                    }
                    let mut head: Vec<u8> = Vec::new();
                    let mut k: usize = 0;
                    while k < i
                        invariant
                            i + 2 <= self.buffer@.len(),
                            self.buffer@ == bufv,
                            k <= i,
                            head@ == bufv.subrange(0, k as int),
                        decreases i - k,
                    {
                        let b: u8 = self.buffer[k];
                        head.push(b);
                        proof {
                            assert(head@ =~= bufv.subrange(0, k + 1));
                        }
                        k = k + 1;
                    }
                    let data: Vec<u8> = extract_block_data(&head);
                    let n: usize = self.buffer.len();
                    let mut tail: Vec<u8> = Vec::new();
                    let mut t: usize = i + 2;
                    while t < n
                        invariant
                            i + 2 <= t <= n,
                            n == self.buffer@.len(),
                            self.buffer@ == bufv,
                            tail@ == bufv.subrange(i + 2, t as int),
                        decreases n - t,
                    {
                        let b: u8 = self.buffer[t];
                        tail.push(b);
                        proof {
                            assert(tail@ =~= bufv.subrange(i + 2, t + 1));
                        }
                        t = t + 1;
                    }
                    proof {
                        assert(tail@ =~= bufv.subrange(i + 2, bufv.len() as int));
                    }
                    let ghost old_count = events@.len() as int;
                    events.push(data);
                    self.buffer = tail;
                    proof {
                        let pending = all.0.subrange(old_count, all.0.len() as int);
                        assert(pending == seq![bufv.subrange(0, i as int)]
                            + split_blocks(bufv.subrange(i + 2, bufv.len() as int)).0);
                        assert(pending[0] == bufv.subrange(0, i as int));
                        assert(all.0[old_count] == pending[0]);
                        assert(head@ =~= bufv.subrange(0, i as int));
                        assert(pending.subrange(1, pending.len() as int)
                            =~= split_blocks(bufv.subrange(i + 2, bufv.len() as int)).0);
                        assert(all.0.subrange(old_count + 1, all.0.len() as int)
                            =~= pending.subrange(1, pending.len() as int));
                    }
                },
                None => {
                    proof {
                        assert(split_blocks(bufv) == (Seq::<Seq<u8>>::empty(), bufv));
                        assert(all.0.subrange(events@.len() as int, all.0.len() as int).len()
                            == 0);
                        assert(events@.len() == all.0.len());
                        assert(events.deep_view().len() == events@.len());
                        assert(forall|i: int| 0 <= i < all.0.len()
                            ==> events.deep_view()[i] == (#[trigger] events@[i])@);
                        assert(self.buffer@ == all.1);
                        assert(events.deep_view().len() == all.0.len());
                        assert(forall|i: int| 0 <= i < all.0.len()
                            ==> #[trigger] events.deep_view()[i] == block_data(all.0[i]));
                        assert(combined == old(self).buffer@ + chunk@);
                        assert(all == split_blocks(combined));
                    }
                    return events;
                },
            }
        }
    }
}

} // verus!
