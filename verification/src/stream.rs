//! The stream accumulator: rebuilding one non-streaming-shaped response
//! body from the chunks of a live event stream, so that streamed and
//! non-streamed requests produce comparable telemetry records.
//!
//! The accumulator concatenates content and reasoning deltas, keeps the
//! last role seen, and merges tool calls by their `index`: `id`, `type`
//! and `function.name` are kept from their first arrival, while
//! `function.arguments` fragments are concatenated in arrival order.
//! `usage` and `finish_reason` are taken from whichever chunk carries
//! them last.

use vstd::prelude::*;
use crate::json::{Json, JsonV, jget, jstr, ju64, jset, jremove, jtext, lemma_arr_view};

verus! {

/// The string member `key` of `d`, when `d` is an object holding a
/// string there.
pub open spec fn str_field(d: JsonV, key: Seq<char>) -> Option<Seq<char>> {
    match jget(d, key) {
        Some(v) => jstr(v),
        None => None,
    }
}

pub open spec fn str_or_empty(o: Option<Seq<char>>) -> Seq<char> {
    match o {
        Some(s) => s,
        None => Seq::empty(),
    }
}

/// One tool call under reconstruction, identified by its `index`.
pub struct ToolCallAcc {
    pub index: u64,
    pub id: Option<String>,
    pub call_type: Option<String>,
    pub name: Option<String>,
    pub arguments: String,
}

pub struct ToolCallAccV {
    pub index: u64,
    pub id: Option<Seq<char>>,
    pub call_type: Option<Seq<char>>,
    pub name: Option<Seq<char>>,
    pub arguments: Seq<char>,
}

impl DeepView for ToolCallAcc {
    type V = ToolCallAccV;

    open spec fn deep_view(&self) -> ToolCallAccV {
        ToolCallAccV {
            index: self.index,
            id: self.id.deep_view(),
            call_type: self.call_type.deep_view(),
            name: self.name.deep_view(),
            arguments: self.arguments@,
        }
    }
}

/// The reconstructed assistant message.
pub struct StreamAccumulator {
    pub content: String,
    pub reasoning_content: String,
    pub role: String,
    pub tool_calls: Vec<ToolCallAcc>,
}

pub struct StreamAccumulatorV {
    pub content: Seq<char>,
    pub reasoning_content: Seq<char>,
    pub role: Seq<char>,
    pub tool_calls: Seq<ToolCallAccV>,
}

impl DeepView for StreamAccumulator {
    type V = StreamAccumulatorV;

    open spec fn deep_view(&self) -> StreamAccumulatorV {
        StreamAccumulatorV {
            content: self.content@,
            reasoning_content: self.reasoning_content@,
            role: self.role@,
            tool_calls: self.tool_calls.deep_view(),
        }
    }
}

/// The `index` of one tool-call fragment.
pub open spec fn tc_index(tc: JsonV) -> Option<u64> {
    match jget(tc, "index"@) {
        Some(v) => ju64(v),
        None => None,
    }
}

/// A fresh entry for `index`, before any fragment is merged.
pub open spec fn blank_tc(idx: u64) -> ToolCallAccV {
    ToolCallAccV { index: idx, id: None, call_type: None, name: None, arguments: Seq::empty() }
}

/// One fragment merged into the entry of its index: `id`, `type` and
/// `function.name` are kept once set; `function.arguments` fragments are
/// concatenated.
pub open spec fn merge_tc(e: ToolCallAccV, tc: JsonV) -> ToolCallAccV {
    let id = if e.id is None { str_field(tc, "id"@) } else { e.id };
    let call_type = if e.call_type is None { str_field(tc, "type"@) } else { e.call_type };
    let (name, arguments) = match jget(tc, "function"@) {
        Some(f) => (
            if e.name is None { str_field(f, "name"@) } else { e.name },
            e.arguments + str_or_empty(str_field(f, "arguments"@)),
        ),
        None => (e.name, e.arguments),
    };
    ToolCallAccV { index: e.index, id, call_type, name, arguments }
}

/// Where a new entry for `idx` is inserted to keep the entries ordered
/// by index.
pub open spec fn insert_pos(calls: Seq<ToolCallAccV>, idx: u64) -> int
    decreases calls.len(),
{
    if calls.len() == 0 {
        0
    } else if calls[0].index < idx {
        1 + insert_pos(calls.subrange(1, calls.len() as int), idx)
    } else {
        0
    }
}

/// One tool-call fragment applied to the entries: merged into the entry
/// of its index, or opening a new entry in index order; a fragment
/// without a usable index is ignored.
pub open spec fn apply_tc(calls: Seq<ToolCallAccV>, tc: JsonV) -> Seq<ToolCallAccV> {
    match tc_index(tc) {
        Some(idx) => if exists|p: int| 0 <= p < calls.len() && calls[p].index == idx {
            let p = choose|p: int| 0 <= p < calls.len() && calls[p].index == idx;
            calls.update(p, merge_tc(calls[p], tc))
        } else {
            let pos = insert_pos(calls, idx);
            calls.subrange(0, pos) + seq![merge_tc(blank_tc(idx), tc)]
                + calls.subrange(pos, calls.len() as int)
        },
        None => calls,
    }
}

pub open spec fn apply_tcs(calls: Seq<ToolCallAccV>, tcs: Seq<JsonV>) -> Seq<ToolCallAccV>
    decreases tcs.len(),
{
    if tcs.len() == 0 {
        calls
    } else {
        apply_tcs(apply_tc(calls, tcs[0]), tcs.subrange(1, tcs.len() as int))
    }
}

/// Entries are strictly ordered by index, so each index appears once.
pub open spec fn tc_sorted(calls: Seq<ToolCallAccV>) -> bool {
    forall|p: int, q: int| 0 <= p < q < calls.len()
        ==> calls[p].index < calls[q].index
}

/// One stream chunk's delta folded into the accumulator.
pub open spec fn spec_update(a: StreamAccumulatorV, delta: JsonV) -> StreamAccumulatorV {
    StreamAccumulatorV {
        role: match str_field(delta, "role"@) {
            Some(r) => r,
            None => a.role,
        },
        content: a.content + str_or_empty(str_field(delta, "content"@)),
        reasoning_content: a.reasoning_content
            + str_or_empty(str_field(delta, "reasoning_content"@)),
        tool_calls: match jget(delta, "tool_calls"@) {
            Some(JsonV::Arr(tcs)) => apply_tcs(a.tool_calls, tcs),
            _ => a.tool_calls,
        },
    }
}

impl StreamAccumulator {
    /// An empty accumulator; the role starts as `assistant`.
    pub fn new() -> (r: StreamAccumulator)
        ensures
            r.deep_view().content == Seq::<char>::empty(),
            r.deep_view().reasoning_content == Seq::<char>::empty(),
            r.deep_view().role == "assistant"@,
            r.deep_view().tool_calls == Seq::<ToolCallAccV>::empty(),
            tc_sorted(r.deep_view().tool_calls),
    {
        let r = StreamAccumulator {
            content: String::new(),
            reasoning_content: String::new(),
            role: String::from_str("assistant"),
            tool_calls: Vec::new(),
        };
        proof {
            assert(r.deep_view().tool_calls =~= Seq::<ToolCallAccV>::empty());
        }
        r
    }

    /// Folds one chunk's delta into the accumulator.
    pub fn update(&mut self, delta: &Json)
        requires
            tc_sorted(old(self).deep_view().tool_calls),
        ensures
            final(self).deep_view() == spec_update(old(self).deep_view(), delta.deep_view()),
            tc_sorted(final(self).deep_view().tool_calls),
    {
        let ghost dv = delta.deep_view();
        match delta.get("role") {
            Some(r) => match r.as_str() {
                Some(s) => {
                    self.role = s.clone();
                },
                None => {},
            },
            None => {},
        }
        match delta.get("content") {
            Some(c) => match c.as_str() {
                Some(s) => {
                    self.content.append(s.as_str());
                },
                None => {},
            },
            None => {},
        }
        match delta.get("reasoning_content") {
            Some(c) => match c.as_str() {
                Some(s) => {
                    self.reasoning_content.append(s.as_str());
                },
                None => {},
            },
            None => {},
        }
        match delta.get("tool_calls") {
            Some(tcs) => match tcs.as_arr() {
                Some(items) => {
                    let ghost role_now = self.role@;
                    let ghost content_now = self.content@;
                    let ghost reasoning_now = self.reasoning_content@;
                    let n: usize = items.len();
                    let mut i: usize = 0;
                    proof {
                        lemma_arr_view(items@);
                        assert(items.deep_view().subrange(0, n as int) =~= items.deep_view());
                        assert(apply_tcs(self.tool_calls.deep_view(),
                            items.deep_view().subrange(n as int, n as int))
                            == self.tool_calls.deep_view());
                    }
                    while i < n
                        invariant
                            n == items@.len(),
                            n == items.deep_view().len(),
                            i <= n,
                            self.role@ == role_now,
                            self.content@ == content_now,
                            self.reasoning_content@ == reasoning_now,
                            tc_sorted(self.tool_calls.deep_view()),
                            apply_tcs(self.tool_calls.deep_view(),
                                items.deep_view().subrange(i as int, n as int))
                                == apply_tcs(old(self).tool_calls.deep_view(),
                                    items.deep_view()),
                        decreases n - i,
                    {
                        let ghost rest = items.deep_view().subrange(i as int, n as int);
                        proof {
                            assert(rest[0] == items.deep_view()[i as int]);
                            assert(rest.subrange(1, rest.len() as int)
                                =~= items.deep_view().subrange(i + 1, n as int));
                        }
                        apply_tool_call(&mut self.tool_calls, &items[i]);
                        proof {
                            lemma_arr_view(items@);
                            assert(items@[i as int].deep_view()
                                == items.deep_view()[i as int]);
                        }
                        i = i + 1;
                    }
                },
                None => {},
            },
            None => {},
        }
        proof {
            match jget(dv, "tool_calls"@) {
                Some(v) => {
                    if !(v is Arr) {
                        assert(self.tool_calls.deep_view()
                            == old(self).tool_calls.deep_view());
                    }
                },
                None => {},
            }
            assert(self.content@
                =~= old(self).content@ + str_or_empty(str_field(dv, "content"@)));
            assert(self.reasoning_content@
                =~= old(self).reasoning_content@
                    + str_or_empty(str_field(dv, "reasoning_content"@)));
        }
    }
}

/// Merges one tool-call fragment into the entries, by its index.
fn apply_tool_call(calls: &mut Vec<ToolCallAcc>, tc: &Json)
    requires
        tc_sorted(old(calls).deep_view()),
    ensures
        final(calls).deep_view() == apply_tc(old(calls).deep_view(), tc.deep_view()),
        tc_sorted(final(calls).deep_view()),
{
    let ghost tcv = tc.deep_view();
    let idx_opt: Option<u64> = match tc.get("index") {
        Some(v) => v.as_u64(),
        None => None,
    };
    let idx: u64 = match idx_opt {
        Some(idx) => idx,
        None => {
            return ;
        },
    };
    let n: usize = calls.len();
    let mut i: usize = 0;
    while i < n
        invariant
            n == calls@.len(),
            calls.deep_view() == old(calls).deep_view(),
            tc_sorted(calls.deep_view()),
            tcv == tc.deep_view(),
            tc_index(tcv) == Some(idx),
            i <= n,
            forall|k: int| 0 <= k < i ==> calls.deep_view()[k].index < idx,
        decreases n - i,
    {
        let entry_index: u64 = calls[i].index;
        if entry_index == idx {
            let ghost p = i as int;
            let merged: ToolCallAcc = merge_tool_call_entry(&calls[i], tc);
            calls[i] = merged;
            proof {
                let before = old(calls).deep_view();
                let q = choose|q: int| 0 <= q < before.len() && before[q].index == idx;
                assert(before[p].index == idx);
                if q != p {
                    assert(before[q].index == before[p].index);
                    if q < p {
                        assert(before[q].index < before[p].index);
                    } else {
                        assert(before[p].index < before[q].index);
                    }
                }
                assert(q == p);
                assert(calls.deep_view() =~= before.update(p, merge_tc(before[p], tcv)));
            }
            return ;
        }
        if entry_index > idx {
            let fresh: ToolCallAcc = merge_tool_call_entry(
                &ToolCallAcc {
                    index: idx,
                    id: None,
                    call_type: None,
                    name: None,
                    arguments: String::new(),
                },
                tc,
            );
            let ghost before = calls.deep_view();
            calls.insert(i, fresh);
            proof {
                lemma_insert_pos_here(before, idx, i as int);
                assert(!exists|p: int| 0 <= p < before.len() && before[p].index == idx) by {
                    if exists|p: int| 0 <= p < before.len() && before[p].index == idx {
                        let p = choose|p: int| 0 <= p < before.len() && before[p].index == idx;
                        if p < i {
                            assert(before[p].index < idx);
                        }
                        if p >= i {
                            assert(before[i as int].index <= before[p].index);
                        }
                    }
                }
                let fv = ToolCallAccV {
                    index: idx, id: None, call_type: None, name: None,
                    arguments: Seq::empty(),
                };
                assert(fv == blank_tc(idx));
                assert(calls.deep_view()
                    =~= before.subrange(0, i as int) + seq![merge_tc(blank_tc(idx), tcv)]
                        + before.subrange(i as int, before.len() as int));
                assert(merge_tc(blank_tc(idx), tcv).index == idx);
            }
            return ;
        }
        i = i + 1;
    }
    let fresh: ToolCallAcc = merge_tool_call_entry(
        &ToolCallAcc {
            index: idx,
            id: None,
            call_type: None,
            name: None,
            arguments: String::new(),
        },
        tc,
    );
    let ghost before = calls.deep_view();
    calls.push(fresh);
    proof {
        lemma_insert_pos_end(before, idx);
        assert(!exists|p: int| 0 <= p < before.len() && before[p].index == idx);
        assert(calls.deep_view()
            =~= before.subrange(0, before.len() as int) + seq![merge_tc(blank_tc(idx), tcv)]
                + before.subrange(before.len() as int, before.len() as int));
        assert(before.subrange(0, before.len() as int) + seq![merge_tc(blank_tc(idx), tcv)]
            + before.subrange(before.len() as int, before.len() as int)
            =~= before.push(merge_tc(blank_tc(idx), tcv)));
        assert(merge_tc(blank_tc(idx), tcv).index == idx);
    }
}

proof fn lemma_insert_pos_here(calls: Seq<ToolCallAccV>, idx: u64, i: int)
    requires
        0 <= i <= calls.len(),
        forall|k: int| 0 <= k < i ==> calls[k].index < idx,
        i < calls.len() ==> calls[i].index > idx,
    ensures
        insert_pos(calls, idx) == i,
    decreases i,
{
    if i == 0 {
    } else {
        let rest = calls.subrange(1, calls.len() as int);
        assert(calls[0].index < idx);
        assert(forall|k: int| 0 <= k < i - 1 ==> rest[k] == calls[k + 1]
            && #[trigger] rest[k].index < idx);
        if i - 1 < rest.len() {
            assert(rest[i - 1] == calls[i]);
        }
        lemma_insert_pos_here(rest, idx, i - 1);
    }
}

proof fn lemma_insert_pos_end(calls: Seq<ToolCallAccV>, idx: u64)
    requires
        forall|k: int| 0 <= k < calls.len() ==> calls[k].index < idx,
    ensures
        insert_pos(calls, idx) == calls.len(),
    decreases calls.len(),
{
    lemma_insert_pos_here(calls, idx, calls.len() as int);
}

/// One fragment merged into one entry.
fn merge_tool_call_entry(e: &ToolCallAcc, tc: &Json) -> (r: ToolCallAcc)
    ensures
        r.deep_view() == merge_tc(e.deep_view(), tc.deep_view()),
{
    let id: Option<String> = match &e.id {
        Some(s) => Some(s.clone()),
        None => match tc.get("id") {
            Some(v) => match v.as_str() {
                Some(s) => Some(s.clone()),
                None => None,
            },
            None => None,
        },
    };
    let call_type: Option<String> = match &e.call_type {
        Some(s) => Some(s.clone()),
        None => match tc.get("type") {
            Some(v) => match v.as_str() {
                Some(s) => Some(s.clone()),
                None => None,
            },
            None => None,
        },
    };
    let mut name: Option<String> = match &e.name {
        Some(s) => Some(s.clone()),
        None => None,
    };
    let mut arguments: String = e.arguments.clone();
    match tc.get("function") {
        Some(f) => {
            if name.is_none() {
                name = match f.get("name") {
                    Some(v) => match v.as_str() {
                        Some(s) => Some(s.clone()),
                        None => None,
                    },
                    None => None,
                };
            }
            match f.get("arguments") {
                Some(v) => match v.as_str() {
                    Some(s) => {
                        arguments.append(s.as_str());
                    },
                    None => {},
                },
                None => {},
            }
        },
        None => {},
    }
    ToolCallAcc { index: e.index, id, call_type, name, arguments }
}

} // verus!

verus! {

/// `Str` for a present string, `Null` for an absent one.
pub open spec fn opt_str(o: Option<Seq<char>>) -> JsonV {
    match o {
        Some(s) => JsonV::Str(s),
        None => JsonV::Null,
    }
}

/// The synthesized member for one reconstructed tool call.
pub open spec fn tc_json(e: ToolCallAccV) -> JsonV {
    JsonV::Obj(seq![
        ("id"@, opt_str(e.id)),
        ("type"@, match e.call_type {
            Some(t) => JsonV::Str(t),
            None => JsonV::Str("function"@),
        }),
        ("function"@, JsonV::Obj(seq![
            ("name"@, opt_str(e.name)),
            ("arguments"@, JsonV::Str(e.arguments)),
        ])),
    ])
}

/// The reconstructed assistant message: role always, content and
/// reasoning only when non-empty, tool calls in index order when any
/// arrived.
pub open spec fn spec_message_json(a: StreamAccumulatorV) -> JsonV {
    let m0 = seq![("role"@, JsonV::Str(a.role))];
    let m1 = if a.content.len() > 0 {
        m0.push(("content"@, JsonV::Str(a.content)))
    } else {
        m0
    };
    let m2 = if a.reasoning_content.len() > 0 {
        m1.push(("reasoning_content"@, JsonV::Str(a.reasoning_content)))
    } else {
        m1
    };
    if a.tool_calls.len() > 0 {
        JsonV::Obj(m2.push(("tool_calls"@,
            JsonV::Arr(Seq::new(a.tool_calls.len(), |i: int| tc_json(a.tool_calls[i]))))))
    } else {
        JsonV::Obj(m2)
    }
}

fn opt_string_json(o: &Option<String>) -> (r: Json)
    ensures
        r.deep_view() == opt_str(o.deep_view()),
{
    match o {
        Some(s) => Json::Text(s.clone()),
        None => Json::Null,
    }
}

impl StreamAccumulator {
    /// The reconstructed assistant message, in the non-streaming shape.
    pub fn to_message_json(&self) -> (r: Json)
        ensures
            r.deep_view() == spec_message_json(self.deep_view()),
    {
        let ghost av = self.deep_view();
        let mut pairs: Vec<(String, Json)> = Vec::new();
        pairs.push((String::from_str("role"), Json::Text(self.role.clone())));
        if self.content.as_str().unicode_len() > 0 {
            pairs.push((String::from_str("content"), Json::Text(self.content.clone())));
        }
        if self.reasoning_content.as_str().unicode_len() > 0 {
            pairs.push((String::from_str("reasoning_content"),
                Json::Text(self.reasoning_content.clone())));
        }
        if self.tool_calls.len() > 0 {
            let n: usize = self.tool_calls.len();
            let mut arr: Vec<Json> = Vec::new();
            let mut i: usize = 0;
            while i < n
                invariant
                    n == self.tool_calls@.len(),
                    av == self.deep_view(),
                    i <= n,
                    arr@.len() == i,
                    forall|k: int| 0 <= k < i
                        ==> #[trigger] arr@[k].deep_view()
                            == tc_json(self.deep_view().tool_calls[k]),
                decreases n - i,
            {
                let e: &ToolCallAcc = &self.tool_calls[i];
                let type_json: Json = match &e.call_type {
                    Some(t) => Json::Text(t.clone()),
                    None => crate::json::jtext("function"),
                };
                let mut fpairs: Vec<(String, Json)> = Vec::new();
                fpairs.push((String::from_str("name"), opt_string_json(&e.name)));
                fpairs.push((String::from_str("arguments"), Json::Text(e.arguments.clone())));
                let func: Json = Json::Obj(fpairs);
                let mut epairs: Vec<(String, Json)> = Vec::new();
                epairs.push((String::from_str("id"), opt_string_json(&e.id)));
                epairs.push((String::from_str("type"), type_json));
                epairs.push((String::from_str("function"), func));
                let entry: Json = Json::Obj(epairs);
                proof {
                    crate::json::lemma_obj_view(func->Obj_0@);
                    crate::json::lemma_obj_view(entry->Obj_0@);
                    assert(func.deep_view()->Obj_0 =~= seq![
                        ("name"@, opt_str(av.tool_calls[i as int].name)),
                        ("arguments"@, JsonV::Str(av.tool_calls[i as int].arguments)),
                    ]);
                    assert(entry.deep_view()->Obj_0 =~= tc_json(av.tool_calls[i as int])->Obj_0);
                    assert(entry.deep_view() == tc_json(av.tool_calls[i as int]));
                }
                arr.push(entry);
                i = i + 1;
            }
            let items: Json = Json::Arr(arr);
            pairs.push((String::from_str("tool_calls"), items));
        }
        let r: Json = Json::Obj(pairs);
        proof {
            crate::json::lemma_obj_view(r->Obj_0@);
            if av.tool_calls.len() > 0 {
                let items_j = r->Obj_0@[r->Obj_0@.len() - 1].1;
                lemma_arr_view(items_j->Arr_0@);
                assert(items_j.deep_view()->Arr_0
                    =~= Seq::new(av.tool_calls.len(), |k: int| tc_json(av.tool_calls[k])));
            }
            assert(r.deep_view()->Obj_0 =~= spec_message_json(av)->Obj_0);
        }
        r
    }
}

/// The per-stream logging state: the accumulator plus the first and last
/// chunks and the last-seen `usage` and `finish_reason`.
pub struct StreamLog {
    pub acc: StreamAccumulator,
    pub first: Option<Json>,
    pub last: Option<Json>,
    pub usage: Option<Json>,
    pub finish: Option<String>,
    pub is_chat: bool,
}

pub struct StreamLogV {
    pub acc: StreamAccumulatorV,
    pub first: Option<JsonV>,
    pub last: Option<JsonV>,
    pub usage: Option<JsonV>,
    pub finish: Option<Seq<char>>,
    pub is_chat: bool,
}

impl DeepView for StreamLog {
    type V = StreamLogV;

    open spec fn deep_view(&self) -> StreamLogV {
        StreamLogV {
            acc: self.acc.deep_view(),
            first: self.first.deep_view(),
            last: self.last.deep_view(),
            usage: self.usage.deep_view(),
            finish: self.finish.deep_view(),
            is_chat: self.is_chat,
        }
    }
}

/// The first choice of a chunk, when there is one.
pub open spec fn choice0(v: JsonV) -> Option<JsonV> {
    match jget(v, "choices"@) {
        Some(JsonV::Arr(cs)) => if cs.len() > 0 {
            Some(cs[0])
        } else {
            None
        },
        _ => None,
    }
}

/// One chunk folded into the logging state.
pub open spec fn spec_push(s: StreamLogV, chunk: JsonV) -> StreamLogV {
    let first = if s.first is None {
        Some(chunk)
    } else {
        s.first
    };
    let usage = match jget(chunk, "usage"@) {
        Some(u) => Some(u),
        None => s.usage,
    };
    let (finish, acc) = match choice0(chunk) {
        Some(c0) => (
            match str_field(c0, "finish_reason"@) {
                Some(f) => Some(f),
                None => s.finish,
            },
            if s.is_chat {
                match jget(c0, "delta"@) {
                    Some(d) => spec_update(s.acc, d),
                    None => s.acc,
                }
            } else {
                match str_field(c0, "text"@) {
                    Some(t) => StreamAccumulatorV { content: s.acc.content + t, ..s.acc },
                    None => s.acc,
                }
            },
        ),
        None => (s.finish, s.acc),
    };
    StreamLogV { acc, first, last: Some(chunk), usage, finish, ..s }
}

impl StreamLog {
    /// A fresh logging state for one stream.
    pub fn new(is_chat: bool) -> (r: StreamLog)
        ensures
            r.deep_view().acc.content == Seq::<char>::empty(),
            r.deep_view().acc.role == "assistant"@,
            r.deep_view().acc.reasoning_content == Seq::<char>::empty(),
            r.deep_view().acc.tool_calls == Seq::<ToolCallAccV>::empty(),
            tc_sorted(r.deep_view().acc.tool_calls),
            r.deep_view().first is None,
            r.deep_view().last is None,
            r.deep_view().usage is None,
            r.deep_view().finish is None,
            r.deep_view().is_chat == is_chat,
    {
        StreamLog {
            acc: StreamAccumulator::new(),
            first: None,
            last: None,
            usage: None,
            finish: None,
            is_chat,
        }
    }

    /// Folds one parsed chunk into the state.
    pub fn push(&mut self, chunk: Json)
        requires
            tc_sorted(old(self).deep_view().acc.tool_calls),
        ensures
            final(self).deep_view() == spec_push(old(self).deep_view(), chunk.deep_view()),
            tc_sorted(final(self).deep_view().acc.tool_calls),
    {
        let ghost cv = chunk.deep_view();
        match chunk.get("usage") {
            Some(u) => {
                self.usage = Some(u.duplicate());
            },
            None => {},
        }
        match chunk.get("choices") {
            Some(cs) => match cs.as_arr() {
                Some(items) => {
                    if items.len() > 0 {
                        proof {
                            lemma_arr_view(items@);
                        }
                        let c0: &Json = &items[0];
                        proof {
                            assert(c0.deep_view() == choice0(cv)->0);
                        }
                        match c0.get("finish_reason") {
                            Some(fr) => match fr.as_str() {
                                Some(f) => {
                                    self.finish = Some(f.clone());
                                },
                                None => {},
                            },
                            None => {},
                        }
                        if self.is_chat {
                            match c0.get("delta") {
                                Some(d) => {
                                    let acc: &mut StreamAccumulator = &mut self.acc;
                                    acc.update(d);
                                },
                                None => {},
                            }
                        } else {
                            match c0.get("text") {
                                Some(t) => match t.as_str() {
                                    Some(s) => {
                                        let content: &mut String = &mut self.acc.content;
                                        content.append(s.as_str());
                                    },
                                    None => {},
                                },
                                None => {},
                            }
                        }
                    }
                },
                None => {},
            },
            None => {},
        }
        if self.first.is_none() {
            self.first = Some(chunk.duplicate());
        }
        self.last = Some(chunk);
    }
}

} // verus!

verus! {

/// `v` with its first choice replaced, when `v` is an object whose
/// `choices` member is a non-empty array; otherwise unchanged.
pub open spec fn with_choice0(v: JsonV, c0: JsonV) -> JsonV {
    match jget(v, "choices"@) {
        Some(JsonV::Arr(cs)) => if cs.len() > 0 && v is Obj {
            jset(v, "choices"@, JsonV::Arr(cs.update(0, c0)))
        } else {
            v
        },
        _ => v,
    }
}

/// The accumulated message injected into the first choice: for chat the
/// choice's `delta` is replaced by a `message`, for completions its
/// `text` becomes the accumulated content.
pub open spec fn spec_inject_message(based: JsonV, s: StreamLogV) -> JsonV {
    match choice0(based) {
        Some(c0) => if c0 is Obj {
            if s.is_chat {
                with_choice0(based, jremove(jset(c0, "message"@, spec_message_json(s.acc)), "delta"@))
            } else {
                with_choice0(based, jset(c0, "text"@, JsonV::Str(s.acc.content)))
            }
        } else {
            based
        },
        None => based,
    }
}

/// The synthesized non-streaming-shaped body for a closed stream: the
/// last chunk (or the first, when the last has no `choices`), its first
/// choice replaced by the reconstructed message, with the captured
/// `usage` and `finish_reason` injected. `None` when no chunk arrived.
pub open spec fn spec_finalize(s: StreamLogV) -> Option<JsonV> {
    match s.last {
        None => None,
        Some(last0) => {
            let base = if jget(last0, "choices"@) is None {
                match s.first {
                    Some(f) => f,
                    None => last0,
                }
            } else {
                last0
            };
            let choices_valid = match jget(base, "choices"@) {
                Some(JsonV::Arr(cs)) => cs.len() > 0,
                _ => false,
            };
            let based = if choices_valid {
                base
            } else if base is Obj {
                jset(base, "choices"@,
                    JsonV::Arr(seq![JsonV::Obj(seq![("index"@, JsonV::Int(0))])]))
            } else {
                base
            };
            let injected = spec_inject_message(based, s);
            let with_usage = match s.usage {
                Some(u) => if injected is Obj {
                    jset(injected, "usage"@, u)
                } else {
                    injected
                },
                None => injected,
            };
            let done = match s.finish {
                Some(fr) => match choice0(with_usage) {
                    Some(c0) => if c0 is Obj {
                        with_choice0(with_usage, jset(c0, "finish_reason"@, JsonV::Str(fr)))
                    } else {
                        with_usage
                    },
                    None => with_usage,
                },
                None => with_usage,
            };
            Some(done)
        },
    }
}

/// `doc` with its first choice replaced, when its shape allows.
pub(crate) fn set_choice0(doc: Json, c0: Json) -> (r: Json)
    ensures
        r.deep_view() == with_choice0(doc.deep_view(), c0.deep_view()),
{
    let is_obj: bool = match &doc {
        Json::Obj(_) => true,
        _ => false,
    };
    let arr_len: usize = match doc.get("choices") {
        Some(c) => match c.as_arr() {
            Some(items) => items.len(),
            None => {
                return doc;
            },
        },
        None => {
            return doc;
        },
    };
    if arr_len == 0 || !is_obj {
        return doc;
    }
    let arr: Json = match doc.get("choices") {
        Some(c) => c.duplicate(),
        None => vstd::pervasive::unreached(),
    };
    proof {
        lemma_arr_view(arr->Arr_0@);
    }
    let arr2: Json = arr.set_at(0, c0);
    doc.set("choices", arr2)
}

impl StreamLog {
    /// Synthesizes the non-streaming-shaped body after the stream has
    /// closed; `None` when no chunk ever arrived.
    pub fn finalize(self) -> (r: Option<Json>)
        ensures
            match (r, spec_finalize(self.deep_view())) {
                (Some(j), Some(v)) => j.deep_view() == v,
                (None, None) => true,
                _ => false,
            },
    {
        let ghost sv = self.deep_view();
        let last0: Json = match self.last {
            Some(l) => l,
            None => {
                return None;
            },
        };
        let base: Json = if last0.get("choices").is_none() {
            match &self.first {
                Some(f) => f.duplicate(),
                None => last0,
            }
        } else {
            last0
        };
        let choices_valid: bool = match base.get("choices") {
            Some(c) => match c.as_arr() {
                Some(items) => items.len() > 0,
                None => false,
            },
            None => false,
        };
        let base_is_obj: bool = match &base {
            Json::Obj(_) => true,
            _ => false,
        };
        let based: Json = if choices_valid {
            base
        } else if base_is_obj {
            let mut one: Vec<(String, Json)> = Vec::new();
            one.push((String::from_str("index"), Json::Int(0)));
            let choice: Json = Json::Obj(one);
            let mut items: Vec<Json> = Vec::new();
            proof {
                crate::json::lemma_obj_view(choice->Obj_0@);
                assert(choice.deep_view()->Obj_0 =~= seq![("index"@, JsonV::Int(0))]);
            }
            items.push(choice);
            let arr: Json = Json::Arr(items);
            proof {
                lemma_arr_view(arr->Arr_0@);
                assert(arr.deep_view()->Arr_0
                    =~= seq![JsonV::Obj(seq![("index"@, JsonV::Int(0))])]);
            }
            base.set("choices", arr)
        } else {
            base
        };
        let injected: Json = {
            let c0_opt: Option<Json> = match based.get("choices") {
                Some(c) => match c.as_arr() {
                    Some(items) => if items.len() > 0 {
                        proof {
                            lemma_arr_view(items@);
                        }
                        Some(items[0].duplicate())
                    } else {
                        None
                    },
                    None => None,
                },
                None => None,
            };
            match c0_opt {
                Some(c0) => {
                    let c0_is_obj: bool = match &c0 {
                        Json::Obj(_) => true,
                        _ => false,
                    };
                    if c0_is_obj {
                        if self.is_chat {
                            let msg: Json = self.acc.to_message_json();
                            let c0b: Json = c0.set("message", msg).remove("delta");
                            set_choice0(based, c0b)
                        } else {
                            let c0b: Json = c0.set("text", Json::Text(self.acc.content.clone()));
                            set_choice0(based, c0b)
                        }
                    } else {
                        based
                    }
                },
                None => based,
            }
        };
        let with_usage: Json = match &self.usage {
            Some(u) => {
                let inj_is_obj: bool = match &injected {
                    Json::Obj(_) => true,
                    _ => false,
                };
                if inj_is_obj {
                    injected.set("usage", u.duplicate())
                } else {
                    injected
                }
            },
            None => injected,
        };
        let done: Json = match &self.finish {
            Some(fr) => {
                let c0_opt: Option<Json> = match with_usage.get("choices") {
                    Some(c) => match c.as_arr() {
                        Some(items) => if items.len() > 0 {
                            proof {
                                lemma_arr_view(items@);
                            }
                            Some(items[0].duplicate())
                        } else {
                            None
                        },
                        None => None,
                    },
                    None => None,
                };
                match c0_opt {
                    Some(c0) => {
                        let c0_is_obj: bool = match &c0 {
                            Json::Obj(_) => true,
                            _ => false,
                        };
                        if c0_is_obj {
                            let c0b: Json = c0.set("finish_reason", Json::Text(fr.clone()));
                            set_choice0(with_usage, c0b)
                        } else {
                            with_usage
                        }
                    },
                    None => with_usage,
                }
            },
            None => with_usage,
        };
        Some(done)
    }
}

} // verus!

verus! {

/// The logging state after a whole stream of chunks.
pub open spec fn spec_push_all(s: StreamLogV, chunks: Seq<JsonV>) -> StreamLogV
    decreases chunks.len(),
{
    if chunks.len() == 0 {
        s
    } else {
        spec_push_all(spec_push(s, chunks[0]), chunks.subrange(1, chunks.len() as int))
    }
}

/// The content delta one chunk carries: for chat the first choice's
/// `delta.content`, for completions its `text`.
pub open spec fn chunk_content(chunk: JsonV, is_chat: bool) -> Seq<char> {
    match choice0(chunk) {
        Some(c0) => if is_chat {
            match jget(c0, "delta"@) {
                Some(d) => str_or_empty(str_field(d, "content"@)),
                None => Seq::empty(),
            }
        } else {
            str_or_empty(str_field(c0, "text"@))
        },
        None => Seq::empty(),
    }
}

pub open spec fn concat_contents(chunks: Seq<JsonV>, is_chat: bool) -> Seq<char>
    decreases chunks.len(),
{
    if chunks.len() == 0 {
        Seq::empty()
    } else {
        chunk_content(chunks[0], is_chat)
            + concat_contents(chunks.subrange(1, chunks.len() as int), is_chat)
    }
}

proof fn lemma_push_step_content(s: StreamLogV, chunk: JsonV)
    ensures
        spec_push(s, chunk).acc.content
            =~= s.acc.content + chunk_content(chunk, s.is_chat),
        spec_push(s, chunk).is_chat == s.is_chat,
{
}

/// Accumulator faithfulness for content: over any whole stream, the
/// reconstructed content is the concatenation of the chunks' content
/// deltas, in stream order.
pub proof fn lemma_stream_content(s: StreamLogV, chunks: Seq<JsonV>)
    ensures
        spec_push_all(s, chunks).acc.content
            == s.acc.content + concat_contents(chunks, s.is_chat),
    decreases chunks.len(),
{
    if chunks.len() == 0 {
        assert(s.acc.content + concat_contents(chunks, s.is_chat) =~= s.acc.content);
    } else {
        let rest = chunks.subrange(1, chunks.len() as int);
        lemma_push_step_content(s, chunks[0]);
        lemma_stream_content(spec_push(s, chunks[0]), rest);
        assert(s.acc.content + chunk_content(chunks[0], s.is_chat)
            + concat_contents(rest, s.is_chat)
            =~= s.acc.content + concat_contents(chunks, s.is_chat));
    }
}

/// Accumulator faithfulness for usage: whichever chunk carries a
/// `usage` member last determines the captured usage; in particular a
/// stream whose last chunk carries `usage = u` is recorded with `u`.
pub proof fn lemma_stream_usage(s: StreamLogV, chunks: Seq<JsonV>, u: JsonV)
    requires
        chunks.len() > 0,
        jget(chunks.last(), "usage"@) == Some(u),
    ensures
        spec_push_all(s, chunks).usage == Some(u),
    decreases chunks.len(),
{
    let rest = chunks.subrange(1, chunks.len() as int);
    if chunks.len() == 1 {
        assert(rest.len() == 0);
        assert(chunks[0] == chunks.last());
    } else {
        assert(rest.last() == chunks.last());
        lemma_stream_usage(spec_push(s, chunks[0]), rest, u);
    }
}

/// Accumulator faithfulness for the finish reason: a stream whose last
/// chunk carries `choices[0].finish_reason = f` is recorded with `f`.
pub proof fn lemma_stream_finish(s: StreamLogV, chunks: Seq<JsonV>, c0: JsonV, f: Seq<char>)
    requires
        chunks.len() > 0,
        choice0(chunks.last()) == Some(c0),
        str_field(c0, "finish_reason"@) == Some(f),
    ensures
        spec_push_all(s, chunks).finish == Some(f),
    decreases chunks.len(),
{
    let rest = chunks.subrange(1, chunks.len() as int);
    if chunks.len() == 1 {
        assert(chunks[0] == chunks.last());
    } else {
        assert(rest.last() == chunks.last());
        lemma_stream_finish(spec_push(s, chunks[0]), rest, c0, f);
    }
}

} // verus!

verus! {

/// The `function.arguments` fragment one tool-call item carries.
pub open spec fn frag_args(tc: JsonV) -> Seq<char> {
    match jget(tc, "function"@) {
        Some(f) => str_or_empty(str_field(f, "arguments"@)),
        None => Seq::empty(),
    }
}

/// The arguments fragments a list of tool-call items carries for the
/// entry `idx`, concatenated in arrival order.
pub open spec fn tc_args_of(tcs: Seq<JsonV>, idx: u64) -> Seq<char>
    decreases tcs.len(),
{
    if tcs.len() == 0 {
        Seq::empty()
    } else {
        (if tc_index(tcs[0]) == Some(idx) {
            frag_args(tcs[0])
        } else {
            Seq::empty()
        }) + tc_args_of(tcs.subrange(1, tcs.len() as int), idx)
    }
}

/// The arguments of the entry for `idx`; empty when no entry exists.
pub open spec fn entry_args(calls: Seq<ToolCallAccV>, idx: u64) -> Seq<char> {
    if exists|p: int| 0 <= p < calls.len() && calls[p].index == idx {
        let p = choose|p: int| 0 <= p < calls.len() && calls[p].index == idx;
        calls[p].arguments
    } else {
        Seq::empty()
    }
}

proof fn lemma_entry_unique(calls: Seq<ToolCallAccV>, idx: u64, p: int)
    requires
        tc_sorted(calls),
        0 <= p < calls.len(),
        calls[p].index == idx,
    ensures
        entry_args(calls, idx) == calls[p].arguments,
{
    let q = choose|q: int| 0 <= q < calls.len() && calls[q].index == idx;
    if q != p {
        if q < p {
            assert(calls[q].index < calls[p].index);
        } else {
            assert(calls[p].index < calls[q].index);
        }
    }
}

proof fn lemma_insert_pos_bounds(calls: Seq<ToolCallAccV>, idx: u64)
    requires
        tc_sorted(calls),
    ensures
        0 <= insert_pos(calls, idx) <= calls.len(),
        forall|k: int| 0 <= k < insert_pos(calls, idx) ==> calls[k].index < idx,
        forall|k: int| insert_pos(calls, idx) <= k < calls.len()
            ==> calls[k].index >= idx,
    decreases calls.len(),
{
    if calls.len() > 0 {
        let rest = calls.subrange(1, calls.len() as int);
        assert(forall|a: int, b: int| 0 <= a < b < rest.len()
            ==> rest[a] == calls[a + 1] && rest[b] == calls[b + 1]);
        assert(tc_sorted(rest));
        lemma_insert_pos_bounds(rest, idx);
        if calls[0].index < idx {
            let pos = 1 + insert_pos(rest, idx);
            assert forall|k: int| 0 <= k < pos implies calls[k].index < idx by {
                if k > 0 {
                    assert(rest[k - 1] == calls[k]);
                }
            }
            assert forall|k: int| pos <= k < calls.len()
                implies calls[k].index >= idx by {
                assert(rest[k - 1] == calls[k]);
            }
        } else {
            assert forall|k: int| 0 <= k < calls.len()
                implies calls[k].index >= idx by {
                if k > 0 {
                    assert(calls[0].index < calls[k].index);
                }
            }
        }
    }
}

/// One fragment keeps the entries ordered.
proof fn lemma_apply_tc_sorted(calls: Seq<ToolCallAccV>, tc: JsonV)
    requires
        tc_sorted(calls),
    ensures
        tc_sorted(apply_tc(calls, tc)),
{
    match tc_index(tc) {
        Some(idx) => {
            if exists|p: int| 0 <= p < calls.len() && calls[p].index == idx {
                let p = choose|p: int| 0 <= p < calls.len() && calls[p].index == idx;
                let out = calls.update(p, merge_tc(calls[p], tc));
                assert(out[p].index == idx);
                assert(forall|k: int| 0 <= k < out.len() && k != p
                    ==> out[k] == calls[k]);
            } else {
                lemma_insert_pos_bounds(calls, idx);
                let pos = insert_pos(calls, idx);
                let out = calls.subrange(0, pos) + seq![merge_tc(blank_tc(idx), tc)]
                    + calls.subrange(pos, calls.len() as int);
                assert forall|a: int, b: int| 0 <= a < b < out.len()
                    implies out[a].index < out[b].index by {
                    if a < pos {
                        assert(out[a] == calls[a]);
                    } else if a == pos {
                        assert(out[a].index == idx);
                    } else {
                        assert(out[a] == calls[a - 1]);
                        assert(calls[a - 1].index >= idx);
                        assert(calls[a - 1].index != idx);
                    }
                    if b < pos {
                        assert(out[b] == calls[b]);
                    } else if b == pos {
                        assert(out[b].index == idx);
                    } else {
                        assert(out[b] == calls[b - 1]);
                        assert(calls[b - 1].index >= idx);
                        assert(calls[b - 1].index != idx);
                    }
                }
            }
        },
        None => {},
    }
}

/// One fragment adds its arguments to exactly its own entry.
proof fn lemma_apply_tc_args(calls: Seq<ToolCallAccV>, tc: JsonV, idx: u64)
    requires
        tc_sorted(calls),
    ensures
        entry_args(apply_tc(calls, tc), idx)
            =~= entry_args(calls, idx) + (if tc_index(tc) == Some(idx) {
                frag_args(tc)
            } else {
                Seq::empty()
            }),
{
    let out = apply_tc(calls, tc);
    lemma_apply_tc_sorted(calls, tc);
    match tc_index(tc) {
        Some(j) => {
            if exists|p: int| 0 <= p < calls.len() && calls[p].index == j {
                let p = choose|p: int| 0 <= p < calls.len() && calls[p].index == j;
                assert(out == calls.update(p, merge_tc(calls[p], tc)));
                if j == idx {
                    lemma_entry_unique(calls, idx, p);
                    lemma_entry_unique(out, idx, p);
                    assert(out[p].arguments == calls[p].arguments + frag_args(tc));
                } else {
                    if exists|q: int| 0 <= q < calls.len() && calls[q].index == idx {
                        let q = choose|q: int| 0 <= q < calls.len() && calls[q].index == idx;
                        assert(q != p);
                        assert(out[q] == calls[q]);
                        lemma_entry_unique(calls, idx, q);
                        lemma_entry_unique(out, idx, q);
                    } else {
                        assert forall|q: int| 0 <= q < out.len()
                            implies out[q].index != idx by {
                            if q == p {
                                assert(out[q].index == j);
                            } else {
                                assert(out[q] == calls[q]);
                            }
                        }
                    }
                }
            } else {
                lemma_insert_pos_bounds(calls, j);
                let pos = insert_pos(calls, j);
                assert(out == calls.subrange(0, pos) + seq![merge_tc(blank_tc(j), tc)]
                    + calls.subrange(pos, calls.len() as int));
                assert(out[pos].index == j);
                if j == idx {
                    lemma_entry_unique(out, idx, pos);
                    assert(out[pos].arguments =~= Seq::<char>::empty() + frag_args(tc));
                    assert forall|q: int| 0 <= q < calls.len()
                        implies calls[q].index != idx by {
                    }
                    assert(entry_args(calls, idx) == Seq::<char>::empty());
                } else {
                    if exists|q: int| 0 <= q < calls.len() && calls[q].index == idx {
                        let q = choose|q: int| 0 <= q < calls.len() && calls[q].index == idx;
                        lemma_entry_unique(calls, idx, q);
                        let q2: int = if q < pos {
                            q
                        } else {
                            q + 1
                        };
                        assert(out[q2] == calls[q]);
                        lemma_entry_unique(out, idx, q2);
                    } else {
                        assert forall|q: int| 0 <= q < out.len()
                            implies out[q].index != idx by {
                            if q < pos {
                                assert(out[q] == calls[q]);
                            } else if q == pos {
                            } else {
                                assert(out[q] == calls[q - 1]);
                            }
                        }
                    }
                }
            }
        },
        None => {},
    }
}

proof fn lemma_apply_tcs_sorted(calls: Seq<ToolCallAccV>, tcs: Seq<JsonV>)
    requires
        tc_sorted(calls),
    ensures
        tc_sorted(apply_tcs(calls, tcs)),
    decreases tcs.len(),
{
    if tcs.len() > 0 {
        lemma_apply_tc_sorted(calls, tcs[0]);
        lemma_apply_tcs_sorted(apply_tc(calls, tcs[0]), tcs.subrange(1, tcs.len() as int));
    }
}

proof fn lemma_apply_tcs_args(calls: Seq<ToolCallAccV>, tcs: Seq<JsonV>, idx: u64)
    requires
        tc_sorted(calls),
    ensures
        entry_args(apply_tcs(calls, tcs), idx) =~= entry_args(calls, idx) + tc_args_of(tcs, idx),
    decreases tcs.len(),
{
    if tcs.len() == 0 {
        assert(entry_args(calls, idx) + tc_args_of(tcs, idx) =~= entry_args(calls, idx));
    } else {
        let rest = tcs.subrange(1, tcs.len() as int);
        lemma_apply_tc_sorted(calls, tcs[0]);
        lemma_apply_tc_args(calls, tcs[0], idx);
        lemma_apply_tcs_args(apply_tc(calls, tcs[0]), rest, idx);
    }
}

/// The tool-call items one chunk's delta carries.
pub open spec fn chunk_tool_calls(chunk: JsonV) -> Seq<JsonV> {
    match choice0(chunk) {
        Some(c0) => match jget(c0, "delta"@) {
            Some(d) => match jget(d, "tool_calls"@) {
                Some(JsonV::Arr(tcs)) => tcs,
                _ => Seq::empty(),
            },
            None => Seq::empty(),
        },
        None => Seq::empty(),
    }
}

/// The arguments fragments a whole chat stream carries for `idx`.
pub open spec fn stream_args(chunks: Seq<JsonV>, idx: u64) -> Seq<char>
    decreases chunks.len(),
{
    if chunks.len() == 0 {
        Seq::empty()
    } else {
        tc_args_of(chunk_tool_calls(chunks[0]), idx)
            + stream_args(chunks.subrange(1, chunks.len() as int), idx)
    }
}

proof fn lemma_push_step_args(s: StreamLogV, chunk: JsonV, idx: u64)
    requires
        s.is_chat,
        tc_sorted(s.acc.tool_calls),
    ensures
        tc_sorted(spec_push(s, chunk).acc.tool_calls),
        entry_args(spec_push(s, chunk).acc.tool_calls, idx)
            =~= entry_args(s.acc.tool_calls, idx) + tc_args_of(chunk_tool_calls(chunk), idx),
{
    match choice0(chunk) {
        Some(c0) => {
            match jget(c0, "delta"@) {
                Some(d) => {
                    match jget(d, "tool_calls"@) {
                        Some(v) => {
                            if v is Arr {
                                lemma_apply_tcs_sorted(s.acc.tool_calls, v->Arr_0);
                                lemma_apply_tcs_args(s.acc.tool_calls, v->Arr_0, idx);
                            } else {
                                assert(entry_args(s.acc.tool_calls, idx)
                                    + tc_args_of(chunk_tool_calls(chunk), idx)
                                    =~= entry_args(s.acc.tool_calls, idx));
                            }
                        },
                        None => {
                            assert(entry_args(s.acc.tool_calls, idx)
                                + tc_args_of(chunk_tool_calls(chunk), idx)
                                =~= entry_args(s.acc.tool_calls, idx));
                        },
                    }
                },
                None => {
                    assert(entry_args(s.acc.tool_calls, idx)
                        + tc_args_of(chunk_tool_calls(chunk), idx)
                        =~= entry_args(s.acc.tool_calls, idx));
                },
            }
        },
        None => {
            assert(entry_args(s.acc.tool_calls, idx)
                + tc_args_of(chunk_tool_calls(chunk), idx)
                =~= entry_args(s.acc.tool_calls, idx));
        },
    }
}

/// Accumulator faithfulness for tool calls: over any whole chat stream,
/// the reconstructed entry of each index carries the concatenation of
/// that index's `function.arguments` fragments, in stream order. (law)
pub proof fn lemma_stream_tool_args(s: StreamLogV, chunks: Seq<JsonV>, idx: u64)
    requires
        s.is_chat,
        tc_sorted(s.acc.tool_calls),
    ensures
        tc_sorted(spec_push_all(s, chunks).acc.tool_calls),
        entry_args(spec_push_all(s, chunks).acc.tool_calls, idx)
            == entry_args(s.acc.tool_calls, idx) + stream_args(chunks, idx),
    decreases chunks.len(),
{
    if chunks.len() == 0 {
        assert(entry_args(s.acc.tool_calls, idx) + stream_args(chunks, idx)
            =~= entry_args(s.acc.tool_calls, idx));
    } else {
        let rest = chunks.subrange(1, chunks.len() as int);
        lemma_push_step_args(s, chunks[0], idx);
        lemma_stream_tool_args(spec_push(s, chunks[0]), rest, idx);
        assert(entry_args(s.acc.tool_calls, idx)
            + tc_args_of(chunk_tool_calls(chunks[0]), idx) + stream_args(rest, idx)
            =~= entry_args(s.acc.tool_calls, idx) + stream_args(chunks, idx));
    }
}

} // verus!
