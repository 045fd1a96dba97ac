//! The telemetry record produced once per inbound request, and the small
//! observability helpers around it: the aggregated model list and the
//! success-rate windows.

use vstd::prelude::*;
use crate::json::{Json, JsonV, jget, jstr, ju64, lemma_arr_view, lemma_obj_view};
use crate::payload::{MessageContentV, RequestPayload};

verus! {

/// One telemetry record, as the persistence collaborator receives it.
pub struct Record {
    pub time: String,
    pub ip: String,
    pub model: String,
    pub record_type: String,
    pub completion_tokens: i32,
    pub prompt_tokens: i32,
    pub total_tokens: i32,
    pub tool: bool,
    pub multimodal: bool,
    pub headers: String,
    pub request: String,
    pub response: String,
}

/// The current time rendered for the record.
/// Relies on chrono's `Utc::now` and `DateTime::to_rfc3339`: the result
/// is an RFC 3339 date-time string, which is never empty; nothing more
/// is assumed of the clock.
#[verifier::external_body]
pub fn now_rfc3339() -> (r: String)
    ensures
        r@.len() > 0,
{
    chrono::Utc::now().to_rfc3339()
}

/// A token count of the `usage` member, zero when absent or not a
/// number.
pub open spec fn usage_token(resp: JsonV, name: Seq<char>) -> u64 {
    match jget(resp, "usage"@) {
        Some(u) => match jget(u, name) {
            Some(t) => match ju64(t) {
                Some(v) => v,
                None => 0,
            },
            None => 0,
        },
        None => 0,
    }
}

/// A token count narrowed for the store; a count beyond the column
/// range records as zero.
pub open spec fn token_i32(t: u64) -> i32 {
    if t <= i32::MAX {
        t as i32
    } else {
        0
    }
}

fn read_usage_token(resp: &Json, name: &str) -> (r: u64)
    ensures
        r == usage_token(resp.deep_view(), name@),
{
    match resp.get("usage") {
        Some(u) => match u.get(name) {
            Some(t) => match t.as_u64() {
                Some(v) => v,
                None => 0,
            },
            None => 0,
        },
        None => 0,
    }
}

/// The record's request kind string.
pub open spec fn spec_request_type(payload: &RequestPayload) -> Seq<char> {
    match payload {
        RequestPayload::Chat(_) => "chat.completions"@,
        RequestPayload::Completion(_) => "text_completion"@,
        RequestPayload::Embedding(_) => "embeddings"@,
        RequestPayload::Rerank(_) => "rerank"@,
        RequestPayload::Score(_) => "score"@,
        RequestPayload::Classify(_) => "classify"@,
    }
}

/// Whether a chat message carries an image part.
pub open spec fn message_has_image(content: Option<MessageContentV>) -> bool {
    match content {
        Some(MessageContentV::Parts(ps)) => exists|i: int| 0 <= i < ps.len()
            && (#[trigger] ps[i]).part_type == "image_url"@,
        _ => false,
    }
}

/// Whether the request is multimodal: a chat with an image part in some
/// message.
pub open spec fn spec_multimodal(payload: &RequestPayload) -> bool {
    match payload {
        RequestPayload::Chat(p) => exists|m: int| 0 <= m < p.messages@.len()
            && #[trigger] message_has_image(p.messages@[m].deep_view().content),
        _ => false,
    }
}

fn is_multimodal(payload: &RequestPayload) -> (r: bool)
    ensures
        r == spec_multimodal(payload),
{
    match payload {
        RequestPayload::Chat(p) => {
            let n: usize = p.messages.len();
            let mut m: usize = 0;
            while m < n
                invariant
                    *payload == RequestPayload::Chat(*p),
                    n == p.messages@.len(),
                    m <= n,
                    forall|k: int| 0 <= k < m
                        ==> !message_has_image(p.messages@[k].deep_view().content),
                decreases n - m,
            {
                match &p.messages[m].content {
                    Some(crate::payload::MessageContent::Parts(ps)) => {
                        let pn: usize = ps.len();
                        let mut i: usize = 0;
                        proof {
                            assert(p.messages@[m as int].deep_view().content
                                == Some(MessageContentV::Parts(ps.deep_view())));
                        }
                        while i < pn
                            invariant
                                *payload == RequestPayload::Chat(*p),
                                pn == ps@.len(),
                                m < p.messages@.len(),
                                p.messages@[m as int].deep_view().content
                                    == Some(MessageContentV::Parts(ps.deep_view())),
                                i <= pn,
                                forall|k: int| 0 <= k < i
                                    ==> (#[trigger] ps@[k]).deep_view().part_type
                                        != "image_url"@,
                            decreases pn - i,
                        {
                            if crate::strutil::eq_str(ps[i].part_type.as_str(), "image_url") {
                                proof {
                                    assert(ps.deep_view()[i as int].part_type == "image_url"@);
                                    assert(message_has_image(
                                        p.messages@[m as int].deep_view().content));
                                    assert(spec_multimodal(payload));
                                }
                                return true;
                            }
                            i = i + 1;
                        }
                        proof {
                            assert(forall|k: int| 0 <= k < ps.deep_view().len()
                                ==> (#[trigger] ps.deep_view()[k]).part_type != "image_url"@);
                        }
                    },
                    _ => {
                        proof {
                            assert(!message_has_image(
                                p.messages@[m as int].deep_view().content));
                        }
                    },
                }
                m = m + 1;
            }
            proof {
                if spec_multimodal(payload) {
                    let w = choose|w: int| 0 <= w < p.messages@.len()
                        && message_has_image(p.messages@[w].deep_view().content);
                    assert(!message_has_image(p.messages@[w].deep_view().content));
                }
            }
            false
        },
        _ => false,
    }
}

/// Builds the telemetry record for one completed request. The caller
/// supplies the clock reading, the resolved caller address and the
/// serialized header, request and response texts; the token counts, the
/// kind string and the tool and multimodal flags are computed here.
pub fn build_record(time: String, ip: String, headers_text: String, payload: &RequestPayload,
    request_body: &Json, response_body: &Json, request_text: String, response_text: String)
    -> (r: Record)
    ensures
        r.time == time,
        r.ip == ip,
        r.headers == headers_text,
        r.request == request_text,
        r.response == response_text,
        r.model@ == payload.spec_model(),
        r.record_type@ == spec_request_type(payload),
        r.completion_tokens
            == token_i32(usage_token(response_body.deep_view(), "completion_tokens"@)),
        r.prompt_tokens
            == token_i32(usage_token(response_body.deep_view(), "prompt_tokens"@)),
        r.total_tokens
            == token_i32(usage_token(response_body.deep_view(), "total_tokens"@)),
        r.tool == (jget(request_body.deep_view(), "tools"@) is Some),
        r.multimodal == spec_multimodal(payload),
{
    let completion: u64 = read_usage_token(response_body, "completion_tokens");
    let prompt: u64 = read_usage_token(response_body, "prompt_tokens");
    let total: u64 = read_usage_token(response_body, "total_tokens");
    let tool: bool = match request_body.get("tools") {
        Some(_) => true,
        None => false,
    };
    let record_type: String = match payload {
        RequestPayload::Chat(_) => String::from_str("chat.completions"),
        RequestPayload::Completion(_) => String::from_str("text_completion"),
        RequestPayload::Embedding(_) => String::from_str("embeddings"),
        RequestPayload::Rerank(_) => String::from_str("rerank"),
        RequestPayload::Score(_) => String::from_str("score"),
        RequestPayload::Classify(_) => String::from_str("classify"),
    };
    Record {
        time,
        ip,
        model: payload.get_model().clone(),
        record_type,
        completion_tokens: narrow_token(completion),
        prompt_tokens: narrow_token(prompt),
        total_tokens: narrow_token(total),
        tool,
        multimodal: is_multimodal(payload),
        headers: headers_text,
        request: request_text,
        response: response_text,
    }
}

fn narrow_token(t: u64) -> (r: i32)
    ensures
        r == token_i32(t),
{
    if t <= 0x7fffffff {
        t as i32
    } else {
        0
    }
}

/// The model entries one upstream answer contributes to the aggregated
/// list: the elements of its `data` array, or the whole body when it
/// has none.
pub open spec fn entries_of(m: JsonV) -> Seq<JsonV> {
    match jget(m, "data"@) {
        Some(JsonV::Arr(items)) => items,
        _ => seq![m],
    }
}

pub open spec fn collect_entries(results: Seq<Option<JsonV>>) -> Seq<JsonV>
    decreases results.len(),
{
    if results.len() == 0 {
        Seq::empty()
    } else {
        (match results[0] {
            Some(m) => entries_of(m),
            None => Seq::empty(),
        }) + collect_entries(results.subrange(1, results.len() as int))
    }
}

/// The `id` of a model entry, when it is a string.
pub open spec fn entry_id(m: JsonV) -> Option<Seq<char>> {
    match jget(m, "id"@) {
        Some(v) => jstr(v),
        None => None,
    }
}

/// Entries deduplicated by `id`: the first entry of each id is kept, an
/// entry without a string id is always kept.
pub open spec fn dedup_entries(kept: Seq<JsonV>, seen: Seq<Seq<char>>, ms: Seq<JsonV>)
    -> Seq<JsonV>
    decreases ms.len(),
{
    if ms.len() == 0 {
        kept
    } else {
        let rest = ms.subrange(1, ms.len() as int);
        match entry_id(ms[0]) {
            Some(id) => if seen.contains(id) {
                dedup_entries(kept, seen, rest)
            } else {
                dedup_entries(kept.push(ms[0]), seen.push(id), rest)
            },
            None => dedup_entries(kept.push(ms[0]), seen, rest),
        }
    }
}

/// The aggregated model list body.
pub open spec fn spec_model_list(results: Seq<Option<JsonV>>) -> JsonV {
    JsonV::Obj(seq![
        ("object"@, JsonV::Str("list"@)),
        ("data"@, JsonV::Arr(
            dedup_entries(Seq::empty(), Seq::empty(), collect_entries(results)),
        )),
    ])
}

/// Aggregates the per-provider model lists into one body: every `data`
/// array is flattened, entries are deduplicated by their `id`, first
/// occurrence kept, and the result is wrapped as an OpenAI list object.
pub fn aggregate_models(results: &Vec<Option<Json>>) -> (r: Json)
    ensures
        r.deep_view() == spec_model_list(results.deep_view()),
{
    let ghost rv = results.deep_view();
    let n: usize = results.len();
    let mut entries: Vec<Json> = Vec::new();
    let mut i: usize = 0;
    proof {
        assert(rv.subrange(0, n as int) =~= rv);
        assert(entries.deep_view() + collect_entries(rv.subrange(0, n as int))
            =~= collect_entries(rv));
    }
    while i < n
        invariant
            n == results@.len(),
            n == rv.len(),
            rv == results.deep_view(),
            i <= n,
            entries.deep_view() + collect_entries(rv.subrange(i as int, n as int))
                == collect_entries(rv),
        decreases n - i,
    {
        let ghost rest = rv.subrange(i as int, n as int);
        proof {
            assert(rest[0] == rv[i as int]);
            assert(rest.subrange(1, rest.len() as int) =~= rv.subrange(i + 1, n as int));
        }
        match &results[i] {
            Some(m) => {
                let ghost before = entries.deep_view();
                match m.get("data") {
                    Some(d) => match d.as_arr() {
                        Some(items) => {
                            proof {
                                lemma_arr_view(items@);
                            }
                            let pn: usize = items.len();
                            let mut k: usize = 0;
                            proof {
                                assert(entries.deep_view()
                                    =~= before + items.deep_view().subrange(0, 0));
                            }
                            while k < pn
                                invariant
                                    pn == items@.len(),
                                    k <= pn,
                                    entries.deep_view()
                                        =~= before + items.deep_view().subrange(0, k as int),
                                decreases pn - k,
                            {
                                proof {
                                    lemma_arr_view(items@);
                                }
                                let elem: Json = items[k].duplicate();
                                let ghost eb = entries.deep_view();
                                proof {
                                    assert(items.deep_view()[k as int]
                                        == items@[k as int].deep_view());
                                    assert(elem.deep_view() == items.deep_view()[k as int]);
                                }
                                entries.push(elem);
                                proof {
                                    assert(entries.deep_view() =~= eb.push(elem.deep_view()));
                                    assert(eb.push(elem.deep_view())
                                        =~= before + items.deep_view().subrange(0, k + 1));
                                    assert(entries.deep_view()
                                        =~= before + items.deep_view().subrange(0, k + 1));
                                }
                                k = k + 1;
                            }
                            proof {
                                assert(items.deep_view().subrange(0, pn as int)
                                    =~= items.deep_view());
                                assert(entries.deep_view()
                                    =~= before + entries_of(rv[i as int]->0));
                            }
                        },
                        None => {
                            let elem: Json = m.duplicate();
                            entries.push(elem);
                            proof {
                                assert(entries.deep_view()
                                    =~= before + entries_of(rv[i as int]->0));
                            }
                        },
                    },
                    None => {
                        let elem: Json = m.duplicate();
                        entries.push(elem);
                        proof {
                            assert(entries.deep_view()
                                =~= before + entries_of(rv[i as int]->0));
                        }
                    },
                }
                proof {
                    assert(entries.deep_view() + collect_entries(rv.subrange(i + 1, n as int))
                        =~= collect_entries(rv));
                }
            },
            None => {},
        }
        i = i + 1;
    }
    proof {
        assert(rv.subrange(n as int, n as int).len() == 0);
        assert(entries.deep_view() =~= collect_entries(rv));
    }
    let ghost all = entries.deep_view();
    let en: usize = entries.len();
    let mut entries: Vec<Json> = entries;
    let mut kept: Vec<Json> = Vec::new();
    let mut seen: Vec<String> = Vec::new();
    let mut j: usize = 0;
    proof {
        assert(all.subrange(0, en as int) =~= all);
        assert(kept.deep_view() =~= Seq::<JsonV>::empty());
        assert(seen.deep_view() =~= Seq::<Seq<char>>::empty());
    }
    while j < en
        invariant
            en == all.len(),
            entries@.len() == en - j,
            forall|k: int| 0 <= k < en - j
                ==> (#[trigger] entries@[k]).deep_view() == all[k + j],
            j <= en,
            dedup_entries(kept.deep_view(), seen.deep_view(),
                all.subrange(j as int, en as int))
                == dedup_entries(Seq::empty(), Seq::empty(), all),
        decreases en - j,
    {
        let ghost rest = all.subrange(j as int, en as int);
        proof {
            assert(rest[0] == all[j as int]);
            assert(rest.subrange(1, rest.len() as int) =~= all.subrange(j + 1, en as int));
        }
        let m: Json = entries.remove(0);
        proof {
            assert(m.deep_view() == all[j as int]);
        }
        let id: Option<String> = match m.get("id") {
            Some(v) => match v.as_str() {
                Some(s) => Some(s.clone()),
                None => None,
            },
            None => None,
        };
        match id {
            Some(id) => {
                if crate::policy::vec_contains_str(&seen, &id) {
                } else {
                    let ghost kb = kept.deep_view();
                    let ghost sb = seen.deep_view();
                    kept.push(m);
                    seen.push(id);
                    proof {
                        assert(kept.deep_view() =~= kb.push(all[j as int]));
                        assert(seen.deep_view() =~= sb.push(entry_id(all[j as int])->0));
                    }
                }
            },
            None => {
                let ghost kb = kept.deep_view();
                kept.push(m);
                proof {
                    assert(kept.deep_view() =~= kb.push(all[j as int]));
                }
            },
        }
        j = j + 1;
    }
    proof {
        assert(all.subrange(en as int, en as int).len() == 0);
    }
    let data: Json = Json::Arr(kept);
    let mut pairs: Vec<(String, Json)> = Vec::new();
    pairs.push((String::from_str("object"), crate::json::jtext("list")));
    pairs.push((String::from_str("data"), data));
    let r = Json::Obj(pairs);
    proof {
        lemma_obj_view(r->Obj_0@);
        let dv = r->Obj_0@[1].1;
        lemma_arr_view(dv->Arr_0@);
        assert(dv.deep_view()->Arr_0
            =~= dedup_entries(Seq::empty(), Seq::empty(), all));
        assert(r.deep_view()->Obj_0 =~= spec_model_list(rv)->Obj_0);
    }
    r
}

/// How many of the last `max_size` requests succeeded: the window keeps
/// the newest `max_size` outcomes, oldest evicted first.
pub struct SuccessWindow {
    pub max_size: usize,
    pub data: Vec<bool>,
}

pub open spec fn count_true(s: Seq<bool>) -> int
    decreases s.len(),
{
    if s.len() == 0 {
        0
    } else {
        (if s[0] { 1int } else { 0int }) + count_true(s.subrange(1, s.len() as int))
    }
}

impl SuccessWindow {
    pub fn new(max_size: usize) -> (r: SuccessWindow)
        ensures
            r.max_size == max_size,
            r.data@ == Seq::<bool>::empty(),
    {
        SuccessWindow { max_size, data: Vec::new() }
    }

    /// Records one outcome, evicting the oldest when full.
    pub fn push(&mut self, value: bool)
        ensures
            final(self).max_size == old(self).max_size,
            final(self).data@ == (if old(self).data@.len() >= old(self).max_size
                    && old(self).data@.len() > 0 {
                old(self).data@.subrange(1, old(self).data@.len() as int)
            } else {
                old(self).data@
            }).push(value),
    {
        if self.data.len() >= self.max_size && self.data.len() > 0 {
            self.data.remove(0);
            proof {
                assert(self.data@
                    =~= old(self).data@.subrange(1, old(self).data@.len() as int));
            }
        }
        self.data.push(value);
    }

    /// The successes and the total in the window; the success rate is
    /// their ratio.
    pub fn counts(&self) -> (r: (u64, u64))
        ensures
            r.0 as int == count_true(self.data@),
            r.1 == self.data@.len(),
    {
        let n: usize = self.data.len();
        let mut sum: u64 = 0;
        let mut i: usize = 0;
        proof {
            lemma_count_true_bounds(self.data@);
            assert(self.data@.subrange(0, n as int) =~= self.data@);
            assert(count_true(self.data@.subrange(0, 0)) == 0);
        }
        while i < n
            invariant
                n == self.data@.len(),
                i <= n,
                sum as int == count_true(self.data@.subrange(0, i as int)),
                sum <= i,
            decreases n - i,
    {
            proof {
                lemma_count_true_push(self.data@, i as int);
            }
            if self.data[i] {
                sum = sum + 1;
            }
            i = i + 1;
        }
        proof {
            assert(self.data@.subrange(0, n as int) =~= self.data@);
        }
        (sum, n as u64)
    }
}

proof fn lemma_count_true_bounds(s: Seq<bool>)
    ensures
        0 <= count_true(s) <= s.len(),
    decreases s.len(),
{
    if s.len() > 0 {
        lemma_count_true_bounds(s.subrange(1, s.len() as int));
    }
}

proof fn lemma_count_true_push(s: Seq<bool>, i: int)
    requires
        0 <= i < s.len(),
    ensures
        count_true(s.subrange(0, i + 1))
            == count_true(s.subrange(0, i)) + (if s[i] { 1int } else { 0int }),
    decreases i,
{
    let a = s.subrange(0, i + 1);
    let b = s.subrange(0, i);
    if i == 0 {
        assert(a.subrange(1, a.len() as int).len() == 0);
        assert(count_true(a.subrange(1, a.len() as int)) == 0);
        assert(count_true(a) == (if a[0] { 1int } else { 0int }));
        assert(count_true(b) == 0);
    } else {
        assert(a[0] == s[0]);
        assert(b[0] == s[0]);
        assert(a.subrange(1, a.len() as int) =~= s.subrange(1, s.len() as int).subrange(0, i));
        assert(b.subrange(1, b.len() as int)
            =~= s.subrange(1, s.len() as int).subrange(0, i - 1));
        let t = s.subrange(1, s.len() as int);
        assert(t[i - 1] == s[i]);
        lemma_count_true_push(t, i - 1);
    }
}

/// The three success windows: the last minute, ten minutes and hour of
/// once-a-second sampling.
pub struct SuccessWindows {
    pub w1m: SuccessWindow,
    pub w10m: SuccessWindow,
    pub w1h: SuccessWindow,
}

impl SuccessWindows {
    pub fn new() -> (r: SuccessWindows)
        ensures
            r.w1m.max_size == 60,
            r.w10m.max_size == 600,
            r.w1h.max_size == 3600,
            r.w1m.data@.len() == 0,
            r.w10m.data@.len() == 0,
            r.w1h.data@.len() == 0,
    {
        SuccessWindows {
            w1m: SuccessWindow::new(60),
            w10m: SuccessWindow::new(600),
            w1h: SuccessWindow::new(3600),
        }
    }
}

/// Records one request outcome in all three success windows.
pub fn update_success_windows(windows: &mut SuccessWindows, success: bool)
    ensures
        final(windows).w1m.data@.last() == success,
        final(windows).w10m.data@.last() == success,
        final(windows).w1h.data@.last() == success,
        final(windows).w1m.max_size == old(windows).w1m.max_size,
        final(windows).w10m.max_size == old(windows).w10m.max_size,
        final(windows).w1h.max_size == old(windows).w1h.max_size,
{
    windows.w1m.push(success);
    windows.w10m.push(success);
    windows.w1h.push(success);
}

} // verus!

verus! {

/// The side-band metadata attached to a response for the access-log
/// stage: the effective model, the error message of a failed flow, and
/// the truncated request body recorded only on failure.
pub struct AccessLogMeta {
    pub model: String,
    pub error: Option<String>,
    pub request_body: Option<String>,
}

impl AccessLogMeta {
    /// Metadata for a successful flow: the model alone.
    pub fn success(model: String) -> (r: AccessLogMeta)
        ensures
            r.model == model,
            r.error is None,
            r.request_body is None,
    {
        AccessLogMeta { model, error: None, request_body: None }
    }

    /// Metadata for a failed flow: the model, the message, and the
    /// truncated body when one was captured.
    pub fn failure(model: String, error: String, request_body: Option<String>)
        -> (r: AccessLogMeta)
        ensures
            r.model == model,
            r.error == Some(error),
            r.request_body == request_body,
    {
        AccessLogMeta { model, error: Some(error), request_body }
    }
}

} // verus!
