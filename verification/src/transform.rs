//! The in-flight prefix splice. A provider may configure a
//! `special_prefix`; the pipeline prepends it to the first non-empty
//! content of a response, exactly once per response, for both the
//! streaming and the non-streaming shape.

use vstd::prelude::*;
use crate::json::{Json, JsonV, jget, jset, lemma_jset_get, lemma_arr_view};
use crate::stream::{choice0, str_field, with_choice0, set_choice0};

verus! {

/// One frame of an event stream: the `[DONE]` terminator, a chunk that
/// parsed as a document, or bytes forwarded untouched.
pub enum SseData {
    DoneMarker,
    Parsed(Json),
    Unparsed(Vec<u8>),
}

pub enum SseDataV {
    DoneMarker,
    Parsed(JsonV),
    Unparsed(Seq<u8>),
}

impl DeepView for SseData {
    type V = SseDataV;

    open spec fn deep_view(&self) -> SseDataV {
        match self {
            SseData::DoneMarker => SseDataV::DoneMarker,
            SseData::Parsed(j) => SseDataV::Parsed(j.deep_view()),
            SseData::Unparsed(b) => SseDataV::Unparsed(b@),
        }
    }
}

/// The chosen content location of a chunk: `choices[0].delta.content`
/// for chat, `choices[0].text` for completions.
pub open spec fn stream_content(v: JsonV, is_chat: bool) -> Option<Seq<char>> {
    match choice0(v) {
        Some(c0) => if is_chat {
            match jget(c0, "delta"@) {
                Some(d) => str_field(d, "content"@),
                None => None,
            }
        } else {
            str_field(c0, "text"@)
        },
        None => None,
    }
}

/// The chunk with its chosen content location replaced by `s`.
pub open spec fn with_stream_content(v: JsonV, is_chat: bool, s: Seq<char>) -> JsonV {
    match choice0(v) {
        Some(c0) => if is_chat {
            match jget(c0, "delta"@) {
                Some(d) => if d is Obj && c0 is Obj {
                    with_choice0(v, jset(c0, "delta"@, jset(d, "content"@, JsonV::Str(s))))
                } else {
                    v
                },
                None => v,
            }
        } else {
            if c0 is Obj {
                with_choice0(v, jset(c0, "text"@, JsonV::Str(s)))
            } else {
                v
            }
        },
        None => v,
    }
}

/// The splice state for one response stream.
pub struct StreamTransform {
    pub special_prefix: String,
    pub prefix_applied: bool,
    pub is_chat: bool,
}

pub struct StreamTransformV {
    pub special_prefix: Seq<char>,
    pub prefix_applied: bool,
    pub is_chat: bool,
}

impl DeepView for StreamTransform {
    type V = StreamTransformV;

    open spec fn deep_view(&self) -> StreamTransformV {
        StreamTransformV {
            special_prefix: self.special_prefix@,
            prefix_applied: self.prefix_applied,
            is_chat: self.is_chat,
        }
    }
}

/// One frame through the splice: the terminator and unparsed bytes pass
/// untouched; a parsed chunk has the prefix prepended to its content
/// when the prefix is configured, not yet applied, and the content is
/// a non-empty string.
pub open spec fn spec_transform(t: StreamTransformV, d: SseDataV) -> (StreamTransformV, SseDataV) {
    match d {
        SseDataV::Parsed(v) => if !t.prefix_applied && t.special_prefix.len() > 0 {
            match stream_content(v, t.is_chat) {
                Some(s) => if s.len() > 0 {
                    (
                        StreamTransformV { prefix_applied: true, ..t },
                        SseDataV::Parsed(with_stream_content(v, t.is_chat, t.special_prefix + s)),
                    )
                } else {
                    (t, d)
                },
                None => (t, d),
            }
        } else {
            (t, d)
        },
        _ => (t, d),
    }
}

impl StreamTransform {
    /// A fresh splice state; `special_prefix` empty means no splicing.
    pub fn new(special_prefix: String, is_chat: bool) -> (r: StreamTransform)
        ensures
            r.deep_view() == (StreamTransformV {
                special_prefix: special_prefix@,
                prefix_applied: false,
                is_chat,
            }),
    {
        StreamTransform { special_prefix, prefix_applied: false, is_chat }
    }

    /// Passes one frame through the splice.
    pub fn transform(&mut self, d: SseData) -> (r: SseData)
        ensures
            (final(self).deep_view(), r.deep_view())
                == spec_transform(old(self).deep_view(), d.deep_view()),
    {
        let ghost dv = d.deep_view();
        if self.prefix_applied {
            return d;
        }
        if self.special_prefix.as_str().unicode_len() == 0 {
            return d;
        }
        let v: Json = match d {
            SseData::Parsed(v) => v,
            other => {
                return other;
            },
        };
        let content: Option<String> = {
            match v.get("choices") {
                Some(c) => match c.as_arr() {
                    Some(items) => if items.len() > 0 {
                        proof {
                            lemma_arr_view(items@);
                        }
                        let c0: &Json = &items[0];
                        if self.is_chat {
                            match c0.get("delta") {
                                Some(dd) => match dd.get("content") {
                                    Some(cv) => match cv.as_str() {
                                        Some(s) => Some(s.clone()),
                                        None => None,
                                    },
                                    None => None,
                                },
                                None => None,
                            }
                        } else {
                            match c0.get("text") {
                                Some(cv) => match cv.as_str() {
                                    Some(s) => Some(s.clone()),
                                    None => None,
                                },
                                None => None,
                            }
                        }
                    } else {
                        None
                    },
                    None => None,
                },
                None => None,
            }
        };
        let s: String = match content {
            Some(s) => s,
            None => {
                proof {
                    assert(stream_content(v.deep_view(), self.is_chat) is None);
                }
                return SseData::Parsed(v);
            },
        };
        if s.as_str().unicode_len() == 0 {
            return SseData::Parsed(v);
        }
        let spliced: String = self.special_prefix.clone().concat(s.as_str());
        let out: Json = set_content(v, self.is_chat, spliced);
        self.prefix_applied = true;
        SseData::Parsed(out)
    }
}

/// The chunk with its chosen content location replaced; callers
/// establish that the location exists.
fn set_content(v: Json, is_chat: bool, s: String) -> (r: Json)
    requires
        stream_content(v.deep_view(), is_chat) is Some,
    ensures
        r.deep_view() == with_stream_content(v.deep_view(), is_chat, s@),
{
    let ghost vv = v.deep_view();
    let c0: Json = match v.get("choices") {
        Some(c) => match c.as_arr() {
            Some(items) => {
                proof {
                    lemma_arr_view(items@);
                }
                items[0].duplicate()
            },
            None => vstd::pervasive::unreached(),
        },
        None => vstd::pervasive::unreached(),
    };
    if is_chat {
        let dd: Json = match c0.get("delta") {
            Some(dd) => dd.duplicate(),
            None => vstd::pervasive::unreached(),
        };
        let dd2: Json = dd.set("content", Json::Text(s));
        let c02: Json = c0.set("delta", dd2);
        set_choice0(v, c02)
    } else {
        let c02: Json = c0.set("text", Json::Text(s));
        set_choice0(v, c02)
    }
}

/// Splicing really prepends: when the splice fires, the content at the
/// chosen location of the output is the prefix followed by the old
/// content. (law)
pub proof fn lemma_splice_prepends(t: StreamTransformV, v: JsonV, s: Seq<char>)
    requires
        !t.prefix_applied,
        t.special_prefix.len() > 0,
        stream_content(v, t.is_chat) == Some(s),
        s.len() > 0,
    ensures
        stream_content(spec_transform(t, SseDataV::Parsed(v)).1->Parsed_0, t.is_chat)
            == Some(t.special_prefix + s),
{
    let out = with_stream_content(v, t.is_chat, t.special_prefix + s);
    let c0 = choice0(v)->0;
    let cs = jget(v, "choices"@)->0->Arr_0;
    lemma_jset_get(v, "choices"@, JsonV::Arr(cs.update(0, spliced_choice(v, t.is_chat, t.special_prefix + s))));
    if t.is_chat {
        let d = jget(c0, "delta"@)->0;
        let c0b = jset(c0, "delta"@, jset(d, "content"@, JsonV::Str(t.special_prefix + s)));
        lemma_jset_get(v, "choices"@, JsonV::Arr(cs.update(0, c0b)));
        lemma_jset_get(c0, "delta"@, jset(d, "content"@, JsonV::Str(t.special_prefix + s)));
        lemma_jset_get(d, "content"@, JsonV::Str(t.special_prefix + s));
    } else {
        let c0b = jset(c0, "text"@, JsonV::Str(t.special_prefix + s));
        lemma_jset_get(v, "choices"@, JsonV::Arr(cs.update(0, c0b)));
        lemma_jset_get(c0, "text"@, JsonV::Str(t.special_prefix + s));
    }
}

/// The choice that the splice writes back.
pub open spec fn spliced_choice(v: JsonV, is_chat: bool, s: Seq<char>) -> JsonV {
    let c0 = choice0(v)->0;
    if is_chat {
        jset(c0, "delta"@, jset(jget(c0, "delta"@)->0, "content"@, JsonV::Str(s)))
    } else {
        jset(c0, "text"@, JsonV::Str(s))
    }
}

/// How many frames of a stream the splice changes.
pub open spec fn num_spliced(t: StreamTransformV, ds: Seq<SseDataV>) -> int
    decreases ds.len(),
{
    if ds.len() == 0 {
        0
    } else {
        let (t2, out) = spec_transform(t, ds[0]);
        (if out == ds[0] { 0int } else { 1int })
            + num_spliced(t2, ds.subrange(1, ds.len() as int))
    }
}

proof fn lemma_applied_stable(t: StreamTransformV, ds: Seq<SseDataV>)
    requires
        t.prefix_applied,
    ensures
        num_spliced(t, ds) == 0,
    decreases ds.len(),
{
    if ds.len() > 0 {
        lemma_applied_stable(t, ds.subrange(1, ds.len() as int));
    }
}

/// At-most-one prefix: over any whole stream, the splice changes at
/// most one frame, and only by prepending the configured prefix to that
/// frame's content. (law)
pub proof fn lemma_at_most_one_splice(t: StreamTransformV, ds: Seq<SseDataV>)
    ensures
        num_spliced(t, ds) <= 1,
    decreases ds.len(),
{
    if ds.len() > 0 {
        let (t2, out) = spec_transform(t, ds[0]);
        let rest = ds.subrange(1, ds.len() as int);
        if out == ds[0] {
            assert(t2 == t || t2 == StreamTransformV { prefix_applied: true, ..t });
            if t2.prefix_applied {
                lemma_applied_stable(t2, rest);
            } else {
                lemma_at_most_one_splice(t2, rest);
            }
        } else {
            assert(t2.prefix_applied);
            lemma_applied_stable(t2, rest);
        }
    }
}

} // verus!

verus! {

/// One choice with the prefix prepended to its content field:
/// `message.content` for chat, `text` for completions; a choice without
/// a string there is untouched.
pub open spec fn prefixed_choice(c: JsonV, is_chat: bool, prefix: Seq<char>) -> JsonV {
    if is_chat {
        match jget(c, "message"@) {
            Some(m) => match jget(m, "content"@) {
                Some(JsonV::Str(s)) => jset(c, "message"@, jset(m, "content"@,
                    JsonV::Str(prefix + s))),
                _ => c,
            },
            None => c,
        }
    } else {
        match jget(c, "text"@) {
            Some(JsonV::Str(s)) => jset(c, "text"@, JsonV::Str(prefix + s)),
            _ => c,
        }
    }
}

/// A non-streaming body with the prefix prepended to the content of
/// every choice; a body without a `choices` array, or an empty prefix,
/// leaves it untouched.
pub open spec fn spec_apply_prefix(v: JsonV, prefix: Seq<char>, is_chat: bool) -> JsonV {
    if prefix.len() == 0 {
        v
    } else {
        match jget(v, "choices"@) {
            Some(JsonV::Arr(cs)) => jset(v, "choices"@,
                JsonV::Arr(Seq::new(cs.len(), |i: int| prefixed_choice(cs[i], is_chat, prefix)))),
            _ => v,
        }
    }
}

fn prefix_one_choice(c: Json, prefix: &str, is_chat: bool) -> (r: Json)
    ensures
        r.deep_view() == prefixed_choice(c.deep_view(), is_chat, prefix@),
{
    if is_chat {
        let new_content: Option<String> = match c.get("message") {
            Some(m) => match m.get("content") {
                Some(cv) => match cv.as_str() {
                    Some(s) => Some(prefix.to_owned().concat(s.as_str())),
                    None => None,
                },
                None => None,
            },
            None => None,
        };
        match new_content {
            Some(nc) => {
                let m: Json = match c.get("message") {
                    Some(m) => m.duplicate(),
                    None => vstd::pervasive::unreached(),
                };
                let m2: Json = m.set("content", Json::Text(nc));
                c.set("message", m2)
            },
            None => c,
        }
    } else {
        let new_content: Option<String> = match c.get("text") {
            Some(cv) => match cv.as_str() {
                Some(s) => Some(prefix.to_owned().concat(s.as_str())),
                None => None,
            },
            None => None,
        };
        match new_content {
            Some(nc) => c.set("text", Json::Text(nc)),
            None => c,
        }
    }
}

/// The non-streaming body with the configured prefix prepended to the
/// content of every choice.
pub fn apply_prefix_to_json(body: Json, prefix: &str, is_chat: bool) -> (r: Json)
    ensures
        r.deep_view() == spec_apply_prefix(body.deep_view(), prefix@, is_chat),
{
    let ghost bv = body.deep_view();
    if prefix.unicode_len() == 0 {
        return body;
    }
    let items: Vec<Json> = match body.get("choices") {
        Some(c) => match c.as_arr() {
            Some(items) => {
                proof {
                    lemma_arr_view(items@);
                }
                let n: usize = items.len();
                let ghost csv = items.deep_view();
                let mut out: Vec<Json> = Vec::new();
                let mut i: usize = 0;
                while i < n
                    invariant
                        n == items@.len(),
                        csv == items.deep_view(),
                        csv.len() == n,
                        i <= n,
                        out@.len() == i,
                        forall|k: int| 0 <= k < i
                            ==> #[trigger] out@[k].deep_view()
                                == prefixed_choice(csv[k], is_chat, prefix@),
                    decreases n - i,
                {
                    proof {
                        lemma_arr_view(items@);
                    }
                    let choice: Json = items[i].duplicate();
                    out.push(prefix_one_choice(choice, prefix, is_chat));
                    i = i + 1;
                }
                out
            },
            None => {
                return body;
            },
        },
        None => {
            return body;
        },
    };
    let arr: Json = Json::Arr(items);
    proof {
        lemma_arr_view(arr->Arr_0@);
        let cs = jget(bv, "choices"@)->0->Arr_0;
        assert(arr.deep_view()->Arr_0
            =~= Seq::new(cs.len(), |i: int| prefixed_choice(cs[i], is_chat, prefix@)));
    }
    body.set("choices", arr)
}

} // verus!

verus! {

/// The content location of one non-streaming choice:
/// `message.content` for chat, `text` for completions.
pub open spec fn choice_content(c: JsonV, is_chat: bool) -> Option<Seq<char>> {
    if is_chat {
        match jget(c, "message"@) {
            Some(m) => str_field(m, "content"@),
            None => None,
        }
    } else {
        str_field(c, "text"@)
    }
}

/// At-most-one prefix, non-streaming shape: a choice whose content is a
/// string comes out of the prefix pass with exactly the prefix
/// prepended to it, once; a choice without string content is untouched.
/// (law)
pub proof fn lemma_prefix_prepends(c: JsonV, is_chat: bool, prefix: Seq<char>, s: Seq<char>)
    requires
        choice_content(c, is_chat) == Some(s),
    ensures
        choice_content(prefixed_choice(c, is_chat, prefix), is_chat) == Some(prefix + s),
{
    if is_chat {
        let m = jget(c, "message"@)->0;
        lemma_jset_get(c, "message"@, jset(m, "content"@, JsonV::Str(prefix + s)));
        lemma_jset_get(m, "content"@, JsonV::Str(prefix + s));
    } else {
        lemma_jset_get(c, "text"@, JsonV::Str(prefix + s));
    }
}

/// The prefix pass rewrites every choice by `prefixed_choice` and
/// nothing else: the body's `choices` member of the result is exactly
/// the per-choice rewrite, so no choice is touched twice. (law)
pub proof fn lemma_apply_prefix_choices(v: JsonV, prefix: Seq<char>, is_chat: bool)
    requires
        prefix.len() > 0,
        jget(v, "choices"@) is Some,
        jget(v, "choices"@)->0 is Arr,
        v is Obj,
    ensures
        ({
            let cs = jget(v, "choices"@)->0->Arr_0;
            jget(spec_apply_prefix(v, prefix, is_chat), "choices"@)
                == Some(JsonV::Arr(
                    Seq::new(cs.len(), |i: int| prefixed_choice(cs[i], is_chat, prefix)),
                ))
        }),
{
    let cs = jget(v, "choices"@)->0->Arr_0;
    lemma_jset_get(v, "choices"@, JsonV::Arr(
        Seq::new(cs.len(), |i: int| prefixed_choice(cs[i], is_chat, prefix)),
    ));
}

} // verus!
