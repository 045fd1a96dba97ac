//! The chat message preprocessing applied before dispatch: whitespace
//! trimming with removal of messages left empty, merging of consecutive
//! user messages (the later one wins), and removal of `<think>` blocks
//! from assistant messages.

use vstd::prelude::*;
use crate::payload::{ChatCompletionRequest, ContentPart, ContentPartV, Message, MessageContent,
    MessageContentV, MessageV, RequestPayload};
use crate::strutil::{occurs_at, trim_spec};

verus! {

/// A part with its text trimmed, when it is a `text` part.
pub open spec fn trim_part(p: ContentPartV) -> ContentPartV {
    if p.part_type == "text"@ {
        match p.text {
            Some(t) => ContentPartV { text: Some(trim_spec(t)), ..p },
            None => p,
        }
    } else {
        p
    }
}

pub open spec fn trim_parts(ps: Seq<ContentPartV>) -> Seq<ContentPartV>
    decreases ps,
{
    if ps.len() == 0 {
        Seq::empty()
    } else {
        seq![trim_part(ps[0])] + trim_parts(ps.subrange(1, ps.len() as int))
    }
}

/// A message's content with its text trimmed.
pub open spec fn trim_content(c: MessageContentV) -> MessageContentV {
    match c {
        MessageContentV::Text(s) => MessageContentV::Text(trim_spec(s)),
        MessageContentV::Parts(ps) => MessageContentV::Parts(trim_parts(ps)),
    }
}

/// Whether the trimmed message counts as empty: an empty trimmed string,
/// or an empty part list; a message without content does not.
pub open spec fn trimmed_is_empty(m: MessageV) -> bool {
    match m.content {
        Some(MessageContentV::Text(s)) => trim_spec(s).len() == 0,
        Some(MessageContentV::Parts(ps)) => ps.len() == 0,
        None => false,
    }
}

/// The message after trimming.
pub open spec fn trim_message(m: MessageV) -> MessageV {
    match m.content {
        Some(c) => MessageV { content: Some(trim_content(c)), ..m },
        None => m,
    }
}

/// One message folded into the processed list: an empty message without
/// tool calls is dropped; a user message directly after a user message
/// replaces it; anything else is appended.
pub open spec fn process_step(acc: Seq<MessageV>, m: MessageV) -> Seq<MessageV> {
    let t = trim_message(m);
    if trimmed_is_empty(t) && m.tool_calls is None {
        acc
    } else if acc.len() > 0 && acc.last().role == "user"@ && t.role == "user"@ {
        acc.update(acc.len() - 1, t)
    } else {
        acc.push(t)
    }
}

pub open spec fn process_all(acc: Seq<MessageV>, ms: Seq<MessageV>) -> Seq<MessageV>
    decreases ms.len(),
{
    if ms.len() == 0 {
        acc
    } else {
        process_all(process_step(acc, ms[0]), ms.subrange(1, ms.len() as int))
    }
}

fn trim_message_exec(m: Message) -> (r: Message)
    ensures
        r.deep_view() == trim_message(m.deep_view()),
        r.deep_view().tool_calls is Some <==> m.deep_view().tool_calls is Some,
{
    let ghost mv = m.deep_view();
    let Message { role, content, tool_calls, tool_call_id } = m;
    let content: Option<MessageContent> = match content {
        Some(MessageContent::Text(s)) => {
            Some(MessageContent::Text(crate::strutil::trim(s.as_str())))
        },
        Some(MessageContent::Parts(ps)) => {
            let ghost psv = ps.deep_view();
            let n: usize = ps.len();
            let mut ps: Vec<ContentPart> = ps;
            let mut i: usize = 0;
            while i < n
                invariant
                    n == ps@.len(),
                    psv.len() == n,
                    i <= n,
                    forall|k: int| i <= k < n
                        ==> (#[trigger] ps@[k]).deep_view() == psv[k],
                    forall|k: int| 0 <= k < i
                        ==> (#[trigger] ps@[k]).deep_view() == trim_part(psv[k]),
                decreases n - i,
            {
                let is_text: bool = crate::strutil::eq_str(ps[i].part_type.as_str(), "text");
                if is_text {
                    let new_text: Option<String> = match &ps[i].text {
                        Some(t) => Some(crate::strutil::trim(t.as_str())),
                        None => None,
                    };
                    match new_text {
                        Some(t) => {
                            let part: &mut ContentPart = &mut ps[i];
                            part.text = Some(t);
                        },
                        None => {},
                    }
                }
                i = i + 1;
            }
            proof {
                lemma_trim_parts_pointwise(psv);
                assert(ps.deep_view() =~= trim_parts(psv));
            }
            Some(MessageContent::Parts(ps))
        },
        None => None,
    };
    Message { role, content, tool_calls, tool_call_id }
}

proof fn lemma_trim_parts_pointwise(ps: Seq<ContentPartV>)
    ensures
        trim_parts(ps).len() == ps.len(),
        forall|i: int| 0 <= i < ps.len() ==> trim_parts(ps)[i] == trim_part(ps[i]),
    decreases ps.len(),
{
    if ps.len() > 0 {
        let rest = ps.subrange(1, ps.len() as int);
        lemma_trim_parts_pointwise(rest);
        assert forall|i: int| 0 <= i < ps.len()
            implies trim_parts(ps)[i] == trim_part(ps[i]) by {
            if i > 0 {
                assert(rest[i - 1] == ps[i]);
                assert(trim_parts(ps)[i] == trim_parts(rest)[i - 1]);
            }
        }
    }
}

fn trimmed_is_empty_exec(m: &Message) -> (r: bool)
    requires
        m.deep_view() == trim_message(m.deep_view()),
    ensures
        r == trimmed_is_empty(m.deep_view()),
{
    match &m.content {
        Some(MessageContent::Text(s)) => {
            proof {
                crate::strutil::lemma_trim_idempotent(s@);
            }
            s.as_str().unicode_len() == 0
        },
        Some(MessageContent::Parts(ps)) => ps.len() == 0,
        None => false,
    }
}

/// Trims every message, drops those left empty without tool calls, and
/// merges runs of user messages down to their last member.
pub fn process_messages(messages: Vec<Message>) -> (r: Vec<Message>)
    ensures
        r.deep_view() == process_all(Seq::empty(), messages.deep_view()),
{
    let ghost msv = messages.deep_view();
    let n: usize = messages.len();
    let mut messages: Vec<Message> = messages;
    let mut out: Vec<Message> = Vec::new();
    let mut i: usize = 0;
    proof {
        assert(msv.subrange(0, n as int) =~= msv);
        assert(out.deep_view() =~= Seq::<MessageV>::empty());
    }
    while i < n
        invariant
            n == msv.len(),
            messages@.len() == n - i,
            forall|k: int| 0 <= k < n - i
                ==> (#[trigger] messages@[k]).deep_view() == msv[k + i],
            i <= n,
            process_all(out.deep_view(), msv.subrange(i as int, n as int))
                == process_all(Seq::empty(), msv),
        decreases n - i,
    {
        let ghost rest = msv.subrange(i as int, n as int);
        proof {
            assert(rest[0] == msv[i as int]);
            assert(rest.subrange(1, rest.len() as int) =~= msv.subrange(i + 1, n as int));
        }
        let m: Message = messages.remove(0);
        proof {
            assert(m.deep_view() == msv[i as int]);
        }
        let ghost had_tool_calls = m.deep_view().tool_calls is Some;
        let t: Message = trim_message_exec(m);
        proof {
            assert(trim_message(trim_message(msv[i as int])) == trim_message(msv[i as int]))
                by {
                lemma_trim_message_idempotent(msv[i as int]);
            }
        }
        let is_empty: bool = trimmed_is_empty_exec(&t);
        let has_tools: bool = match &t.tool_calls {
            Some(_) => true,
            None => false,
        };
        if is_empty && !has_tools {
        } else {
            let replace_last: bool = if out.len() > 0 {
                let last_user: bool = crate::strutil::eq_str(
                    out[out.len() - 1].role.as_str(), "user");
                let this_user: bool = crate::strutil::eq_str(t.role.as_str(), "user");
                last_user && this_user
            } else {
                false
            };
            if replace_last {
                let pos: usize = out.len() - 1;
                let ghost before = out.deep_view();
                out[pos] = t;
                proof {
                    assert(out.deep_view() =~= before.update(before.len() - 1,
                        trim_message(msv[i as int])));
                }
            } else {
                let ghost before = out.deep_view();
                out.push(t);
                proof {
                    assert(out.deep_view() =~= before.push(trim_message(msv[i as int])));
                }
            }
        }
        i = i + 1;
    }
    proof {
        assert(msv.subrange(n as int, n as int).len() == 0);
    }
    out
}

proof fn lemma_trim_message_idempotent(m: MessageV)
    ensures
        trim_message(trim_message(m)) == trim_message(m),
{
    match m.content {
        Some(MessageContentV::Text(s)) => {
            crate::strutil::lemma_trim_idempotent(s);
        },
        Some(MessageContentV::Parts(ps)) => {
            lemma_trim_parts_pointwise(ps);
            lemma_trim_parts_pointwise(trim_parts(ps));
            assert forall|i: int| 0 <= i < ps.len()
                implies trim_parts(trim_parts(ps))[i] == trim_parts(ps)[i] by {
                let p = ps[i];
                if p.part_type == "text"@ {
                    match p.text {
                        Some(t) => {
                            crate::strutil::lemma_trim_idempotent(t);
                        },
                        None => {},
                    }
                }
            }
            assert(trim_parts(trim_parts(ps)) =~= trim_parts(ps));
        },
        None => {},
    }
}

/// Whether a message survives the empty filter: non-blank string
/// content, a non-empty part list, or no content but tool calls.
pub open spec fn keeps_message(m: MessageV) -> bool {
    match m.content {
        Some(MessageContentV::Text(s)) => trim_spec(s).len() != 0,
        Some(MessageContentV::Parts(ps)) => ps.len() != 0,
        None => m.tool_calls is Some,
    }
}

/// Drops messages whose content is blank, keeping content-free messages
/// only when they carry tool calls.
pub fn filter_empty_messages(messages: Vec<Message>) -> (r: Vec<Message>)
    ensures
        r.deep_view() == messages.deep_view().filter(|m: MessageV| keeps_message(m)),
{
    let ghost pred = |m: MessageV| keeps_message(m);
    let ghost msv = messages.deep_view();
    let n: usize = messages.len();
    let mut messages: Vec<Message> = messages;
    let mut out: Vec<Message> = Vec::new();
    let mut i: usize = 0;
    proof {
        assert(msv.subrange(0, 0).filter(pred) =~= Seq::<MessageV>::empty());
        assert(out.deep_view() =~= Seq::<MessageV>::empty());
    }
    while i < n
        invariant
            n == msv.len(),
            messages@.len() == n - i,
            forall|k: int| 0 <= k < n - i
                ==> (#[trigger] messages@[k]).deep_view() == msv[k + i],
            i <= n,
            out.deep_view() == msv.subrange(0, i as int).filter(pred),
            pred == (|m: MessageV| keeps_message(m)),
        decreases n - i,
    {
        let ghost prefix = msv.subrange(0, i as int);
        let ghost next = msv.subrange(0, i + 1);
        proof {
            assert(next.drop_last() =~= prefix);
            assert(next.last() == msv[i as int]);
            reveal(Seq::filter);
        }
        let m: Message = messages.remove(0);
        proof {
            assert(m.deep_view() == msv[i as int]);
        }
        let keep: bool = match &m.content {
            Some(MessageContent::Text(s)) => {
                let trimmed: String = crate::strutil::trim(s.as_str());
                trimmed.as_str().unicode_len() != 0
            },
            Some(MessageContent::Parts(ps)) => ps.len() != 0,
            None => match &m.tool_calls {
                Some(_) => true,
                None => false,
            },
        };
        if keep {
            let ghost before = out.deep_view();
            out.push(m);
            proof {
                assert(out.deep_view() =~= before.push(msv[i as int]));
                assert(next.filter(pred) == prefix.filter(pred).push(next.last()));
            }
        } else {
            proof {
                assert(next.filter(pred) == prefix.filter(pred));
            }
        }
        i = i + 1;
    }
    proof {
        assert(msv.subrange(0, n as int) =~= msv);
    }
    out
}

} // verus!

verus! {

/// Position of the first occurrence of `p` in `s` at or after `from`.
pub open spec fn find_idx(s: Seq<char>, p: Seq<char>, from: int) -> Option<int>
    decreases s.len() - from,
{
    if from < 0 || p.len() == 0 || from + p.len() > s.len() {
        None
    } else if occurs_at(s, p, from) {
        Some(from)
    } else {
        find_idx(s, p, from + 1)
    }
}

proof fn lemma_find_idx_char(s: Seq<char>, p: Seq<char>, from: int)
    requires
        0 <= from,
        p.len() > 0,
    ensures
        match find_idx(s, p, from) {
            Some(i) => crate::strutil::first_occurrence_from(s, p, from, i),
            None => forall|k: int| from <= k ==> !occurs_at(s, p, k),
        },
    decreases s.len() - from,
{
    if p.len() == 0 || from + p.len() > s.len() {
    } else if occurs_at(s, p, from) {
    } else {
        lemma_find_idx_char(s, p, from + 1);
    }
}

proof fn lemma_find_agree(s: Seq<char>, p: Seq<char>, from: int, r: Option<int>)
    requires
        0 <= from,
        p.len() > 0,
        match r {
            Some(i) => crate::strutil::first_occurrence_from(s, p, from, i),
            None => forall|k: int| from <= k ==> !occurs_at(s, p, k),
        },
    ensures
        find_idx(s, p, from) == r,
{
    lemma_find_idx_char(s, p, from);
    match (r, find_idx(s, p, from)) {
        (Some(i), Some(j)) => {
            if i < j {
                assert(!occurs_at(s, p, i));
            }
            if j < i {
                assert(!occurs_at(s, p, j));
            }
        },
        (Some(i), None) => {
            assert(!occurs_at(s, p, i));
        },
        (None, Some(j)) => {
            assert(!occurs_at(s, p, j));
        },
        (None, None) => {},
    }
}

/// `s` with every `<think>` block removed: scanning left to right, a
/// `<think>` opening with a later `</think>` closing is removed together
/// with everything between them; an opening without a closing leaves the
/// rest untouched.
pub open spec fn remove_think(s: Seq<char>) -> Seq<char>
    decreases s.len(),
    via remove_think_dec
{
    match find_idx(s, "<think>"@, 0) {
        Some(i) => match find_idx(s, "</think>"@, i + 7) {
            Some(k) => s.subrange(0, i) + remove_think(s.subrange(k + 8, s.len() as int)),
            None => s,
        },
        None => s,
    }
}

#[via_fn]
proof fn remove_think_dec(s: Seq<char>) {
    reveal_strlit("<think>");
    reveal_strlit("</think>");
    match find_idx(s, "<think>"@, 0) {
        Some(i) => {
            lemma_find_idx_char(s, "<think>"@, 0);
            match find_idx(s, "</think>"@, i + 7) {
                Some(k) => {
                    lemma_find_idx_char(s, "</think>"@, i + 7);
                },
                None => {},
            }
        },
        None => {},
    }
}

/// Removes every `<think>` block from one string.
fn remove_think_str(s: &str) -> (r: String)
    ensures
        r@ == remove_think(s@),
    decreases s@.len(),
{
    proof {
        reveal_strlit("<think>");
        reveal_strlit("</think>");
        assert("<think>"@.len() == 7);
        assert("</think>"@.len() == 8);
    }
    let n: usize = s.unicode_len();
    let sv: Vec<char> = crate::strutil::to_chars(s);
    let open: Vec<char> = crate::strutil::to_chars("<think>");
    let close: Vec<char> = crate::strutil::to_chars("</think>");
    let open_at: Option<usize> = crate::strutil::find_from(&sv, &open, 0);
    proof {
        lemma_find_agree(s@, "<think>"@, 0, match open_at {
            Some(i) => Some(i as int),
            None => None,
        });
    }
    let i: usize = match open_at {
        Some(i) => i,
        None => {
            return s.to_owned();
        },
    };
    proof {
        assert(i + 7 <= n);
    }
    let close_at: Option<usize> = crate::strutil::find_from(&sv, &close, i + 7);
    proof {
        lemma_find_agree(s@, "</think>"@, i + 7, match close_at {
            Some(k) => Some(k as int),
            None => None,
        });
    }
    let k: usize = match close_at {
        Some(k) => k,
        None => {
            return s.to_owned();
        },
    };
    let prefix: &str = s.substring_char(0, i);
    let rest: &str = s.substring_char(k + 8, n);
    let tail: String = remove_think_str(rest);
    prefix.to_owned().concat(tail.as_str())
}

/// A message with `<think>` blocks removed from its content, when it is
/// an assistant message with string content.
pub open spec fn strip_think_message(m: MessageV) -> MessageV {
    if m.role == "assistant"@ {
        match m.content {
            Some(MessageContentV::Text(s)) => MessageV {
                content: Some(MessageContentV::Text(remove_think(s))),
                ..m
            },
            _ => m,
        }
    } else {
        m
    }
}

/// Removes `<think>` blocks from the assistant messages.
pub fn remove_think_tags(messages: Vec<Message>) -> (r: Vec<Message>)
    ensures
        r.deep_view().len() == messages.deep_view().len(),
        forall|i: int| 0 <= i < messages.deep_view().len()
            ==> r.deep_view()[i] == strip_think_message(messages.deep_view()[i]),
{
    let ghost msv = messages.deep_view();
    let n: usize = messages.len();
    let mut messages: Vec<Message> = messages;
    let mut out: Vec<Message> = Vec::new();
    let mut i: usize = 0;
    while i < n
        invariant
            n == msv.len(),
            messages@.len() == n - i,
            forall|k: int| 0 <= k < n - i
                ==> (#[trigger] messages@[k]).deep_view() == msv[k + i],
            i <= n,
            out@.len() == i,
            forall|k: int| 0 <= k < i
                ==> (#[trigger] out@[k]).deep_view() == strip_think_message(msv[k]),
        decreases n - i,
    {
        let m: Message = messages.remove(0);
        proof {
            assert(m.deep_view() == msv[i as int]);
        }
        let is_assistant: bool = crate::strutil::eq_str(m.role.as_str(), "assistant");
        let m2: Message = if is_assistant {
            match m.content {
                Some(MessageContent::Text(s)) => {
                    let stripped: String = remove_think_str(s.as_str());
                    Message {
                        role: m.role,
                        content: Some(MessageContent::Text(stripped)),
                        tool_calls: m.tool_calls,
                        tool_call_id: m.tool_call_id,
                    }
                },
                other => Message {
                    role: m.role,
                    content: other,
                    tool_calls: m.tool_calls,
                    tool_call_id: m.tool_call_id,
                },
            }
        } else {
            m
        };
        out.push(m2);
        i = i + 1;
    }
    out
}

/// The chat preprocessing pipeline: trim and merge, drop empties, strip
/// think blocks. Payloads of other kinds pass through unchanged.
pub fn prepare_chat_request(payload: RequestPayload) -> (r: RequestPayload)
    ensures
        match (&payload, &r) {
            (RequestPayload::Chat(p), RequestPayload::Chat(q)) => {
                let processed = process_all(Seq::empty(), p.messages.deep_view());
                let filtered = processed.filter(|m: MessageV| keeps_message(m));
                &&& q.messages.deep_view().len() == filtered.len()
                &&& forall|i: int| 0 <= i < filtered.len()
                    ==> q.messages.deep_view()[i] == strip_think_message(filtered[i])
                &&& q.model == p.model
                &&& q.stream == p.stream
                &&& q.temperature == p.temperature
                &&& q.max_tokens == p.max_tokens
                &&& q.stop == p.stop
                &&& q.tools == p.tools
                &&& q.chat_template_kwargs == p.chat_template_kwargs
            },
            (RequestPayload::Completion(_), RequestPayload::Completion(q2)) => r == payload,
            (RequestPayload::Embedding(_), _) => r == payload,
            (RequestPayload::Rerank(_), _) => r == payload,
            (RequestPayload::Score(_), _) => r == payload,
            (RequestPayload::Classify(_), _) => r == payload,
            _ => false,
        },
{
    match payload {
        RequestPayload::Chat(p) => {
            let ChatCompletionRequest {
                model, messages, stream, temperature, max_tokens, stop, tools,
                chat_template_kwargs,
            } = p;
            let processed: Vec<Message> = process_messages(messages);
            let filtered: Vec<Message> = filter_empty_messages(processed);
            let stripped: Vec<Message> = remove_think_tags(filtered);
            RequestPayload::Chat(ChatCompletionRequest {
                model,
                messages: stripped,
                stream,
                temperature,
                max_tokens,
                stop,
                tools,
                chat_template_kwargs,
            })
        },
        other => other,
    }
}

} // verus!
