//! The error taxonomy and its wire envelope. Every internal failure maps
//! to one kind; a failed flow answers with a single JSON body
//! `{"error": <message>, "error_type": <type>}` under the mapped status,
//! even when the request had asked for a stream.

use vstd::prelude::*;
use crate::json::{Json, JsonV, jget, jstr, lemma_obj_view};

verus! {

/// How an upstream round-trip failed at the transport level.
pub enum TransportKind {
    Timeout,
    Connect,
    Status(u16),
    Other,
}

/// The error taxonomy.
pub enum AppError {
    Upstream(TransportKind, String),
    DatabaseError(String),
    ClientNotFound(String),
    UpstreamError(String),
    InvalidHeader(String),
    InternalServerError(String),
    ApiError(u16, String, String),
}

pub enum AppErrorV {
    Upstream(TransportKind, Seq<char>),
    DatabaseError(Seq<char>),
    ClientNotFound(Seq<char>),
    UpstreamError(Seq<char>),
    InvalidHeader(Seq<char>),
    InternalServerError(Seq<char>),
    ApiError(u16, Seq<char>, Seq<char>),
}

impl DeepView for AppError {
    type V = AppErrorV;

    open spec fn deep_view(&self) -> AppErrorV {
        match self {
            AppError::Upstream(k, m) => AppErrorV::Upstream(*k, m@),
            AppError::DatabaseError(m) => AppErrorV::DatabaseError(m@),
            AppError::ClientNotFound(m) => AppErrorV::ClientNotFound(m@),
            AppError::UpstreamError(m) => AppErrorV::UpstreamError(m@),
            AppError::InvalidHeader(m) => AppErrorV::InvalidHeader(m@),
            AppError::InternalServerError(m) => AppErrorV::InternalServerError(m@),
            AppError::ApiError(s, m, t) => AppErrorV::ApiError(*s, m@, t@),
        }
    }
}

/// The status, user-visible message and error type for each kind:
/// a network timeout is 504, a connection failure 502, an upstream
/// status passes through, an unknown model is 422, a bad header 400,
/// and everything else 500.
pub open spec fn spec_error_parts(e: AppErrorV) -> (u16, Seq<char>, Seq<char>) {
    match e {
        AppErrorV::Upstream(TransportKind::Timeout, m) =>
            (504, "Request to upstream timed out: "@ + m, "timeout_error"@),
        AppErrorV::Upstream(TransportKind::Connect, m) =>
            (502, "Failed to connect to upstream: "@ + m, "connection_error"@),
        AppErrorV::Upstream(TransportKind::Status(s), m) =>
            (s, "Upstream returned error: "@ + m, "upstream_error"@),
        AppErrorV::Upstream(TransportKind::Other, m) =>
            (500, "External request failed: "@ + m, "internal_error"@),
        AppErrorV::DatabaseError(m) =>
            (500, "Database operation failed: "@ + m, "database_error"@),
        AppErrorV::ClientNotFound(model) =>
            (422, "The model `"@ + model + "` does not exist."@, "Input Validation Error"@),
        AppErrorV::UpstreamError(m) => (502, m, "upstream_error"@),
        AppErrorV::InvalidHeader(m) => (400, m, "invalid_request_error"@),
        AppErrorV::InternalServerError(m) => (500, m, "internal_error"@),
        AppErrorV::ApiError(s, m, t) => (s, m, t),
    }
}

/// The envelope body for a message and type.
pub open spec fn spec_error_body(message: Seq<char>, error_type: Seq<char>) -> JsonV {
    JsonV::Obj(seq![
        ("error"@, JsonV::Str(message)),
        ("error_type"@, JsonV::Str(error_type)),
    ])
}

impl AppError {
    /// The HTTP status, envelope body and message of the error, for the
    /// process to send; the message also feeds the access-log metadata.
    pub fn to_response_parts(&self) -> (r: (u16, Json, String))
        ensures
            ({
                let (status, message, error_type) = spec_error_parts(self.deep_view());
                r.0 == status && r.2@ == message
                    && r.1.deep_view() == spec_error_body(message, error_type)
            }),
    {
        let (status, message, error_type): (u16, String, String) = match self {
            AppError::Upstream(TransportKind::Timeout, m) => (
                504,
                String::from_str("Request to upstream timed out: ").concat(m.as_str()),
                String::from_str("timeout_error"),
            ),
            AppError::Upstream(TransportKind::Connect, m) => (
                502,
                String::from_str("Failed to connect to upstream: ").concat(m.as_str()),
                String::from_str("connection_error"),
            ),
            AppError::Upstream(TransportKind::Status(s), m) => (
                *s,
                String::from_str("Upstream returned error: ").concat(m.as_str()),
                String::from_str("upstream_error"),
            ),
            AppError::Upstream(TransportKind::Other, m) => (
                500,
                String::from_str("External request failed: ").concat(m.as_str()),
                String::from_str("internal_error"),
            ),
            AppError::DatabaseError(m) => (
                500,
                String::from_str("Database operation failed: ").concat(m.as_str()),
                String::from_str("database_error"),
            ),
            AppError::ClientNotFound(model) => (
                422,
                String::from_str("The model `").concat(model.as_str())
                    .concat("` does not exist."),
                String::from_str("Input Validation Error"),
            ),
            AppError::UpstreamError(m) => (
                502,
                m.clone(),
                String::from_str("upstream_error"),
            ),
            AppError::InvalidHeader(m) => (
                400,
                m.clone(),
                String::from_str("invalid_request_error"),
            ),
            AppError::InternalServerError(m) => (
                500,
                m.clone(),
                String::from_str("internal_error"),
            ),
            AppError::ApiError(s, m, t) => (*s, m.clone(), t.clone()),
        };
        let body: Json = error_body(message.as_str(), error_type.as_str());
        (status, body, message)
    }
}

/// The envelope body `{"error": message, "error_type": error_type}`.
pub fn error_body(message: &str, error_type: &str) -> (r: Json)
    ensures
        r.deep_view() == spec_error_body(message@, error_type@),
{
    let mut pairs: Vec<(String, Json)> = Vec::new();
    pairs.push((String::from_str("error"), Json::Text(message.to_owned())));
    pairs.push((String::from_str("error_type"), Json::Text(error_type.to_owned())));
    let r = Json::Obj(pairs);
    proof {
        lemma_obj_view(r->Obj_0@);
        assert(r.deep_view()->Obj_0 =~= spec_error_body(message@, error_type@)->Obj_0);
    }
    r
}

/// The message a failing upstream body yields for the access log:
/// `error.message` when the body nests one, the `error` string when it
/// is flat; `None` tells the caller to fall back to the compact
/// serialization of the whole body.
pub open spec fn spec_error_msg(v: JsonV) -> Option<Seq<char>> {
    match jget(v, "error"@) {
        Some(e) => match jget(e, "message"@) {
            Some(m) => match jstr(m) {
                Some(s) => Some(s),
                None => jstr(e),
            },
            None => jstr(e),
        },
        None => None,
    }
}

/// Extracts the error message of a failing upstream body; `None` means
/// the caller logs the compact serialization of the whole body instead.
pub fn extract_error_msg(body: &Json) -> (r: Option<String>)
    ensures
        match r {
            Some(s) => spec_error_msg(body.deep_view()) == Some(s@),
            None => spec_error_msg(body.deep_view()) is None,
        },
{
    match body.get("error") {
        Some(e) => {
            match e.get("message") {
                Some(m) => match m.as_str() {
                    Some(s) => {
                        return Some(s.clone());
                    },
                    None => {},
                },
                None => {},
            }
            match e.as_str() {
                Some(s) => Some(s.clone()),
                None => None,
            }
        },
        None => None,
    }
}

/// A string truncated for the log: longer than 500 characters keeps the
/// first 500 and an elision marker.
pub open spec fn spec_truncate_str(s: Seq<char>) -> Seq<char> {
    if s.len() > 500 {
        s.subrange(0, 500) + "...[TRUNCATED]"@
    } else {
        s
    }
}

/// The elements truncated elementwise.
pub open spec fn truncate_arr(items: Seq<JsonV>) -> Seq<JsonV>
    decreases items,
{
    if items.len() == 0 {
        Seq::empty()
    } else {
        seq![spec_truncate(items[0])] + truncate_arr(items.subrange(1, items.len() as int))
    }
}

/// The members truncated valuewise.
pub open spec fn truncate_obj(pairs: Seq<(Seq<char>, JsonV)>) -> Seq<(Seq<char>, JsonV)>
    decreases pairs,
{
    if pairs.len() == 0 {
        Seq::empty()
    } else {
        seq![(pairs[0].0, spec_truncate(pairs[0].1))]
            + truncate_obj(pairs.subrange(1, pairs.len() as int))
    }
}

/// A document truncated for the log: long strings elided, arrays capped
/// at ten items with a summary marker, objects truncated memberwise.
pub open spec fn spec_truncate(v: JsonV) -> JsonV
    decreases v,
{
    match v {
        JsonV::Str(s) => JsonV::Str(spec_truncate_str(s)),
        JsonV::Arr(items) => if items.len() > 10 {
            JsonV::Arr(
                truncate_arr(items.subrange(0, 10)).push(
                    JsonV::Str("...[TRUNCATED: "@ + crate::strutil::dec_spec(items.len() as nat)
                        + " items]"@),
                ),
            )
        } else {
            JsonV::Arr(truncate_arr(items))
        },
        JsonV::Obj(pairs) => JsonV::Obj(truncate_obj(pairs)),
        _ => v,
    }
}

pub broadcast proof fn lemma_truncate_arr(items: Seq<JsonV>)
    ensures
        (#[trigger] truncate_arr(items)).len() == items.len(),
        forall|i: int| 0 <= i < items.len()
            ==> truncate_arr(items)[i] == spec_truncate(items[i]),
    decreases items.len(),
{
    if items.len() > 0 {
        let rest = items.subrange(1, items.len() as int);
        lemma_truncate_arr(rest);
        assert forall|i: int| 0 <= i < items.len()
            implies truncate_arr(items)[i] == spec_truncate(items[i]) by {
            if i > 0 {
                assert(rest[i - 1] == items[i]);
                assert(truncate_arr(items)[i] == truncate_arr(rest)[i - 1]);
            }
        }
    }
}

pub broadcast proof fn lemma_truncate_obj(pairs: Seq<(Seq<char>, JsonV)>)
    ensures
        (#[trigger] truncate_obj(pairs)).len() == pairs.len(),
        forall|i: int| 0 <= i < pairs.len()
            ==> truncate_obj(pairs)[i] == (pairs[i].0, spec_truncate(pairs[i].1)),
    decreases pairs.len(),
{
    if pairs.len() > 0 {
        let rest = pairs.subrange(1, pairs.len() as int);
        lemma_truncate_obj(rest);
        assert forall|i: int| 0 <= i < pairs.len()
            implies truncate_obj(pairs)[i] == (pairs[i].0, spec_truncate(pairs[i].1)) by {
            if i > 0 {
                assert(rest[i - 1] == pairs[i]);
                assert(truncate_obj(pairs)[i] == truncate_obj(rest)[i - 1]);
            }
        }
    }
}

/// Truncates a request body for the failure log.
pub fn truncate_json(v: &Json) -> (r: Json)
    ensures
        r.deep_view() == spec_truncate(v.deep_view()),
    decreases *v,
{
    broadcast use crate::json::lemma_arr_view, crate::json::lemma_obj_view;

    match v {
        Json::Text(s) => {
            let n: usize = s.as_str().unicode_len();
            if n > 500 {
                let head: String = s.as_str().substring_char(0, 500).to_owned();
                let marked: String = head.concat("...[TRUNCATED]");
                Json::Text(marked)
            } else {
                Json::Text(s.clone())
            }
        },
        Json::Arr(items) => {
            let n: usize = items.len();
            let keep: usize = if n > 10 {
                10
            } else {
                n
            };
            let mut out: Vec<Json> = Vec::new();
            let mut i: usize = 0;
            while i < keep
                invariant
                    keep <= n,
                    n == items@.len(),
                    i <= keep,
                    out@.len() == i,
                    *v == Json::Arr(*items),
                    forall|k: int| 0 <= k < i
                        ==> (#[trigger] out@[k]).deep_view()
                            == spec_truncate(crate::json::arr_view(items@)[k]),
                decreases keep - i,
            {
                proof {
                    assert(decreases_to!(*v => v->Arr_0));
                    assert(decreases_to!(*items => items@));
                    assert(decreases_to!(items@ => items@[i as int]));
                    crate::json::lemma_arr_view(items@);
                }
                let elem: Json = truncate_json(&items[i]);
                out.push(elem);
                i = i + 1;
            }
            if n > 10 {
                let count: String = crate::strutil::u64_to_dec(n as u64);
                let marker: String = String::from_str("...[TRUNCATED: ").concat(count.as_str())
                    .concat(" items]");
                out.push(Json::Text(marker));
                let r = Json::Arr(out);
                proof {
                    crate::json::lemma_arr_view(items@);
                    crate::json::lemma_arr_view(r->Arr_0@);
                    let iv = crate::json::arr_view(items@);
                    lemma_truncate_arr(iv.subrange(0, 10));
                    assert(forall|k: int| 0 <= k < 10
                        ==> iv.subrange(0, 10)[k] == iv[k]);
                    assert(r.deep_view()->Arr_0
                        =~= spec_truncate(v.deep_view())->Arr_0);
                }
                r
            } else {
                let r = Json::Arr(out);
                proof {
                    crate::json::lemma_arr_view(items@);
                    crate::json::lemma_arr_view(r->Arr_0@);
                    let iv = crate::json::arr_view(items@);
                    lemma_truncate_arr(iv);
                    assert(r.deep_view()->Arr_0
                        =~= spec_truncate(v.deep_view())->Arr_0);
                }
                r
            }
        },
        Json::Obj(pairs) => {
            let n: usize = pairs.len();
            let mut out: Vec<(String, Json)> = Vec::new();
            let mut i: usize = 0;
            while i < n
                invariant
                    n == pairs@.len(),
                    i <= n,
                    out@.len() == i,
                    *v == Json::Obj(*pairs),
                    forall|k: int| 0 <= k < i
                        ==> (#[trigger] out@[k]).0@ == crate::json::obj_view(pairs@)[k].0
                            && out@[k].1.deep_view()
                                == spec_truncate(crate::json::obj_view(pairs@)[k].1),
                decreases n - i,
            {
                proof {
                    assert(decreases_to!(*v => v->Obj_0));
                    assert(decreases_to!(*pairs => pairs@));
                    assert(decreases_to!(pairs@ => pairs@[i as int]));
                    assert(decreases_to!(pairs@[i as int] => pairs@[i as int].1));
                    crate::json::lemma_obj_view(pairs@);
                }
                let key: String = pairs[i].0.clone();
                let val: Json = truncate_json(&pairs[i].1);
                out.push((key, val));
                i = i + 1;
            }
            let r = Json::Obj(out);
            proof {
                crate::json::lemma_obj_view(pairs@);
                crate::json::lemma_obj_view(r->Obj_0@);
                lemma_truncate_obj(crate::json::obj_view(pairs@));
                assert(r.deep_view()->Obj_0 =~= spec_truncate(v.deep_view())->Obj_0);
            }
            r
        },
        Json::Null => Json::Null,
        Json::Bool(b) => Json::Bool(*b),
        Json::Int(i) => Json::Int(*i),
        Json::UInt(u) => Json::UInt(*u),
        Json::NumText(s) => Json::NumText(s.clone()),
    }
}

} // verus!

verus! {

/// One name in quotes.
pub open spec fn quoted(n: Seq<char>) -> Seq<char> {
    seq!['"'] + n + seq!['"']
}

/// The quoted names, comma separated.
pub open spec fn quoted_items(ns: Seq<Seq<char>>) -> Seq<char>
    decreases ns.len(),
{
    if ns.len() == 0 {
        Seq::empty()
    } else if ns.len() == 1 {
        quoted(ns[0])
    } else {
        quoted(ns[0]) + ", "@ + quoted_items(ns.subrange(1, ns.len() as int))
    }
}

/// The list rendering of the tried provider names.
pub open spec fn quoted_list(ns: Seq<Seq<char>>) -> Seq<char> {
    seq!['['] + quoted_items(ns) + seq![']']
}

/// The message of the synthesized all-failed error, naming the model
/// and the providers tried, in attempt order.
pub fn exhaustion_message(model: &str, tried: &Vec<String>) -> (r: String)
    ensures
        r@ == "All upstream providers failed for model '"@ + model@
            + "'. Tried clients: "@ + quoted_list(tried.deep_view()),
{
    proof {
        reveal_strlit("[");
        reveal_strlit("]");
        reveal_strlit("\"");
        reveal_strlit(", ");
    }
    let mut list: String = String::from_str("[");
    let n: usize = tried.len();
    let mut i: usize = 0;
    proof {
        assert(list@ =~= seq!['[']);
        assert(seq!['['] + quoted_items(tried.deep_view().subrange(0, 0))
            =~= list@);
    }
    while i < n
        invariant
            n == tried@.len(),
            i <= n,
            list@ == seq!['['] + quoted_items(tried.deep_view().subrange(0, i as int)),
        decreases n - i,
    {
        proof {
            reveal_strlit("\"");
            reveal_strlit(", ");
        }
        if i > 0 {
            list = list.concat(", ");
        }
        list = list.concat("\"").concat(tried[i].as_str()).concat("\"");
        proof {
            let prefix = tried.deep_view().subrange(0, i as int);
            let next = tried.deep_view().subrange(0, i + 1);
            lemma_quoted_items_snoc(prefix, tried.deep_view()[i as int]);
            assert(next =~= prefix.push(tried.deep_view()[i as int]));
            assert(tried.deep_view()[i as int] == tried@[i as int]@);
            assert(list@ =~= seq!['['] + quoted_items(next));
        }
        i = i + 1;
    }
    let list: String = list.concat("]");
    proof {
        assert(tried.deep_view().subrange(0, n as int) =~= tried.deep_view());
        assert(list@ =~= quoted_list(tried.deep_view()));
    }
    let r: String = String::from_str("All upstream providers failed for model '")
        .concat(model)
        .concat("'. Tried clients: ")
        .concat(list.as_str());
    r
}

proof fn lemma_quoted_items_snoc(ns: Seq<Seq<char>>, x: Seq<char>)
    ensures
        quoted_items(ns.push(x)) =~= (if ns.len() == 0 {
            quoted(x)
        } else {
            quoted_items(ns) + ", "@ + quoted(x)
        }),
    decreases ns.len(),
{
    let ext = ns.push(x);
    if ns.len() == 0 {
        assert(ext.len() == 1);
        assert(ext[0] == x);
    } else {
        assert(ext[0] == ns[0]);
        assert(ext.subrange(1, ext.len() as int) =~= ns.subrange(1, ns.len() as int).push(x));
        lemma_quoted_items_snoc(ns.subrange(1, ns.len() as int), x);
        if ns.len() == 1 {
            assert(quoted_items(ext)
                =~= quoted(ns[0]) + ", "@ + quoted(x));
        }
    }
}

} // verus!
