//! The request-side glue that the routes share: the upstream URL, the
//! outbound credential, the caller's address, and input validation.

use vstd::prelude::*;
use crate::json::{Json, JsonV};
use crate::payload::RequestPayload;
use crate::strutil::{before_char, remove_all_spec, trim_spec, has_prefix};

verus! {

/// The outbound endpoint path of each payload kind, and whether the
/// payload is a chat.
pub fn endpoint_path(payload: &RequestPayload) -> (r: (&'static str, bool))
    ensures
        match payload {
            RequestPayload::Chat(_) => r.0@ == "chat/completions"@ && r.1,
            RequestPayload::Completion(_) => r.0@ == "completions"@ && !r.1,
            RequestPayload::Embedding(_) => r.0@ == "embeddings"@ && !r.1,
            RequestPayload::Rerank(_) => r.0@ == "rerank"@ && !r.1,
            RequestPayload::Score(_) => r.0@ == "score"@ && !r.1,
            RequestPayload::Classify(_) => r.0@ == "classify"@ && !r.1,
        },
{
    match payload {
        RequestPayload::Chat(_) => ("chat/completions", true),
        RequestPayload::Completion(_) => ("completions", false),
        RequestPayload::Embedding(_) => ("embeddings", false),
        RequestPayload::Rerank(_) => ("rerank", false),
        RequestPayload::Score(_) => ("score", false),
        RequestPayload::Classify(_) => ("classify", false),
    }
}

/// `s` without its trailing `/` characters.
pub open spec fn strip_trailing_slashes(s: Seq<char>) -> Seq<char>
    decreases s.len(),
{
    if s.len() > 0 && s[s.len() - 1] == '/' {
        strip_trailing_slashes(s.subrange(0, s.len() - 1))
    } else {
        s
    }
}

/// The upstream URL: the base with trailing slashes stripped, one `/`,
/// and the endpoint path.
pub fn build_upstream_url(base_url: &str, path: &str) -> (r: String)
    ensures
        r@ == strip_trailing_slashes(base_url@) + "/"@ + path@,
{
    let v: Vec<char> = crate::strutil::to_chars(base_url);
    let n: usize = v.len();
    let mut end: usize = n;
    proof {
        assert(base_url@.subrange(0, n as int) =~= base_url@);
    }
    while end > 0 && v[end - 1] == '/'
        invariant
            n == v@.len(),
            v@ == base_url@,
            end <= n,
            strip_trailing_slashes(base_url@.subrange(0, end as int))
                == strip_trailing_slashes(base_url@),
        decreases end,
    {
        proof {
            let cur = base_url@.subrange(0, end as int);
            assert(cur[cur.len() - 1] == base_url@[end - 1]);
            assert(cur.subrange(0, cur.len() - 1) =~= base_url@.subrange(0, end - 1));
        }
        end = end - 1;
    }
    proof {
        let cur = base_url@.subrange(0, end as int);
        if end > 0 {
            assert(cur[cur.len() - 1] == base_url@[end - 1]);
        }
        assert(strip_trailing_slashes(cur) == cur);
    }
    let stripped: &str = base_url.substring_char(0, end);
    let r: String = stripped.to_owned().concat("/").concat(path);
    r
}

/// The outbound credential: the provider's configured key when it is
/// non-empty, else the inbound bearer token with every `Bearer ` tag
/// removed, kept only when non-empty.
pub open spec fn spec_api_key(cfg_key: Option<Seq<char>>, auth: Option<Seq<char>>)
    -> Option<Seq<char>>
{
    match cfg_key {
        Some(k) if k.len() > 0 => Some(k),
        _ => match auth {
            Some(a) => {
                let stripped = remove_all_spec(a, "Bearer "@);
                if stripped.len() > 0 {
                    Some(stripped)
                } else {
                    None
                }
            },
            None => None,
        },
    }
}

/// Picks the outbound credential from the provider's configured key and
/// the inbound `Authorization` header value.
pub fn get_api_key(cfg_key: &Option<String>, auth_header: Option<&str>) -> (r: Option<String>)
    ensures
        match r {
            Some(s) => spec_api_key(cfg_key.deep_view(), match auth_header {
                Some(a) => Some(a@),
                None => None,
            }) == Some(s@),
            None => spec_api_key(cfg_key.deep_view(), match auth_header {
                Some(a) => Some(a@),
                None => None,
            }) is None,
        },
{
    match cfg_key {
        Some(k) => {
            if k.as_str().unicode_len() > 0 {
                return Some(k.clone());
            }
        },
        None => {},
    }
    match auth_header {
        Some(a) => {
            proof {
                reveal_strlit("Bearer ");
                assert("Bearer "@.len() == 7);
            }
            let stripped: String = crate::strutil::remove_all(a, "Bearer ");
            if stripped.as_str().unicode_len() > 0 {
                Some(stripped)
            } else {
                None
            }
        },
        None => None,
    }
}

/// An address with the IPv4-mapped IPv6 prefix removed.
pub open spec fn spec_clean_ip(ip: Seq<char>) -> Seq<char> {
    if has_prefix(ip, "::ffff:"@) {
        ip.subrange("::ffff:"@.len() as int, ip.len() as int)
    } else {
        ip
    }
}

/// Removes the IPv4-mapped IPv6 prefix from an address.
pub fn clean_ip(ip: &str) -> (r: String)
    ensures
        r@ == spec_clean_ip(ip@),
{
    match crate::strutil::strip_prefix_str(ip, "::ffff:") {
        Some(rest) => rest,
        None => ip.to_owned(),
    }
}

/// The caller's address: the first entry of `X-Forwarded-For`, else
/// `X-Real-IP`, else the socket address, each trimmed and cleaned;
/// `unknown` when none is available.
pub open spec fn spec_client_ip(xff: Option<Seq<char>>, xri: Option<Seq<char>>,
    peer: Option<Seq<char>>) -> Seq<char>
{
    match xff {
        Some(h) => spec_clean_ip(trim_spec(before_char(h, ','))),
        None => match xri {
            Some(h) => spec_clean_ip(trim_spec(h)),
            None => match peer {
                Some(a) => spec_clean_ip(a),
                None => "unknown"@,
            },
        },
    }
}

/// Resolves the caller's address from the proxy headers and the socket
/// address.
pub fn get_client_ip(xff: Option<&str>, xri: Option<&str>, peer: Option<&str>) -> (r: String)
    ensures
        r@ == spec_client_ip(
            match xff {
                Some(h) => Some(h@),
                None => None,
            },
            match xri {
                Some(h) => Some(h@),
                None => None,
            },
            match peer {
                Some(a) => Some(a@),
                None => None,
            },
        ),
{
    match xff {
        Some(h) => {
            let first: String = crate::strutil::before_first(h, ',');
            let trimmed: String = crate::strutil::trim(first.as_str());
            clean_ip(trimmed.as_str())
        },
        None => match xri {
            Some(h) => {
                let trimmed: String = crate::strutil::trim(h);
                clean_ip(trimmed.as_str())
            },
            None => match peer {
                Some(a) => clean_ip(a),
                None => String::from_str("unknown"),
            },
        },
    }
}

/// Whether a value counts as empty for input validation: null, an empty
/// string, array or object.
pub open spec fn spec_empty_value(v: JsonV) -> bool {
    match v {
        JsonV::Null => true,
        JsonV::Str(s) => s.len() == 0,
        JsonV::Arr(items) => items.len() == 0,
        JsonV::Obj(pairs) => pairs.len() == 0,
        _ => false,
    }
}

pub fn is_empty_value(v: &Json) -> (r: bool)
    ensures
        r == spec_empty_value(v.deep_view()),
{
    proof {
        broadcast use crate::json::lemma_arr_view, crate::json::lemma_obj_view;
    }
    match v {
        Json::Null => true,
        Json::Text(s) => s.as_str().unicode_len() == 0,
        Json::Arr(items) => {
            proof {
                crate::json::lemma_arr_view(items@);
            }
            items.len() == 0
        },
        Json::Obj(pairs) => {
            proof {
                crate::json::lemma_obj_view(pairs@);
            }
            pairs.len() == 0
        },
        _ => false,
    }
}

/// Why a payload is rejected before any upstream work, if it is: a chat
/// without messages, a completion with an empty prompt, or an empty
/// input on the remaining kinds. The message and the error type of the
/// 422 answer are returned.
pub open spec fn spec_validation_error(payload: &RequestPayload) -> Option<Seq<char>> {
    match payload {
        RequestPayload::Chat(p) => if p.messages@.len() == 0 {
            Some("Request param messages not arr or arr is empty"@)
        } else {
            None
        },
        RequestPayload::Completion(p) => if p.prompt@.len() == 0 {
            Some("Request param prompt is empty"@)
        } else {
            None
        },
        RequestPayload::Embedding(p) => if spec_empty_value(p.input.deep_view()) {
            Some("Request param input is empty"@)
        } else {
            None
        },
        RequestPayload::Rerank(p) => if p.query@.len() == 0 || p.documents@.len() == 0 {
            Some("Request param query or documents is empty"@)
        } else {
            None
        },
        RequestPayload::Score(p) => if spec_empty_value(p.text_1.deep_view())
            || spec_empty_value(p.text_2.deep_view()) {
            Some("Request param text_1 or text_2 is empty"@)
        } else {
            None
        },
        RequestPayload::Classify(p) => if spec_empty_value(p.input.deep_view()) {
            Some("Request param input is empty"@)
        } else {
            None
        },
    }
}

/// Validates a payload; `Some` carries the message of the 422 answer
/// (error type `Input Validation Error`), `None` admits the request.
pub fn validate_payload(payload: &RequestPayload) -> (r: Option<String>)
    ensures
        match r {
            Some(m) => spec_validation_error(payload) == Some(m@),
            None => spec_validation_error(payload) is None,
        },
{
    match payload {
        RequestPayload::Chat(p) => {
            if p.messages.len() == 0 {
                Some(String::from_str("Request param messages not arr or arr is empty"))
            } else {
                None
            }
        },
        RequestPayload::Completion(p) => {
            if p.prompt.as_str().unicode_len() == 0 {
                Some(String::from_str("Request param prompt is empty"))
            } else {
                None
            }
        },
        RequestPayload::Embedding(p) => {
            if is_empty_value(&p.input) {
                Some(String::from_str("Request param input is empty"))
            } else {
                None
            }
        },
        RequestPayload::Rerank(p) => {
            if p.query.as_str().unicode_len() == 0 || p.documents.len() == 0 {
                Some(String::from_str("Request param query or documents is empty"))
            } else {
                None
            }
        },
        RequestPayload::Score(p) => {
            if is_empty_value(&p.text_1) || is_empty_value(&p.text_2) {
                Some(String::from_str("Request param text_1 or text_2 is empty"))
            } else {
                None
            }
        },
        RequestPayload::Classify(p) => {
            if is_empty_value(&p.input) {
                Some(String::from_str("Request param input is empty"))
            } else {
                None
            }
        },
    }
}

} // verus!

verus! {

/// The health endpoint's answer.
pub struct HealthResponse {
    pub status: String,
}

/// A healthy answer: status `ok`.
pub fn health_response() -> (r: HealthResponse)
    ensures
        r.status@ == "ok"@,
{
    HealthResponse { status: String::from_str("ok") }
}

} // verus!
