//! Audio transcription and translation requests: the multipart form is
//! read at the process boundary into plain parts; the model field is
//! extracted and validated here, and the dispatch machine routes the
//! request like any other.

use vstd::prelude::*;

verus! {

/// One part of the multipart form, as plain values.
pub struct MultipartPart {
    pub name: String,
    pub data: Vec<u8>,
    pub file_name: Option<String>,
    pub content_type: Option<String>,
}

/// An audio request: the extracted model, the cached parts, and which
/// audio endpoint it addresses.
pub struct AudioRequest {
    pub model: String,
    pub parts: Vec<MultipartPart>,
    pub endpoint: String,
}

/// The characters that lossy UTF-8 decoding yields for these bytes.
pub uninterp spec fn utf8_lossy_of(bytes: Seq<u8>) -> Seq<char>;

/// Relies on `String::from_utf8_lossy`: the result is a function of the
/// bytes alone, with invalid sequences replaced; no bytes decode to no
/// characters.
#[verifier::external_body]
fn utf8_lossy(bytes: &Vec<u8>) -> (r: String)
    ensures
        r@ == utf8_lossy_of(bytes@),
        bytes@.len() == 0 ==> r@.len() == 0,
{
    String::from_utf8_lossy(bytes).to_string()
}

/// The decoded `model` field of the form: the first part named `model`,
/// decoded leniently.
pub open spec fn spec_form_model(parts: Seq<MultipartPart>) -> Option<Seq<char>>
    decreases parts.len(),
{
    if parts.len() == 0 {
        None
    } else if parts[0].name@ == "model"@ {
        Some(utf8_lossy_of(parts[0].data@))
    } else {
        spec_form_model(parts.subrange(1, parts.len() as int))
    }
}

/// Builds the audio request from the cached form parts: the `model`
/// field names the model; a form without one, or with an empty one, is
/// rejected with the message of the 400 answer.
pub fn plan_audio_request(parts: Vec<MultipartPart>, endpoint: String)
    -> (r: Result<AudioRequest, String>)
    ensures
        match r {
            Ok(req) => {
                &&& match spec_form_model(parts@) {
                    Some(m) => req.model@ == m && m.len() > 0,
                    None => false,
                }
                &&& req.parts@ == parts@
                &&& req.endpoint@ == endpoint@
            },
            Err(msg) => {
                &&& match spec_form_model(parts@) {
                    Some(m) => m.len() == 0,
                    None => true,
                }
                &&& msg@ == "Missing 'model' field in multipart form data"@
            },
        },
{
    let n: usize = parts.len();
    let mut i: usize = 0;
    let mut idx: Option<usize> = None;
    proof {
        assert(parts@.subrange(0, n as int) =~= parts@);
    }
    while i < n
        invariant
            n == parts@.len(),
            i <= n,
            match idx {
                Some(j) => j < n && spec_form_model(parts@)
                    == Some(utf8_lossy_of(parts@[j as int].data@)),
                None => spec_form_model(parts@.subrange(i as int, n as int))
                    == spec_form_model(parts@),
            },
        decreases n - i + (match idx {
            Some(_) => 0int,
            None => 1int,
        }),
    {
        match idx {
            Some(_) => {
                i = n;
            },
            None => {
                let ghost rest = parts@.subrange(i as int, n as int);
                proof {
                    assert(rest[0] == parts@[i as int]);
                    assert(rest.subrange(1, rest.len() as int)
                        =~= parts@.subrange(i + 1, n as int));
                }
                if crate::strutil::eq_str(parts[i].name.as_str(), "model") {
                    idx = Some(i);
                } else {
                    i = i + 1;
                }
            },
        }
    }
    match idx {
        Some(j) => {
            let m: String = utf8_lossy(&parts[j].data);
            if m.as_str().unicode_len() > 0 {
                Ok(AudioRequest { model: m, parts, endpoint })
            } else {
                Err(String::from_str("Missing 'model' field in multipart form data"))
            }
        },
        None => {
            proof {
                assert(parts@.subrange(n as int, n as int).len() == 0);
            }
            Err(String::from_str("Missing 'model' field in multipart form data"))
        },
    }
}

} // verus!
