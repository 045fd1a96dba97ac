//! The inbound request payloads and the outbound request bodies built
//! from them. A payload carries its model name, which cross-model
//! fallback rewrites in place; building the outbound body applies the
//! provider's `max_tokens` clamp and stop-word merge.

use vstd::prelude::*;
use crate::json::{Json, JsonV, jget, lemma_arr_view, lemma_obj_view};
use crate::config::{ClientConfig, ClientConfigV};

verus! {

/// One part of a multi-modal message: a text fragment or an image
/// reference.
pub struct ContentPart {
    pub part_type: String,
    pub text: Option<String>,
    pub image_url: Option<Json>,
}

pub struct ContentPartV {
    pub part_type: Seq<char>,
    pub text: Option<Seq<char>>,
    pub image_url: Option<JsonV>,
}

impl DeepView for ContentPart {
    type V = ContentPartV;

    open spec fn deep_view(&self) -> ContentPartV {
        ContentPartV {
            part_type: self.part_type@,
            text: self.text.deep_view(),
            image_url: self.image_url.deep_view(),
        }
    }
}

/// A message's content: a plain string or a list of parts.
pub enum MessageContent {
    Text(String),
    Parts(Vec<ContentPart>),
}

pub enum MessageContentV {
    Text(Seq<char>),
    Parts(Seq<ContentPartV>),
}

impl DeepView for MessageContent {
    type V = MessageContentV;

    open spec fn deep_view(&self) -> MessageContentV {
        match self {
            MessageContent::Text(s) => MessageContentV::Text(s@),
            MessageContent::Parts(ps) => MessageContentV::Parts(ps.deep_view()),
        }
    }
}

pub struct Message {
    pub role: String,
    pub content: Option<MessageContent>,
    pub tool_calls: Option<Json>,
    pub tool_call_id: Option<String>,
}

pub struct MessageV {
    pub role: Seq<char>,
    pub content: Option<MessageContentV>,
    pub tool_calls: Option<JsonV>,
    pub tool_call_id: Option<Seq<char>>,
}

impl DeepView for Message {
    type V = MessageV;

    open spec fn deep_view(&self) -> MessageV {
        MessageV {
            role: self.role@,
            content: self.content.deep_view(),
            tool_calls: self.tool_calls.deep_view(),
            tool_call_id: self.tool_call_id.deep_view(),
        }
    }
}

pub struct ChatCompletionRequest {
    pub model: String,
    pub messages: Vec<Message>,
    pub stream: Option<bool>,
    pub temperature: Option<Json>,
    pub max_tokens: Option<u32>,
    pub stop: Option<Vec<String>>,
    pub tools: Option<Json>,
    pub chat_template_kwargs: Option<Json>,
}

pub struct CompletionRequest {
    pub model: String,
    pub prompt: String,
    pub stream: Option<bool>,
    pub temperature: Option<Json>,
    pub max_tokens: Option<u32>,
    pub stop: Option<Vec<String>>,
}

pub struct EmbeddingRequest {
    pub model: String,
    pub input: Json,
    pub encoding_format: Option<String>,
    pub dimensions: Option<u32>,
    pub user: Option<String>,
}

pub struct RerankRequest {
    pub model: String,
    pub query: String,
    pub documents: Vec<String>,
    pub top_n: Option<usize>,
}

pub struct ScoreRequest {
    pub model: String,
    pub text_1: Json,
    pub text_2: Json,
}

pub struct ClassifyRequest {
    pub model: String,
    pub input: Json,
}

/// The tagged inbound request.
pub enum RequestPayload {
    Chat(ChatCompletionRequest),
    Completion(CompletionRequest),
    Embedding(EmbeddingRequest),
    Rerank(RerankRequest),
    Score(ScoreRequest),
    Classify(ClassifyRequest),
}

impl RequestPayload {
    /// The model the payload currently names.
    pub open spec fn spec_model(&self) -> Seq<char> {
        match self {
            RequestPayload::Chat(p) => p.model@,
            RequestPayload::Completion(p) => p.model@,
            RequestPayload::Embedding(p) => p.model@,
            RequestPayload::Rerank(p) => p.model@,
            RequestPayload::Score(p) => p.model@,
            RequestPayload::Classify(p) => p.model@,
        }
    }

    /// The model the payload names.
    pub fn get_model<'a>(&'a self) -> (r: &'a String)
        ensures
            r@ == self.spec_model(),
    {
        match self {
            RequestPayload::Chat(p) => &p.model,
            RequestPayload::Completion(p) => &p.model,
            RequestPayload::Embedding(p) => &p.model,
            RequestPayload::Rerank(p) => &p.model,
            RequestPayload::Score(p) => &p.model,
            RequestPayload::Classify(p) => &p.model,
        }
    }

    /// Everything of `b` equals `a` but possibly the model name.
    pub open spec fn same_but_model(a: &RequestPayload, b: &RequestPayload) -> bool {
        match (a, b) {
            (RequestPayload::Chat(x), RequestPayload::Chat(y)) =>
                y.messages == x.messages && y.stream == x.stream
                    && y.temperature == x.temperature && y.max_tokens == x.max_tokens
                    && y.stop == x.stop && y.tools == x.tools
                    && y.chat_template_kwargs == x.chat_template_kwargs,
            (RequestPayload::Completion(x), RequestPayload::Completion(y)) =>
                y.prompt == x.prompt && y.stream == x.stream
                    && y.temperature == x.temperature && y.max_tokens == x.max_tokens
                    && y.stop == x.stop,
            (RequestPayload::Embedding(x), RequestPayload::Embedding(y)) =>
                y.input == x.input && y.encoding_format == x.encoding_format
                    && y.dimensions == x.dimensions && y.user == x.user,
            (RequestPayload::Rerank(x), RequestPayload::Rerank(y)) =>
                y.query == x.query && y.documents == x.documents && y.top_n == x.top_n,
            (RequestPayload::Score(x), RequestPayload::Score(y)) =>
                y.text_1 == x.text_1 && y.text_2 == x.text_2,
            (RequestPayload::Classify(x), RequestPayload::Classify(y)) =>
                y.input == x.input,
            _ => false,
        }
    }

    /// Rewrites the model in place; everything else is untouched.
    pub fn set_model(&mut self, model_name: String)
        ensures
            final(self).spec_model() == model_name@,
            Self::same_but_model(old(self), final(self)),
    {
        match self {
            RequestPayload::Chat(p) => {
                p.model = model_name;
            },
            RequestPayload::Completion(p) => {
                p.model = model_name;
            },
            RequestPayload::Embedding(p) => {
                p.model = model_name;
            },
            RequestPayload::Rerank(p) => {
                p.model = model_name;
            },
            RequestPayload::Score(p) => {
                p.model = model_name;
            },
            RequestPayload::Classify(p) => {
                p.model = model_name;
            },
        }
    }

    /// Whether the client asked for a streamed response; only chat and
    /// text completions can stream.
    pub open spec fn spec_streaming(&self) -> bool {
        match self {
            RequestPayload::Chat(p) => match p.stream {
                Some(b) => b,
                None => false,
            },
            RequestPayload::Completion(p) => match p.stream {
                Some(b) => b,
                None => false,
            },
            _ => false,
        }
    }

    pub fn is_streaming(&self) -> (r: bool)
        ensures
            r == self.spec_streaming(),
    {
        match self {
            RequestPayload::Chat(p) => match p.stream {
                Some(b) => b,
                None => false,
            },
            RequestPayload::Completion(p) => match p.stream {
                Some(b) => b,
                None => false,
            },
            _ => false,
        }
    }
}

/// The serialized form of one content part: `type` always, `text` and
/// `image_url` only when present.
pub open spec fn part_json(p: ContentPartV) -> JsonV {
    let base = seq![("type"@, JsonV::Str(p.part_type))];
    let with_text = match p.text {
        Some(t) => base.push(("text"@, JsonV::Str(t))),
        None => base,
    };
    JsonV::Obj(match p.image_url {
        Some(u) => with_text.push(("image_url"@, u)),
        None => with_text,
    })
}

/// The serialized form of a message's content.
pub open spec fn content_json(c: MessageContentV) -> JsonV {
    match c {
        MessageContentV::Text(s) => JsonV::Str(s),
        MessageContentV::Parts(ps) => JsonV::Arr(Seq::new(ps.len(), |i: int| part_json(ps[i]))),
    }
}

/// The serialized form of one message: `role` and `content` always
/// (`content` null when absent), tool members only when present.
pub open spec fn message_json(m: MessageV) -> JsonV {
    let base = seq![
        ("role"@, JsonV::Str(m.role)),
        ("content"@, match m.content {
            Some(c) => content_json(c),
            None => JsonV::Null,
        }),
    ];
    let with_tc = match m.tool_calls {
        Some(t) => base.push(("tool_calls"@, t)),
        None => base,
    };
    JsonV::Obj(match m.tool_call_id {
        Some(id) => with_tc.push(("tool_call_id"@, JsonV::Str(id))),
        None => with_tc,
    })
}

fn part_to_json(p: &ContentPart) -> (r: Json)
    ensures
        r.deep_view() == part_json(p.deep_view()),
{
    let mut pairs: Vec<(String, Json)> = Vec::new();
    pairs.push((String::from_str("type"), Json::Text(p.part_type.clone())));
    match &p.text {
        Some(t) => {
            pairs.push((String::from_str("text"), Json::Text(t.clone())));
        },
        None => {},
    }
    match &p.image_url {
        Some(u) => {
            pairs.push((String::from_str("image_url"), u.duplicate()));
        },
        None => {},
    }
    let r = Json::Obj(pairs);
    proof {
        lemma_obj_view(r->Obj_0@);
        assert(r.deep_view()->Obj_0 =~= part_json(p.deep_view())->Obj_0);
    }
    r
}

fn content_to_json(c: &MessageContent) -> (r: Json)
    ensures
        r.deep_view() == content_json(c.deep_view()),
{
    match c {
        MessageContent::Text(s) => Json::Text(s.clone()),
        MessageContent::Parts(ps) => {
            let n: usize = ps.len();
            let mut items: Vec<Json> = Vec::new();
            let mut i: usize = 0;
            while i < n
                invariant
                    n == ps@.len(),
                    i <= n,
                    items@.len() == i,
                    forall|k: int| 0 <= k < i
                        ==> (#[trigger] items@[k]).deep_view()
                            == part_json(ps@[k].deep_view()),
                decreases n - i,
            {
                items.push(part_to_json(&ps[i]));
                i = i + 1;
            }
            let r = Json::Arr(items);
            proof {
                lemma_arr_view(r->Arr_0@);
                assert(r.deep_view()->Arr_0 =~= content_json(c.deep_view())->Arr_0);
            }
            r
        },
    }
}

/// The serialized form of one message.
pub fn message_to_json(m: &Message) -> (r: Json)
    ensures
        r.deep_view() == message_json(m.deep_view()),
{
    let mut pairs: Vec<(String, Json)> = Vec::new();
    pairs.push((String::from_str("role"), Json::Text(m.role.clone())));
    let content: Json = match &m.content {
        Some(c) => content_to_json(c),
        None => Json::Null,
    };
    pairs.push((String::from_str("content"), content));
    match &m.tool_calls {
        Some(t) => {
            pairs.push((String::from_str("tool_calls"), t.duplicate()));
        },
        None => {},
    }
    match &m.tool_call_id {
        Some(id) => {
            pairs.push((String::from_str("tool_call_id"), Json::Text(id.clone())));
        },
        None => {},
    }
    let r = Json::Obj(pairs);
    proof {
        lemma_obj_view(r->Obj_0@);
        assert(r.deep_view()->Obj_0 =~= message_json(m.deep_view())->Obj_0);
    }
    r
}

} // verus!

verus! {

/// The serialized stop list.
pub open spec fn stops_json(ws: Seq<Seq<char>>) -> JsonV {
    JsonV::Arr(Seq::new(ws.len(), |i: int| JsonV::Str(ws[i])))
}

/// The serialized message list.
pub open spec fn messages_json(ms: Seq<Message>) -> JsonV {
    JsonV::Arr(Seq::new(ms.len(), |i: int| message_json(ms[i].deep_view())))
}

/// The outbound chat body: model, messages and stream always; then, in
/// this order and only when present, the temperature as given, the
/// clamped max_tokens, the merged stop set, the tools and the template
/// arguments as given.
pub open spec fn spec_chat_body(p: &ChatCompletionRequest, c: ClientConfigV, stream: bool)
    -> JsonV
{
    let base = seq![
        ("model"@, JsonV::Str(p.model@)),
        ("messages"@, messages_json(p.messages@)),
        ("stream"@, JsonV::Bool(stream)),
    ];
    let b1 = match p.temperature {
        Some(t) => base.push(("temperature"@, t.deep_view())),
        None => base,
    };
    let b2 = match crate::policy::clamped(c.max_tokens, p.max_tokens) {
        Some(mt) => b1.push(("max_tokens"@, JsonV::Int(mt as int))),
        None => b1,
    };
    let b3 = match crate::policy::merged_stops(c.stop, p.stop.deep_view()) {
        Some(ws) => b2.push(("stop"@, stops_json(ws))),
        None => b2,
    };
    let b4 = match p.tools {
        Some(t) => b3.push(("tools"@, t.deep_view())),
        None => b3,
    };
    JsonV::Obj(match p.chat_template_kwargs {
        Some(k) => b4.push(("chat_template_kwargs"@, k.deep_view())),
        None => b4,
    })
}

/// The outbound text-completion body: model, prompt and stream always;
/// then, when present, temperature, clamped max_tokens and the merged
/// stop set.
pub open spec fn spec_completion_body(p: &CompletionRequest, c: ClientConfigV, stream: bool)
    -> JsonV
{
    let base = seq![
        ("model"@, JsonV::Str(p.model@)),
        ("prompt"@, JsonV::Str(p.prompt@)),
        ("stream"@, JsonV::Bool(stream)),
    ];
    let b1 = match p.temperature {
        Some(t) => base.push(("temperature"@, t.deep_view())),
        None => base,
    };
    let b2 = match crate::policy::clamped(c.max_tokens, p.max_tokens) {
        Some(mt) => b1.push(("max_tokens"@, JsonV::Int(mt as int))),
        None => b1,
    };
    JsonV::Obj(match crate::policy::merged_stops(c.stop, p.stop.deep_view()) {
        Some(ws) => b2.push(("stop"@, stops_json(ws))),
        None => b2,
    })
}

pub open spec fn spec_embedding_body(p: &EmbeddingRequest) -> JsonV {
    let base = seq![
        ("model"@, JsonV::Str(p.model@)),
        ("input"@, p.input.deep_view()),
    ];
    let b1 = match p.encoding_format {
        Some(f) => base.push(("encoding_format"@, JsonV::Str(f@))),
        None => base,
    };
    let b2 = match p.dimensions {
        Some(d) => b1.push(("dimensions"@, JsonV::Int(d as int))),
        None => b1,
    };
    JsonV::Obj(match p.user {
        Some(u) => b2.push(("user"@, JsonV::Str(u@))),
        None => b2,
    })
}

pub open spec fn spec_rerank_body(p: &RerankRequest) -> JsonV {
    let base = seq![
        ("model"@, JsonV::Str(p.model@)),
        ("query"@, JsonV::Str(p.query@)),
        ("documents"@, stops_json(p.documents.deep_view())),
    ];
    JsonV::Obj(match p.top_n {
        Some(n) => base.push(("top_n"@, JsonV::Int(n as int))),
        None => base,
    })
}

pub open spec fn spec_score_body(p: &ScoreRequest) -> JsonV {
    JsonV::Obj(seq![
        ("model"@, JsonV::Str(p.model@)),
        ("text_1"@, p.text_1.deep_view()),
        ("text_2"@, p.text_2.deep_view()),
    ])
}

pub open spec fn spec_classify_body(p: &ClassifyRequest) -> JsonV {
    JsonV::Obj(seq![
        ("model"@, JsonV::Str(p.model@)),
        ("input"@, p.input.deep_view()),
    ])
}

/// The outbound request body for a payload against one provider.
pub open spec fn spec_request_body(payload: &RequestPayload, c: ClientConfigV, stream: bool)
    -> JsonV
{
    match payload {
        RequestPayload::Chat(p) => spec_chat_body(p, c, stream),
        RequestPayload::Completion(p) => spec_completion_body(p, c, stream),
        RequestPayload::Embedding(p) => spec_embedding_body(p),
        RequestPayload::Rerank(p) => spec_rerank_body(p),
        RequestPayload::Score(p) => spec_score_body(p),
        RequestPayload::Classify(p) => spec_classify_body(p),
    }
}

fn stops_to_json(ws: &Vec<String>) -> (r: Json)
    ensures
        r.deep_view() == stops_json(ws.deep_view()),
{
    let n: usize = ws.len();
    let mut items: Vec<Json> = Vec::new();
    let mut i: usize = 0;
    while i < n
        invariant
            n == ws@.len(),
            i <= n,
            items@.len() == i,
            forall|k: int| 0 <= k < i
                ==> (#[trigger] items@[k]).deep_view() == JsonV::Str(ws@[k]@),
        decreases n - i,
    {
        items.push(Json::Text(ws[i].clone()));
        i = i + 1;
    }
    let r = Json::Arr(items);
    proof {
        lemma_arr_view(r->Arr_0@);
        assert(r.deep_view()->Arr_0 =~= stops_json(ws.deep_view())->Arr_0);
    }
    r
}

fn messages_to_json(ms: &Vec<Message>) -> (r: Json)
    ensures
        r.deep_view() == messages_json(ms@),
{
    let n: usize = ms.len();
    let mut items: Vec<Json> = Vec::new();
    let mut i: usize = 0;
    while i < n
        invariant
            n == ms@.len(),
            i <= n,
            items@.len() == i,
            forall|k: int| 0 <= k < i
                ==> (#[trigger] items@[k]).deep_view() == message_json(ms@[k].deep_view()),
        decreases n - i,
    {
        items.push(message_to_json(&ms[i]));
        i = i + 1;
    }
    let r = Json::Arr(items);
    proof {
        lemma_arr_view(r->Arr_0@);
        assert(r.deep_view()->Arr_0 =~= messages_json(ms@)->Arr_0);
    }
    r
}

/// Builds the outbound request body for one attempt: the payload's
/// fields with the provider's max_tokens clamp and stop merge applied,
/// and the effective streaming flag.
pub fn build_request_body_generic(payload: &RequestPayload, client_config: &ClientConfig,
    stream: bool) -> (r: Json)
    ensures
        r.deep_view() == spec_request_body(payload, client_config.deep_view(), stream),
{
    let ghost cc = client_config.deep_view();
    match payload {
        RequestPayload::Chat(p) => {
            let mut pairs: Vec<(String, Json)> = Vec::new();
            pairs.push((String::from_str("model"), Json::Text(p.model.clone())));
            pairs.push((String::from_str("messages"), messages_to_json(&p.messages)));
            pairs.push((String::from_str("stream"), Json::Bool(stream)));
            match &p.temperature {
                Some(t) => {
                    pairs.push((String::from_str("temperature"), t.duplicate()));
                },
                None => {},
            }
            match crate::policy::adjust_max_tokens(client_config.max_tokens, p.max_tokens) {
                Some(mt) => {
                    pairs.push((String::from_str("max_tokens"), Json::UInt(mt as u64)));
                },
                None => {},
            }
            let req_stop: Option<Vec<String>> = match &p.stop {
                Some(v) => Some(crate::config::clone_vec_string(v)),
                None => None,
            };
            proof {
                assert(req_stop.deep_view() == p.stop.deep_view());
            }
            let client_stop: Option<&Vec<String>> = match &client_config.stop {
                Some(v) => Some(v),
                None => None,
            };
            proof {
                assert(client_stop.deep_view() == cc.stop);
            }
            match crate::policy::merge_stop_words(client_stop, req_stop) {
                Some(ws) => {
                    pairs.push((String::from_str("stop"), stops_to_json(&ws)));
                },
                None => {},
            }
            match &p.tools {
                Some(t) => {
                    pairs.push((String::from_str("tools"), t.duplicate()));
                },
                None => {},
            }
            match &p.chat_template_kwargs {
                Some(k) => {
                    pairs.push((String::from_str("chat_template_kwargs"), k.duplicate()));
                },
                None => {},
            }
            let r = Json::Obj(pairs);
            proof {
                lemma_obj_view(r->Obj_0@);
                assert(r.deep_view()->Obj_0 =~= spec_chat_body(p, cc, stream)->Obj_0);
            }
            r
        },
        RequestPayload::Completion(p) => {
            let mut pairs: Vec<(String, Json)> = Vec::new();
            pairs.push((String::from_str("model"), Json::Text(p.model.clone())));
            pairs.push((String::from_str("prompt"), Json::Text(p.prompt.clone())));
            pairs.push((String::from_str("stream"), Json::Bool(stream)));
            match &p.temperature {
                Some(t) => {
                    pairs.push((String::from_str("temperature"), t.duplicate()));
                },
                None => {},
            }
            match crate::policy::adjust_max_tokens(client_config.max_tokens, p.max_tokens) {
                Some(mt) => {
                    pairs.push((String::from_str("max_tokens"), Json::UInt(mt as u64)));
                },
                None => {},
            }
            let req_stop: Option<Vec<String>> = match &p.stop {
                Some(v) => Some(crate::config::clone_vec_string(v)),
                None => None,
            };
            proof {
                assert(req_stop.deep_view() == p.stop.deep_view());
            }
            let client_stop: Option<&Vec<String>> = match &client_config.stop {
                Some(v) => Some(v),
                None => None,
            };
            proof {
                assert(client_stop.deep_view() == cc.stop);
            }
            match crate::policy::merge_stop_words(client_stop, req_stop) {
                Some(ws) => {
                    pairs.push((String::from_str("stop"), stops_to_json(&ws)));
                },
                None => {},
            }
            let r = Json::Obj(pairs);
            proof {
                lemma_obj_view(r->Obj_0@);
                assert(r.deep_view()->Obj_0 =~= spec_completion_body(p, cc, stream)->Obj_0);
            }
            r
        },
        RequestPayload::Embedding(p) => {
            let mut pairs: Vec<(String, Json)> = Vec::new();
            pairs.push((String::from_str("model"), Json::Text(p.model.clone())));
            pairs.push((String::from_str("input"), p.input.duplicate()));
            match &p.encoding_format {
                Some(f) => {
                    pairs.push((String::from_str("encoding_format"), Json::Text(f.clone())));
                },
                None => {},
            }
            match p.dimensions {
                Some(d) => {
                    pairs.push((String::from_str("dimensions"), Json::UInt(d as u64)));
                },
                None => {},
            }
            match &p.user {
                Some(u) => {
                    pairs.push((String::from_str("user"), Json::Text(u.clone())));
                },
                None => {},
            }
            let r = Json::Obj(pairs);
            proof {
                lemma_obj_view(r->Obj_0@);
                assert(r.deep_view()->Obj_0 =~= spec_embedding_body(p)->Obj_0);
            }
            r
        },
        RequestPayload::Rerank(p) => {
            let mut pairs: Vec<(String, Json)> = Vec::new();
            pairs.push((String::from_str("model"), Json::Text(p.model.clone())));
            pairs.push((String::from_str("query"), Json::Text(p.query.clone())));
            pairs.push((String::from_str("documents"), stops_to_json(&p.documents)));
            match p.top_n {
                Some(n) => {
                    pairs.push((String::from_str("top_n"), Json::UInt(n as u64)));
                },
                None => {},
            }
            let r = Json::Obj(pairs);
            proof {
                lemma_obj_view(r->Obj_0@);
                assert(r.deep_view()->Obj_0 =~= spec_rerank_body(p)->Obj_0);
            }
            r
        },
        RequestPayload::Score(p) => {
            let mut pairs: Vec<(String, Json)> = Vec::new();
            pairs.push((String::from_str("model"), Json::Text(p.model.clone())));
            pairs.push((String::from_str("text_1"), p.text_1.duplicate()));
            pairs.push((String::from_str("text_2"), p.text_2.duplicate()));
            let r = Json::Obj(pairs);
            proof {
                lemma_obj_view(r->Obj_0@);
                assert(r.deep_view()->Obj_0 =~= spec_score_body(p)->Obj_0);
            }
            r
        },
        RequestPayload::Classify(p) => {
            let mut pairs: Vec<(String, Json)> = Vec::new();
            pairs.push((String::from_str("model"), Json::Text(p.model.clone())));
            pairs.push((String::from_str("input"), p.input.duplicate()));
            let r = Json::Obj(pairs);
            proof {
                lemma_obj_view(r->Obj_0@);
                assert(r.deep_view()->Obj_0 =~= spec_classify_body(p)->Obj_0);
            }
            r
        },
    }
}

} // verus!

verus! {

/// Merge law for the stop set: the outbound body's `stop` member is
/// exactly the de-duplicated concatenation of the provider's and the
/// request's stop words, first occurrence first, and is absent when
/// neither side names any. (law)
pub proof fn lemma_body_stop_merge(payload: &RequestPayload, c: ClientConfigV, stream: bool)
    requires
        payload is Chat || payload is Completion,
    ensures
        jget(spec_request_body(payload, c, stream), "stop"@)
            == (match crate::policy::merged_stops(c.stop, match payload {
                    RequestPayload::Chat(p) => p.stop.deep_view(),
                    RequestPayload::Completion(p) => p.stop.deep_view(),
                    _ => None,
                }) {
                Some(ws) => Some(stops_json(ws)),
                None => None,
            }),
{
    broadcast use crate::json::lemma_obj_get_push;
    broadcast use vstd::string::group_string_axioms;

    reveal_strlit("model");
    reveal_strlit("messages");
    reveal_strlit("prompt");
    reveal_strlit("stream");
    reveal_strlit("temperature");
    reveal_strlit("max_tokens");
    reveal_strlit("stop");
    reveal_strlit("tools");
    reveal_strlit("chat_template_kwargs");
    assert("model"@ != "stop"@) by {
        assert("model"@.len() == 5);
        assert("stop"@.len() == 4);
    }
    assert("messages"@ != "stop"@) by {
        assert("messages"@.len() == 8);
        assert("stop"@.len() == 4);
    }
    assert("prompt"@ != "stop"@) by {
        assert("prompt"@.len() == 6);
        assert("stop"@.len() == 4);
    }
    assert("stream"@ != "stop"@) by {
        assert("stream"@.len() == 6);
        assert("stop"@.len() == 4);
    }
    assert("temperature"@ != "stop"@) by {
        assert("temperature"@.len() == 11);
        assert("stop"@.len() == 4);
    }
    assert("max_tokens"@ != "stop"@) by {
        assert("max_tokens"@.len() == 10);
        assert("stop"@.len() == 4);
    }
    assert("tools"@ != "stop"@) by {
        assert("tools"@.len() == 5);
        assert("stop"@.len() == 4);
    }
    assert("chat_template_kwargs"@ != "stop"@) by {
        assert("chat_template_kwargs"@.len() == 20);
        assert("stop"@.len() == 4);
    }
    match payload {
        RequestPayload::Chat(p) => {
            let base = seq![
                ("model"@, JsonV::Str(p.model@)),
                ("messages"@, messages_json(p.messages@)),
                ("stream"@, JsonV::Bool(stream)),
            ];
            lemma_base3_absent(base, "stop"@);
        },
        RequestPayload::Completion(p) => {
            let base = seq![
                ("model"@, JsonV::Str(p.model@)),
                ("prompt"@, JsonV::Str(p.prompt@)),
                ("stream"@, JsonV::Bool(stream)),
            ];
            lemma_base3_absent(base, "stop"@);
        },
        _ => {},
    }
}

/// Clamp law for max_tokens: the outbound body's `max_tokens` member is
/// exactly the request's value clamped by the provider's cap, falling
/// back to whichever side is present, and is absent when neither names
/// one. (law)
#[verifier::rlimit(50)]
pub proof fn lemma_body_max_tokens(payload: &RequestPayload, c: ClientConfigV, stream: bool)
    requires
        payload is Chat || payload is Completion,
    ensures
        jget(spec_request_body(payload, c, stream), "max_tokens"@)
            == (match crate::policy::clamped(c.max_tokens, match payload {
                    RequestPayload::Chat(p) => p.max_tokens,
                    RequestPayload::Completion(p) => p.max_tokens,
                    _ => None,
                }) {
                Some(mt) => Some(JsonV::Int(mt as int)),
                None => None,
            }),
{
    broadcast use crate::json::lemma_obj_get_push;
    broadcast use vstd::string::group_string_axioms;

    reveal_strlit("model");
    reveal_strlit("messages");
    reveal_strlit("prompt");
    reveal_strlit("stream");
    reveal_strlit("temperature");
    reveal_strlit("max_tokens");
    reveal_strlit("stop");
    reveal_strlit("tools");
    reveal_strlit("chat_template_kwargs");
    assert("model"@ != "max_tokens"@) by {
        assert("model"@.len() == 5);
        assert("max_tokens"@.len() == 10);
    }
    assert("messages"@ != "max_tokens"@) by {
        assert("messages"@.len() == 8);
        assert("max_tokens"@.len() == 10);
    }
    assert("prompt"@ != "max_tokens"@) by {
        assert("prompt"@.len() == 6);
        assert("max_tokens"@.len() == 10);
    }
    assert("stream"@ != "max_tokens"@) by {
        assert("stream"@.len() == 6);
        assert("max_tokens"@.len() == 10);
    }
    assert("temperature"@ != "max_tokens"@) by {
        assert("temperature"@.len() == 11);
        assert("max_tokens"@.len() == 10);
    }
    assert("tools"@ != "max_tokens"@) by {
        assert("tools"@.len() == 5);
        assert("max_tokens"@.len() == 10);
    }
    assert("chat_template_kwargs"@ != "max_tokens"@) by {
        assert("chat_template_kwargs"@.len() == 20);
        assert("max_tokens"@.len() == 10);
    }
    assert("stop"@ != "max_tokens"@) by {
        assert("stop"@.len() == 4);
        assert("max_tokens"@.len() == 10);
    }
    match payload {
        RequestPayload::Chat(p) => {
            let base = seq![
                ("model"@, JsonV::Str(p.model@)),
                ("messages"@, messages_json(p.messages@)),
                ("stream"@, JsonV::Bool(stream)),
            ];
            lemma_base3_absent(base, "max_tokens"@);
            let key = "max_tokens"@;
            let b1 = match p.temperature {
                Some(t) => base.push(("temperature"@, t.deep_view())),
                None => base,
            };
            assert(crate::json::obj_get_v(b1, key) is None);
            let expected = match crate::policy::clamped(c.max_tokens, p.max_tokens) {
                Some(mt) => Some(JsonV::Int(mt as int)),
                None => None,
            };
            let b2 = match crate::policy::clamped(c.max_tokens, p.max_tokens) {
                Some(mt) => b1.push(("max_tokens"@, JsonV::Int(mt as int))),
                None => b1,
            };
            match crate::policy::clamped(c.max_tokens, p.max_tokens) {
                Some(mt) => {
                    crate::json::lemma_obj_get_push(b1, ("max_tokens"@, JsonV::Int(mt as int)), key);
                    assert(b2 == b1.push(("max_tokens"@, JsonV::Int(mt as int))));
                    assert(crate::json::obj_get_v(b2, key) == expected);
                },
                None => {
                    assert(b2 == b1);
                    assert(crate::json::obj_get_v(b2, key) == expected);
                },
            }
            assert(crate::json::obj_get_v(b2, key) == expected);
            let b3 = match crate::policy::merged_stops(c.stop, p.stop.deep_view()) {
                Some(ws) => b2.push(("stop"@, stops_json(ws))),
                None => b2,
            };
            match crate::policy::merged_stops(c.stop, p.stop.deep_view()) {
                Some(ws) => {
                    crate::json::lemma_obj_get_push(b2, ("stop"@, stops_json(ws)), key);
                    assert(b3 == b2.push(("stop"@, stops_json(ws))));
                    assert(crate::json::obj_get_v(b3, key) == expected);
                },
                None => {
                    assert(b3 == b2);
                    assert(crate::json::obj_get_v(b3, key) == expected);
                },
            }
            assert(crate::json::obj_get_v(b3, key) == expected);
            let b4 = match p.tools {
                Some(t) => b3.push(("tools"@, t.deep_view())),
                None => b3,
            };
            match p.tools {
                Some(t) => {
                    crate::json::lemma_obj_get_push(b3, ("tools"@, t.deep_view()), key);
                    assert(b4 == b3.push(("tools"@, t.deep_view())));
                    assert(crate::json::obj_get_v(b4, key) == expected);
                },
                None => {
                    assert(b4 == b3);
                    assert(crate::json::obj_get_v(b4, key) == expected);
                },
            }
            assert(crate::json::obj_get_v(b4, key) == expected);
            let b5 = match p.chat_template_kwargs {
                Some(k) => b4.push(("chat_template_kwargs"@, k.deep_view())),
                None => b4,
            };
            match p.chat_template_kwargs {
                Some(k) => {
                    crate::json::lemma_obj_get_push(b4, ("chat_template_kwargs"@, k.deep_view()), key);
                    assert(b5 == b4.push(("chat_template_kwargs"@, k.deep_view())));
                    assert(crate::json::obj_get_v(b5, key) == expected);
                },
                None => {
                    assert(b5 == b4);
                    assert(crate::json::obj_get_v(b5, key) == expected);
                },
            }
            assert(crate::json::obj_get_v(b5, key) == expected);
        },
        RequestPayload::Completion(p) => {
            let base = seq![
                ("model"@, JsonV::Str(p.model@)),
                ("prompt"@, JsonV::Str(p.prompt@)),
                ("stream"@, JsonV::Bool(stream)),
            ];
            lemma_base3_absent(base, "max_tokens"@);
            let key = "max_tokens"@;
            let b1 = match p.temperature {
                Some(t) => base.push(("temperature"@, t.deep_view())),
                None => base,
            };
            assert(crate::json::obj_get_v(b1, key) is None);
            let expected = match crate::policy::clamped(c.max_tokens, p.max_tokens) {
                Some(mt) => Some(JsonV::Int(mt as int)),
                None => None,
            };
            let b2 = match crate::policy::clamped(c.max_tokens, p.max_tokens) {
                Some(mt) => b1.push(("max_tokens"@, JsonV::Int(mt as int))),
                None => b1,
            };
            match crate::policy::clamped(c.max_tokens, p.max_tokens) {
                Some(mt) => {
                    crate::json::lemma_obj_get_push(b1, ("max_tokens"@, JsonV::Int(mt as int)), key);
                    assert(b2 == b1.push(("max_tokens"@, JsonV::Int(mt as int))));
                    assert(crate::json::obj_get_v(b2, key) == expected);
                },
                None => {
                    assert(b2 == b1);
                    assert(crate::json::obj_get_v(b2, key) == expected);
                },
            }
            assert(crate::json::obj_get_v(b2, key) == expected);
            let b3 = match crate::policy::merged_stops(c.stop, p.stop.deep_view()) {
                Some(ws) => b2.push(("stop"@, stops_json(ws))),
                None => b2,
            };
            match crate::policy::merged_stops(c.stop, p.stop.deep_view()) {
                Some(ws) => {
                    crate::json::lemma_obj_get_push(b2, ("stop"@, stops_json(ws)), key);
                    assert(b3 == b2.push(("stop"@, stops_json(ws))));
                    assert(crate::json::obj_get_v(b3, key) == expected);
                },
                None => {
                    assert(b3 == b2);
                    assert(crate::json::obj_get_v(b3, key) == expected);
                },
            }
            assert(crate::json::obj_get_v(b3, key) == expected);
        },
        _ => {},
    }
}

proof fn lemma_base3_absent(base: Seq<(Seq<char>, JsonV)>, key: Seq<char>)
    requires
        base.len() == 3,
        base[0].0 != key,
        base[1].0 != key,
        base[2].0 != key,
    ensures
        crate::json::obj_get_v(base, key) is None,
{
    let r1 = base.subrange(1, 3);
    let r2 = r1.subrange(1, 2);
    assert(r1[0] == base[1]);
    assert(r2[0] == base[2]);
    assert(r2.subrange(1, 1).len() == 0);
    assert(crate::json::obj_get_v(r2.subrange(1, 1), key) is None);
    assert(crate::json::obj_get_v(r2, key) is None);
    assert(crate::json::obj_get_v(r1, key) is None);
}

/// The routing keys of a request, for the cache-affine selector: every
/// user message of a chat whose content is a plain string contributes
/// one anchor of its first 64 characters, weighted by its full
/// character length; the prompt of a text completion contributes one
/// such anchor; other payloads contribute none.
pub open spec fn spec_routing_keys(payload: &RequestPayload) -> Seq<crate::selector::RoutingKeyV> {
    match payload {
        RequestPayload::Chat(p) => chat_anchors(p.messages@),
        RequestPayload::Completion(p) => seq![anchor_of(p.prompt@)],
        _ => Seq::empty(),
    }
}

/// The anchor of one text: its first 64 characters, weighted by its
/// full length, capped at the weight range.
pub open spec fn anchor_of(s: Seq<char>) -> crate::selector::RoutingKeyV {
    crate::selector::RoutingKeyV {
        content: if s.len() > 64 {
            s.subrange(0, 64)
        } else {
            s
        },
        weight: if s.len() > u64::MAX {
            u64::MAX
        } else {
            s.len() as u64
        },
    }
}

pub open spec fn chat_anchors(ms: Seq<Message>) -> Seq<crate::selector::RoutingKeyV>
    decreases ms.len(),
{
    if ms.len() == 0 {
        Seq::empty()
    } else {
        let head = match ms[0].deep_view() {
            MessageV { role, content: Some(MessageContentV::Text(s)), .. } =>
                if role == "user"@ {
                    seq![anchor_of(s)]
                } else {
                    Seq::empty()
                },
            _ => Seq::empty(),
        };
        head + chat_anchors(ms.subrange(1, ms.len() as int))
    }
}

fn anchor_of_exec(s: &str) -> (r: crate::selector::RoutingKey)
    ensures
        r.deep_view() == anchor_of(s@),
{
    let n: usize = s.unicode_len();
    let content: String = if n > 64 {
        s.substring_char(0, 64).to_owned()
    } else {
        s.to_owned()
    };
    let weight: u64 = n as u64;
    crate::selector::RoutingKey { content, weight }
}

/// The routing keys a request contributes to the cache-affine selector.
pub fn routing_keys(payload: &RequestPayload) -> (r: Vec<crate::selector::RoutingKey>)
    ensures
        r.deep_view() == spec_routing_keys(payload),
{
    match payload {
        RequestPayload::Chat(p) => {
            let ms: &Vec<Message> = &p.messages;
            let n: usize = ms.len();
            let mut out: Vec<crate::selector::RoutingKey> = Vec::new();
            let mut i: usize = 0;
            proof {
                assert(ms@.subrange(0, n as int) =~= ms@);
                assert(out.deep_view() + chat_anchors(ms@.subrange(0, n as int))
                    =~= chat_anchors(ms@));
            }
            while i < n
                invariant
                    n == ms@.len(),
                    i <= n,
                    out.deep_view() + chat_anchors(ms@.subrange(i as int, n as int))
                        == chat_anchors(ms@),
                decreases n - i,
            {
                let ghost rest = ms@.subrange(i as int, n as int);
                proof {
                    assert(rest[0] == ms@[i as int]);
                    assert(rest.subrange(1, rest.len() as int)
                        =~= ms@.subrange(i + 1, n as int));
                }
                let m: &Message = &ms[i];
                let is_user: bool = crate::strutil::eq_str(m.role.as_str(), "user");
                match &m.content {
                    Some(MessageContent::Text(s)) => {
                        if is_user {
                            let ghost before = out.deep_view();
                            out.push(anchor_of_exec(s.as_str()));
                            proof {
                                assert(out.deep_view() =~= before.push(anchor_of(s@)));
                                assert(before.push(anchor_of(s@))
                                    + chat_anchors(ms@.subrange(i + 1, n as int))
                                    =~= before + (seq![anchor_of(s@)]
                                        + chat_anchors(ms@.subrange(i + 1, n as int))));
                            }
                        }
                    },
                    _ => {},
                }
                i = i + 1;
            }
            proof {
                assert(ms@.subrange(n as int, n as int).len() == 0);
                assert(out.deep_view() + chat_anchors(ms@.subrange(n as int, n as int))
                    =~= out.deep_view());
            }
            out
        },
        RequestPayload::Completion(p) => {
            let mut out: Vec<crate::selector::RoutingKey> = Vec::new();
            out.push(anchor_of_exec(p.prompt.as_str()));
            proof {
                assert(out.deep_view() =~= seq![anchor_of(p.prompt@)]);
            }
            out
        },
        _ => {
            let out: Vec<crate::selector::RoutingKey> = Vec::new();
            proof {
                assert(out.deep_view() =~= Seq::<crate::selector::RoutingKeyV>::empty());
            }
            out
        },
    }
}

} // verus!
