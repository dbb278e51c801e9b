//! What each provider client sends: endpoints, headers and request bodies,
//! model-list queries, and how a reply is read.
use vstd::prelude::*;
use vstd::string::*;
use crate::model::{Attachment, Expert, Message, PanelError, ProviderConfig, ProviderType};
use crate::history::{normalize_history, normalize_spec, Turn};
use crate::text::{chars_of, starts_with_spec, str_starts_with};

verus! {

// ── Provider selection ──

/// The client implementation that serves a provider type.
#[derive(Debug, Clone, Copy, PartialEq, Eq, Structural)]
pub enum ProviderKind {
    OpenAiCompatible,
    Anthropic,
    Gemini,
    Mock,
}

/// OpenAI, Grok and local servers share the OpenAI-compatible client.
pub fn provider_kind(provider_type: &ProviderType) -> (res: ProviderKind)
    ensures
        res == match *provider_type {
            ProviderType::OpenAi | ProviderType::Grok | ProviderType::LocalOpenAiCompatible =>
                ProviderKind::OpenAiCompatible,
            ProviderType::Anthropic => ProviderKind::Anthropic,
            ProviderType::Gemini => ProviderKind::Gemini,
            ProviderType::Mock => ProviderKind::Mock,
        },
{
    match provider_type {
        ProviderType::OpenAi | ProviderType::Grok | ProviderType::LocalOpenAiCompatible => {
            ProviderKind::OpenAiCompatible
        },
        ProviderType::Anthropic => ProviderKind::Anthropic,
        ProviderType::Gemini => ProviderKind::Gemini,
        ProviderType::Mock => ProviderKind::Mock,
    }
}

// ── Headers ──

/// A byte that an HTTP header value may hold: visible ASCII, any byte from
/// 0x80 up, or a tab.
pub open spec fn header_byte_ok(b: u8) -> bool {
    (b >= 32 && b != 127) || b == 9
}

/// Text that an HTTP header value may hold, judged on its UTF-8 bytes.
pub open spec fn header_value_ok(text: Seq<char>) -> bool {
    forall|i: int|
        0 <= i < vstd::utf8::encode_utf8(text).len() ==> header_byte_ok(
            #[trigger] vstd::utf8::encode_utf8(text)[i],
        )
}

/// The text `reqwest::header::InvalidHeaderValue` displays.
pub open spec fn invalid_header_text() -> Seq<char> {
    "failed to parse header value"@
}

/// Calls `reqwest::header::HeaderValue::from_str` (the `http` crate's). Its
/// source accepts exactly the strings whose every byte is at least 32 and not
/// 127, or is a tab; the error it returns displays as
/// "failed to parse header value". The accepted value itself is dropped.
#[verifier::external_body]
fn check_header_value(text: &str) -> (res: Result<(), String>)
    ensures
        res is Ok <==> header_value_ok(text@),
        res matches Err(m) ==> m@ == invalid_header_text(),
{
    match reqwest::header::HeaderValue::from_str(text) {
        Ok(_) => Ok(()),
        Err(e) => Err(e.to_string()),
    }
}

/// One request header.
#[derive(Debug)]
pub struct Header {
    pub name: String,
    pub value: String,
}

/// The views of a header list.
pub open spec fn headers_view(h: Seq<Header>) -> Seq<(Seq<char>, Seq<char>)> {
    h.map_values(|x: Header| (x.name@, x.value@))
}

fn header(name: &str, value: &str) -> (res: Header)
    ensures
        res.name@ == name@,
        res.value@ == value@,
{
    Header { name: String::from_str(name), value: String::from_str(value) }
}

/// The error a rejected header value becomes.
pub open spec fn is_header_error(e: PanelError) -> bool {
    e matches PanelError::ConfigError(m) && m@ == invalid_header_text()
}

/// The headers of an OpenAI-compatible request: `Content-Type:
/// application/json`, then `Authorization: Bearer <key>` when the expert has a
/// key. A key that cannot stand in a header is a configuration error.
pub fn openai_headers(config: &ProviderConfig) -> (res: Result<Vec<Header>, PanelError>)
    ensures
        match config.api_key {
            None => res matches Ok(h) && headers_view(h@) == seq![
                ("Content-Type"@, "application/json"@),
            ],
            Some(k) => if header_value_ok("Bearer "@ + k@) {
                res matches Ok(h) && headers_view(h@) == seq![
                    ("Content-Type"@, "application/json"@),
                    ("Authorization"@, "Bearer "@ + k@),
                ]
            } else {
                res matches Err(e) && is_header_error(e)
            },
        },
{
    let mut headers: Vec<Header> = Vec::new();
    headers.push(header("Content-Type", "application/json"));
    match &config.api_key {
        None => {},
        Some(k) => {
            let mut v = String::from_str("Bearer ");
            v.append(k.as_str());
            match check_header_value(v.as_str()) {
                Ok(()) => {
                    headers.push(Header { name: String::from_str("Authorization"), value: v });
                },
                Err(m) => {
                    return Err(PanelError::ConfigError(m));
                },
            }
        },
    }
    assert(headers_view(headers@) =~= match config.api_key {
        None => seq![("Content-Type"@, "application/json"@)],
        Some(k) => seq![("Content-Type"@, "application/json"@), ("Authorization"@, "Bearer "@ + k@)],
    });
    Ok(headers)
}

/// The headers of an Anthropic request: JSON content, the API version, and
/// `x-api-key` when the expert has a key.
pub fn anthropic_headers(config: &ProviderConfig) -> (res: Result<Vec<Header>, PanelError>)
    ensures
        match config.api_key {
            None => res matches Ok(h) && headers_view(h@) == seq![
                ("Content-Type"@, "application/json"@),
                ("anthropic-version"@, "2023-06-01"@),
            ],
            Some(k) => if header_value_ok(k@) {
                res matches Ok(h) && headers_view(h@) == seq![
                    ("Content-Type"@, "application/json"@),
                    ("anthropic-version"@, "2023-06-01"@),
                    ("x-api-key"@, k@),
                ]
            } else {
                res matches Err(e) && is_header_error(e)
            },
        },
{
    let mut headers: Vec<Header> = Vec::new();
    headers.push(header("Content-Type", "application/json"));
    headers.push(header("anthropic-version", "2023-06-01"));
    match &config.api_key {
        None => {},
        Some(k) => {
            match check_header_value(k.as_str()) {
                Ok(()) => {
                    headers.push(header("x-api-key", k.as_str()));
                },
                Err(m) => {
                    return Err(PanelError::ConfigError(m));
                },
            }
        },
    }
    assert(headers_view(headers@) =~= match config.api_key {
        None => seq![("Content-Type"@, "application/json"@), ("anthropic-version"@, "2023-06-01"@)],
        Some(k) => seq![
            ("Content-Type"@, "application/json"@),
            ("anthropic-version"@, "2023-06-01"@),
            ("x-api-key"@, k@),
        ],
    });
    Ok(headers)
}

/// The headers of a Gemini request: JSON content and `x-goog-api-key` when
/// there is a key. The key travels in a header, never in the URL, because
/// transport errors quote the URL and those errors reach the screen.
pub fn gemini_headers(config: &ProviderConfig) -> (res: Result<Vec<Header>, PanelError>)
    ensures
        match config.api_key {
            None => res matches Ok(h) && headers_view(h@) == seq![
                ("Content-Type"@, "application/json"@),
            ],
            Some(k) => if header_value_ok(k@) {
                res matches Ok(h) && headers_view(h@) == seq![
                    ("Content-Type"@, "application/json"@),
                    ("x-goog-api-key"@, k@),
                ]
            } else {
                res matches Err(e) && is_header_error(e)
            },
        },
{
    let mut headers: Vec<Header> = Vec::new();
    headers.push(header("Content-Type", "application/json"));
    match &config.api_key {
        None => {},
        Some(k) => {
            match check_header_value(k.as_str()) {
                Ok(()) => {
                    headers.push(header("x-goog-api-key", k.as_str()));
                },
                Err(m) => {
                    return Err(PanelError::ConfigError(m));
                },
            }
        },
    }
    assert(headers_view(headers@) =~= match config.api_key {
        None => seq![("Content-Type"@, "application/json"@)],
        Some(k) => seq![("Content-Type"@, "application/json"@), ("x-goog-api-key"@, k@)],
    });
    Ok(headers)
}

// ── Endpoints ──

/// The default base URL of an OpenAI-compatible chat client.
pub open spec fn openai_default_base(t: ProviderType) -> Seq<char> {
    match t {
        ProviderType::Grok => "https://api.x.ai/v1"@,
        _ => "https://api.openai.com/v1"@,
    }
}

/// The chat-completions URL: the configured base URL, or the provider's
/// default, followed by `/chat/completions`.
pub fn openai_endpoint(config: &ProviderConfig) -> (res: String)
    ensures
        res@ == match config.base_url {
            Some(b) => b@,
            None => openai_default_base(config.provider_type),
        } + "/chat/completions"@,
{
    let mut url = match &config.base_url {
        Some(b) => String::from_str(b.as_str()),
        None => match config.provider_type {
            ProviderType::Grok => String::from_str("https://api.x.ai/v1"),
            _ => String::from_str("https://api.openai.com/v1"),
        },
    };
    url.append("/chat/completions");
    url
}

/// The Anthropic messages URL.
pub fn anthropic_endpoint() -> (res: String)
    ensures
        res@ == "https://api.anthropic.com/v1/messages"@,
{
    String::from_str("https://api.anthropic.com/v1/messages")
}

/// The Gemini URL for a model: `generateContent`, or for streaming
/// `streamGenerateContent?alt=sse`, which sends one JSON object per `data:`
/// line instead of one growing array.
pub fn gemini_endpoint(model_name: &str, stream: bool) -> (res: String)
    ensures
        res@ == "https://generativelanguage.googleapis.com/v1beta/models/"@ + model_name@ + if stream {
            ":streamGenerateContent?alt=sse"@
        } else {
            ":generateContent"@
        },
{
    let mut url = String::from_str("https://generativelanguage.googleapis.com/v1beta/models/");
    url.append(model_name);
    if stream {
        url.append(":streamGenerateContent?alt=sse");
    } else {
        url.append(":generateContent");
    }
    url
}

// ── Attachments ──

/// Only images are sent to the models; other attachments are left out.
pub open spec fn is_image(a: Attachment) -> bool {
    starts_with_spec(a.mime_type@, "image/"@)
}

/// The image attachments, in order.
pub open spec fn image_attachments(atts: Seq<Attachment>) -> Seq<Attachment>
    decreases atts.len(),
{
    if atts.len() == 0 {
        Seq::empty()
    } else {
        let prev = image_attachments(atts.drop_last());
        if is_image(atts.last()) {
            prev.push(atts.last())
        } else {
            prev
        }
    }
}

/// Whether an attachment is an image.
pub fn attachment_is_image(a: &Attachment) -> (res: bool)
    ensures
        res == is_image(*a),
{
    str_starts_with(a.mime_type.as_str(), "image/")
}

/// A media part, as pairs of media type and base64 data.
pub open spec fn media_view(atts: Seq<Attachment>) -> Seq<(Seq<char>, Seq<char>)> {
    image_attachments(atts).map_values(|a: Attachment| (a.mime_type@, a.base64_data@))
}

/// An attachment whose media type names an image.
pub open spec fn has_image_type(a: Attachment) -> bool {
    starts_with_spec(a.mime_type@, "image/"@)
}

proof fn lemma_image_attachments_filter(atts: Seq<Attachment>)
    ensures
        image_attachments(atts) == atts.filter(|a: Attachment| has_image_type(a)),
    decreases atts.len(),
{
    reveal(Seq::filter);
    let pred = |a: Attachment| has_image_type(a);
    if atts.len() > 0 {
        lemma_image_attachments_filter(atts.drop_last());
        assert(atts.filter(pred) == if pred(atts.last()) {
            atts.drop_last().filter(pred).push(atts.last())
        } else {
            atts.drop_last().filter(pred)
        });
    } else {
        assert(atts.filter(pred) =~= Seq::<Attachment>::empty());
    }
}

proof fn lemma_image_attachments_hold(atts: Seq<Attachment>, i: int) -> (k: int)
    requires
        0 <= i < atts.len(),
        has_image_type(atts[i]),
    ensures
        0 <= k < image_attachments(atts).len(),
        image_attachments(atts)[k] == atts[i],
    decreases atts.len(),
{
    let prev = image_attachments(atts.drop_last());
    if i == atts.len() - 1 {
        prev.len() as int
    } else {
        assert(atts.drop_last()[i] == atts[i]);
        lemma_image_attachments_hold(atts.drop_last(), i)
    }
}

/// The media sent with a request are exactly the attachments whose media
/// type starts with `image/` (JPEG, PNG, GIF, WebP, ...), in attachment
/// order, each with its own media type and data; every such attachment is
/// among them.
pub proof fn lemma_every_image_is_sent(atts: Seq<Attachment>)
    ensures
        image_attachments(atts) == atts.filter(|a: Attachment| has_image_type(a)),
        media_view(atts) == atts.filter(|a: Attachment| has_image_type(a)).map_values(
            |a: Attachment| (a.mime_type@, a.base64_data@),
        ),
        forall|i: int|
            0 <= i < atts.len() && has_image_type(#[trigger] atts[i]) ==> media_view(atts).contains(
                (atts[i].mime_type@, atts[i].base64_data@),
            ),
{
    lemma_image_attachments_filter(atts);
    assert forall|i: int| 0 <= i < atts.len() && has_image_type(#[trigger] atts[i]) implies media_view(
        atts,
    ).contains((atts[i].mime_type@, atts[i].base64_data@)) by {
        let k = lemma_image_attachments_hold(atts, i);
        assert(media_view(atts)[k] == (atts[i].mime_type@, atts[i].base64_data@));
    }
}

/// The user content of an OpenAI-compatible request with attachments is the
/// prompt followed by one `data:` URL part for each attachment whose media
/// type starts with `image/`, in attachment order.
pub proof fn lemma_openai_request_sends_every_image(c: OpenAiContent, prompt: Seq<char>, atts: Seq<Attachment>)
    requires
        openai_user_content_is(c, prompt, atts),
        atts.len() > 0,
    ensures
        c matches OpenAiContent::Parts(ps) && ps@.map_values(|p: OpenAiPart| openai_part_view(p))
            == seq![(false, prompt)] + atts.filter(|a: Attachment| has_image_type(a)).map_values(
            |a: Attachment| (true, "data:"@ + a.mime_type@ + ";base64,"@ + a.base64_data@),
        ),
{
    lemma_image_attachments_filter(atts);
    let f = atts.filter(|a: Attachment| has_image_type(a));
    assert(f.map_values(|a: Attachment| (true, data_url(a))) =~= f.map_values(
        |a: Attachment| (true, "data:"@ + a.mime_type@ + ";base64,"@ + a.base64_data@),
    ));
}

/// The user content of an Anthropic request with attachments is the prompt
/// followed by one image part for each attachment whose media type starts
/// with `image/`, in attachment order.
pub proof fn lemma_anthropic_request_sends_every_image(
    c: AnthropicContent,
    prompt: Seq<char>,
    atts: Seq<Attachment>,
)
    requires
        anthropic_user_content_is(c, prompt, atts),
        atts.len() > 0,
    ensures
        c matches AnthropicContent::Parts(ps) && ps@.map_values(|p: AnthropicPart| anthropic_part_view(p))
            == seq![(false, prompt, Seq::<char>::empty())] + atts.filter(
            |a: Attachment| has_image_type(a),
        ).map_values(|a: Attachment| (true, a.mime_type@, a.base64_data@)),
{
    lemma_every_image_is_sent(atts);
    let f = atts.filter(|a: Attachment| has_image_type(a));
    assert(media_view(atts).map_values(|m: (Seq<char>, Seq<char>)| (true, m.0, m.1)) =~= f.map_values(
        |a: Attachment| (true, a.mime_type@, a.base64_data@),
    ));
}

// ── OpenAI-compatible request ──

/// One part of a multimodal OpenAI message.
#[derive(Debug)]
pub enum OpenAiPart {
    Text(String),
    /// An image given as a `data:` URL.
    ImageUrl(String),
}

/// The content of an OpenAI message: plain text, or a list of parts.
#[derive(Debug)]
pub enum OpenAiContent {
    Text(String),
    Parts(Vec<OpenAiPart>),
}

#[derive(Debug)]
pub struct OpenAiMessage {
    pub role: String,
    pub content: OpenAiContent,
}

/// An OpenAI-compatible chat-completions request. There is no temperature:
/// reasoning-tier models refuse any value but the default.
#[derive(Debug)]
pub struct OpenAiRequest {
    pub model: String,
    pub messages: Vec<OpenAiMessage>,
    pub stream: bool,
}

/// The `data:` URL of an image attachment.
pub open spec fn data_url(a: Attachment) -> Seq<char> {
    "data:"@ + a.mime_type@ + ";base64,"@ + a.base64_data@
}

/// A part as a pair: whether it is an image, and its text or URL.
pub open spec fn openai_part_view(p: OpenAiPart) -> (bool, Seq<char>) {
    match p {
        OpenAiPart::Text(t) => (false, t@),
        OpenAiPart::ImageUrl(u) => (true, u@),
    }
}

/// The user content of an OpenAI request: the prompt alone when there are no
/// attachments, else the prompt followed by one URL part per image.
pub open spec fn openai_user_content_is(c: OpenAiContent, prompt: Seq<char>, atts: Seq<Attachment>) -> bool {
    if atts.len() == 0 {
        c matches OpenAiContent::Text(t) && t@ == prompt
    } else {
        c matches OpenAiContent::Parts(ps) && ps@.map_values(|p: OpenAiPart| openai_part_view(p))
            == seq![(false, prompt)] + image_attachments(atts).map_values(
            |a: Attachment| (true, data_url(a)),
        )
    }
}

/// A message with plain-text content.
pub open spec fn openai_text_message(m: OpenAiMessage, role: Seq<char>, text: Seq<char>) -> bool {
    m.role@ == role && (m.content matches OpenAiContent::Text(t) && t@ == text)
}

fn openai_user_content(prompt: &str, attachments: &[Attachment]) -> (res: OpenAiContent)
    ensures
        openai_user_content_is(res, prompt@, attachments@),
{
    if attachments.len() == 0 {
        return OpenAiContent::Text(String::from_str(prompt));
    }
    let mut parts: Vec<OpenAiPart> = Vec::new();
    parts.push(OpenAiPart::Text(String::from_str(prompt)));
    let mut k: usize = 0;
    assert(attachments@.subrange(0, 0) =~= Seq::<Attachment>::empty());
    assert(parts@.map_values(|p: OpenAiPart| openai_part_view(p)) =~= seq![(false, prompt@)]
        + image_attachments(attachments@.subrange(0, 0)).map_values(
        |a: Attachment| (true, data_url(a)),
    ));
    while k < attachments.len()
        invariant
            k <= attachments.len(),
            parts@.map_values(|p: OpenAiPart| openai_part_view(p)) == seq![(false, prompt@)]
                + image_attachments(attachments@.subrange(0, k as int)).map_values(
                |a: Attachment| (true, data_url(a)),
            ),
        decreases attachments.len() - k,
    {
        let att = &attachments[k];
        let ghost prev = parts@;
        let ghost before = image_attachments(attachments@.subrange(0, k as int));
        assert(attachments@.subrange(0, k + 1).drop_last() =~= attachments@.subrange(0, k as int));
        assert(attachments@.subrange(0, k + 1).last() == attachments@[k as int]);
        if attachment_is_image(att) {
            let mut url = String::from_str("data:");
            url.append(att.mime_type.as_str());
            url.append(";base64,");
            url.append(att.base64_data.as_str());
            parts.push(OpenAiPart::ImageUrl(url));
            assert(image_attachments(attachments@.subrange(0, k + 1)) == before.push(*att));
            assert(before.push(*att).map_values(|a: Attachment| (true, data_url(a))) =~= before.map_values(
                |a: Attachment| (true, data_url(a)),
            ).push((true, data_url(*att))));
            assert(parts@.map_values(|p: OpenAiPart| openai_part_view(p)) =~= prev.map_values(
                |p: OpenAiPart| openai_part_view(p),
            ).push((true, data_url(*att))));
        } else {
            assert(image_attachments(attachments@.subrange(0, k + 1)) == before);
        }
        k = k + 1;
    }
    assert(attachments@.subrange(0, attachments.len() as int) =~= attachments@);
    OpenAiContent::Parts(parts)
}

/// The request an OpenAI-compatible client sends: the expert's system prompt,
/// the normalized history, then the user's prompt with any images.
pub fn openai_request(
    prompt: &str,
    attachments: &[Attachment],
    history: &[Message],
    expert: &Expert,
    stream: bool,
) -> (res: OpenAiRequest)
    ensures
        res.model@ == expert.config.model_name@,
        res.stream == stream,
        res.messages@.len() == normalize_spec(history@).len() + 2,
        openai_text_message(res.messages@[0], "system"@, expert.system_prompt@),
        forall|i: int|
            0 <= i < normalize_spec(history@).len() ==> openai_text_message(
                #[trigger] res.messages@[i + 1],
                normalize_spec(history@)[i].0,
                normalize_spec(history@)[i].1,
            ),
        res.messages@.last().role@ == "user"@,
        openai_user_content_is(res.messages@.last().content, prompt@, attachments@),
{
    let turns = normalize_history(history);
    let ghost t = normalize_spec(history@);
    let mut messages: Vec<OpenAiMessage> = Vec::new();
    messages.push(
        OpenAiMessage {
            role: String::from_str("system"),
            content: OpenAiContent::Text(String::from_str(expert.system_prompt.as_str())),
        },
    );
    let mut k: usize = 0;
    while k < turns.len()
        invariant
            k <= turns.len(),
            t == crate::history::turns_view(turns@),
            messages@.len() == k + 1,
            openai_text_message(messages@[0], "system"@, expert.system_prompt@),
            forall|i: int| 0 <= i < k ==> openai_text_message(#[trigger] messages@[i + 1], t[i].0, t[i].1),
        decreases turns.len() - k,
    {
        let role = turns[k].0.clone();
        let content = turns[k].1.clone();
        messages.push(OpenAiMessage { role, content: OpenAiContent::Text(content) });
        k = k + 1;
    }
    let user = openai_user_content(prompt, attachments);
    messages.push(OpenAiMessage { role: String::from_str("user"), content: user });
    OpenAiRequest { model: String::from_str(expert.config.model_name.as_str()), messages, stream }
}

/// The media type and data of each image attachment, in order.
fn image_media(attachments: &[Attachment]) -> (res: Vec<(String, String)>)
    ensures
        res@.map_values(|p: (String, String)| (p.0@, p.1@)) == media_view(attachments@),
{
    let mut out: Vec<(String, String)> = Vec::new();
    let mut k: usize = 0;
    assert(attachments@.subrange(0, 0) =~= Seq::<Attachment>::empty());
    assert(out@.map_values(|p: (String, String)| (p.0@, p.1@)) =~= media_view(
        attachments@.subrange(0, 0),
    ));
    while k < attachments.len()
        invariant
            k <= attachments.len(),
            out@.map_values(|p: (String, String)| (p.0@, p.1@)) == media_view(
                attachments@.subrange(0, k as int),
            ),
        decreases attachments.len() - k,
    {
        let att = &attachments[k];
        let ghost prev = out@;
        let ghost before = image_attachments(attachments@.subrange(0, k as int));
        assert(attachments@.subrange(0, k + 1).drop_last() =~= attachments@.subrange(0, k as int));
        assert(attachments@.subrange(0, k + 1).last() == attachments@[k as int]);
        if attachment_is_image(att) {
            out.push((att.mime_type.clone(), att.base64_data.clone()));
            assert(image_attachments(attachments@.subrange(0, k + 1)) == before.push(*att));
            assert(media_view(attachments@.subrange(0, k + 1)) =~= media_view(
                attachments@.subrange(0, k as int),
            ).push((att.mime_type@, att.base64_data@)));
            assert(out@.map_values(|p: (String, String)| (p.0@, p.1@)) =~= prev.map_values(
                |p: (String, String)| (p.0@, p.1@),
            ).push((att.mime_type@, att.base64_data@)));
        } else {
            assert(image_attachments(attachments@.subrange(0, k + 1)) == before);
        }
        k = k + 1;
    }
    assert(attachments@.subrange(0, attachments.len() as int) =~= attachments@);
    out
}

// ── Anthropic request ──

/// One part of a multimodal Anthropic message.
#[derive(Debug)]
pub enum AnthropicPart {
    Text(String),
    /// A base64 image.
    Image { media_type: String, data: String },
}

/// The content of an Anthropic message: plain text, or a list of parts.
#[derive(Debug)]
pub enum AnthropicContent {
    Text(String),
    Parts(Vec<AnthropicPart>),
}

#[derive(Debug)]
pub struct AnthropicMessage {
    pub role: String,
    pub content: AnthropicContent,
}

/// An Anthropic messages request. There is no temperature: newer models
/// refuse it, and it is disallowed with extended thinking.
#[derive(Debug)]
pub struct AnthropicRequest {
    pub model: String,
    pub max_tokens: u32,
    pub system: String,
    pub messages: Vec<AnthropicMessage>,
    pub stream: bool,
    /// The extended-thinking token budget, when thinking is on.
    pub thinking_budget: Option<u32>,
}

/// A part as a triple: whether it is an image, then its text (or media type)
/// and its data.
pub open spec fn anthropic_part_view(p: AnthropicPart) -> (bool, Seq<char>, Seq<char>) {
    match p {
        AnthropicPart::Text(t) => (false, t@, Seq::empty()),
        AnthropicPart::Image { media_type, data } => (true, media_type@, data@),
    }
}

/// The user content of an Anthropic request: the prompt alone when there are
/// no attachments, else the prompt followed by one part per image.
pub open spec fn anthropic_user_content_is(
    c: AnthropicContent,
    prompt: Seq<char>,
    atts: Seq<Attachment>,
) -> bool {
    if atts.len() == 0 {
        c matches AnthropicContent::Text(t) && t@ == prompt
    } else {
        c matches AnthropicContent::Parts(ps) && ps@.map_values(
            |p: AnthropicPart| anthropic_part_view(p),
        ) == seq![(false, prompt, Seq::<char>::empty())] + media_view(atts).map_values(
            |m: (Seq<char>, Seq<char>)| (true, m.0, m.1),
        )
    }
}

/// A message with plain-text content.
pub open spec fn anthropic_text_message(m: AnthropicMessage, role: Seq<char>, text: Seq<char>) -> bool {
    m.role@ == role && (m.content matches AnthropicContent::Text(t) && t@ == text)
}

/// The request an Anthropic client sends: the normalized history, then the
/// user's prompt with any images; 4096 output tokens, or with extended
/// thinking a 4096-token thinking budget and 8192 output tokens.
pub fn anthropic_request(
    prompt: &str,
    attachments: &[Attachment],
    history: &[Message],
    expert: &Expert,
    stream: bool,
) -> (res: AnthropicRequest)
    ensures
        res.model@ == expert.config.model_name@,
        res.system@ == expert.system_prompt@,
        res.stream == stream,
        res.max_tokens == if expert.config.enable_thinking { 8192u32 } else { 4096u32 },
        res.thinking_budget == if expert.config.enable_thinking { Some(4096u32) } else { None },
        res.messages@.len() == normalize_spec(history@).len() + 1,
        forall|i: int|
            0 <= i < normalize_spec(history@).len() ==> anthropic_text_message(
                #[trigger] res.messages@[i],
                normalize_spec(history@)[i].0,
                normalize_spec(history@)[i].1,
            ),
        res.messages@.last().role@ == "user"@,
        anthropic_user_content_is(res.messages@.last().content, prompt@, attachments@),
{
    let turns = normalize_history(history);
    let ghost t = normalize_spec(history@);
    let mut messages: Vec<AnthropicMessage> = Vec::new();
    let mut k: usize = 0;
    while k < turns.len()
        invariant
            k <= turns.len(),
            t == crate::history::turns_view(turns@),
            messages@.len() == k,
            forall|i: int| 0 <= i < k ==> anthropic_text_message(#[trigger] messages@[i], t[i].0, t[i].1),
        decreases turns.len() - k,
    {
        let role = turns[k].0.clone();
        let content = turns[k].1.clone();
        messages.push(AnthropicMessage { role, content: AnthropicContent::Text(content) });
        k = k + 1;
    }
    let user = if attachments.len() == 0 {
        AnthropicContent::Text(String::from_str(prompt))
    } else {
        let media = image_media(attachments);
        let mut parts: Vec<AnthropicPart> = Vec::new();
        parts.push(AnthropicPart::Text(String::from_str(prompt)));
        let mut j: usize = 0;
        while j < media.len()
            invariant
                j <= media.len(),
                parts@.map_values(|p: AnthropicPart| anthropic_part_view(p)) == seq![
                    (false, prompt@, Seq::<char>::empty()),
                ] + media@.subrange(0, j as int).map_values(
                    |p: (String, String)| (true, p.0@, p.1@),
                ),
            decreases media.len() - j,
        {
            let ghost prev = parts@;
            parts.push(
                AnthropicPart::Image { media_type: media[j].0.clone(), data: media[j].1.clone() },
            );
            assert(media@.subrange(0, j + 1).map_values(|p: (String, String)| (true, p.0@, p.1@))
                =~= media@.subrange(0, j as int).map_values(
                |p: (String, String)| (true, p.0@, p.1@),
            ).push((true, media@[j as int].0@, media@[j as int].1@)));
            assert(parts@.map_values(|p: AnthropicPart| anthropic_part_view(p)) =~= prev.map_values(
                |p: AnthropicPart| anthropic_part_view(p),
            ).push((true, media@[j as int].0@, media@[j as int].1@)));
            j = j + 1;
        }
        assert(media@.subrange(0, media.len() as int) =~= media@);
        assert(media@.map_values(|p: (String, String)| (true, p.0@, p.1@)) =~= media_view(
            attachments@,
        ).map_values(|m: (Seq<char>, Seq<char>)| (true, m.0, m.1)));
        AnthropicContent::Parts(parts)
    };
    messages.push(AnthropicMessage { role: String::from_str("user"), content: user });
    let thinking = expert.config.enable_thinking;
    AnthropicRequest {
        model: String::from_str(expert.config.model_name.as_str()),
        max_tokens: if thinking {
            8192
        } else {
            4096
        },
        system: String::from_str(expert.system_prompt.as_str()),
        messages,
        stream,
        thinking_budget: if thinking {
            Some(4096)
        } else {
            None
        },
    }
}

// ── Gemini request ──

/// One part of a Gemini content entry.
#[derive(Debug)]
pub enum GeminiPart {
    Text(String),
    /// A base64 image.
    InlineData { mime_type: String, data: String },
}

#[derive(Debug)]
pub struct GeminiContent {
    pub role: String,
    pub parts: Vec<GeminiPart>,
}

/// A Gemini request, without its sampling temperature, which the host adds.
#[derive(Debug)]
pub struct GeminiRequest {
    pub contents: Vec<GeminiContent>,
    pub system_instruction: String,
    /// Ask for thought summaries.
    pub include_thoughts: bool,
}

/// Gemini calls the assistant's turn `model`; `assistant` is rejected.
pub open spec fn gemini_role(role: Seq<char>) -> Seq<char> {
    if role == "assistant"@ {
        "model"@
    } else {
        "user"@
    }
}

/// A part as a triple: whether it is an image, then its text (or media type)
/// and its data.
pub open spec fn gemini_part_view(p: GeminiPart) -> (bool, Seq<char>, Seq<char>) {
    match p {
        GeminiPart::Text(t) => (false, t@, Seq::empty()),
        GeminiPart::InlineData { mime_type, data } => (true, mime_type@, data@),
    }
}

/// A content entry holding one text part.
pub open spec fn gemini_text_content(c: GeminiContent, role: Seq<char>, text: Seq<char>) -> bool {
    &&& c.role@ == role
    &&& c.parts@.len() == 1
    &&& c.parts@[0] matches GeminiPart::Text(t) && t@ == text
}

/// The request a Gemini client sends: the normalized history with
/// `assistant` renamed `model`, then the user's prompt followed by one part
/// per image; the system prompt goes out of band.
pub fn gemini_request(
    prompt: &str,
    attachments: &[Attachment],
    history: &[Message],
    expert: &Expert,
) -> (res: GeminiRequest)
    ensures
        res.system_instruction@ == expert.system_prompt@,
        res.include_thoughts == expert.config.enable_thinking,
        res.contents@.len() == normalize_spec(history@).len() + 1,
        forall|i: int|
            0 <= i < normalize_spec(history@).len() ==> gemini_text_content(
                #[trigger] res.contents@[i],
                gemini_role(normalize_spec(history@)[i].0),
                normalize_spec(history@)[i].1,
            ),
        res.contents@.last().role@ == "user"@,
        res.contents@.last().parts@.map_values(|p: GeminiPart| gemini_part_view(p)) == seq![
            (false, prompt@, Seq::<char>::empty()),
        ] + media_view(attachments@).map_values(|m: (Seq<char>, Seq<char>)| (true, m.0, m.1)),
{
    let turns = normalize_history(history);
    let ghost t = normalize_spec(history@);
    let mut contents: Vec<GeminiContent> = Vec::new();
    let mut k: usize = 0;
    while k < turns.len()
        invariant
            k <= turns.len(),
            t == crate::history::turns_view(turns@),
            contents@.len() == k,
            forall|i: int|
                0 <= i < k ==> gemini_text_content(#[trigger] contents@[i], gemini_role(t[i].0), t[i].1),
        decreases turns.len() - k,
    {
        let is_assistant = turns[k].0 == String::from_str("assistant");
        let role = if is_assistant {
            String::from_str("model")
        } else {
            String::from_str("user")
        };
        let mut parts: Vec<GeminiPart> = Vec::new();
        parts.push(GeminiPart::Text(turns[k].1.clone()));
        contents.push(GeminiContent { role, parts });
        k = k + 1;
    }
    let media = image_media(attachments);
    let mut parts: Vec<GeminiPart> = Vec::new();
    parts.push(GeminiPart::Text(String::from_str(prompt)));
    let mut j: usize = 0;
    while j < media.len()
        invariant
            j <= media.len(),
            parts@.map_values(|p: GeminiPart| gemini_part_view(p)) == seq![
                (false, prompt@, Seq::<char>::empty()),
            ] + media@.subrange(0, j as int).map_values(|p: (String, String)| (true, p.0@, p.1@)),
        decreases media.len() - j,
    {
        let ghost prev = parts@;
        parts.push(GeminiPart::InlineData { mime_type: media[j].0.clone(), data: media[j].1.clone() });
        assert(media@.subrange(0, j + 1).map_values(|p: (String, String)| (true, p.0@, p.1@))
            =~= media@.subrange(0, j as int).map_values(|p: (String, String)| (true, p.0@, p.1@)).push(
            (true, media@[j as int].0@, media@[j as int].1@),
        ));
        assert(parts@.map_values(|p: GeminiPart| gemini_part_view(p)) =~= prev.map_values(
            |p: GeminiPart| gemini_part_view(p),
        ).push((true, media@[j as int].0@, media@[j as int].1@)));
        j = j + 1;
    }
    assert(media@.subrange(0, media.len() as int) =~= media@);
    assert(media@.map_values(|p: (String, String)| (true, p.0@, p.1@)) =~= media_view(
        attachments@,
    ).map_values(|m: (Seq<char>, Seq<char>)| (true, m.0, m.1)));
    contents.push(GeminiContent { role: String::from_str("user"), parts });
    GeminiRequest {
        contents,
        system_instruction: String::from_str(expert.system_prompt.as_str()),
        include_thoughts: expert.config.enable_thinking,
    }
}


/// The history part of a Gemini request alternates between `user` and
/// `model`, and starts with `user`: the only roles Gemini accepts, in the
/// order it accepts them.
pub proof fn lemma_gemini_history_roles(history: Seq<Message>)
    ensures
        ({
            let t = normalize_spec(history);
            &&& forall|i: int|
                0 <= i < t.len() ==> (gemini_role(#[trigger] t[i].0) == "user"@ || gemini_role(t[i].0)
                    == "model"@)
            &&& t.len() > 0 ==> gemini_role(t[0].0) == "user"@
            &&& forall|i: int|
                0 <= i < t.len() - 1 ==> gemini_role(#[trigger] t[i].0) != gemini_role(t[i + 1].0)
        }),
{
    reveal_strlit("user");
    reveal_strlit("model");
    reveal_strlit("assistant");
    crate::history::lemma_normalize_alternates(history);
    let t = normalize_spec(history);
    assert forall|i: int| 0 <= i < t.len() - 1 implies gemini_role(#[trigger] t[i].0) != gemini_role(
        t[i + 1].0,
    ) by {
        assert(t[i].0 != t[i + 1].0);
        assert(t[i].0 == "user"@ || t[i].0 == "assistant"@);
        assert(t[i + 1].0 == "user"@ || t[i + 1].0 == "assistant"@);
    }
}

// ── Replies ──

/// The error for a reply whose HTTP status is not a success.
pub open spec fn status_error_text(context: Seq<char>, status: Seq<char>, body: Seq<char>) -> Seq<char> {
    context + " status: "@ + status + ", body: "@ + body
}

/// A reply with a failing HTTP status becomes an API error that quotes the
/// status and the body, after a context such as "OpenAI response".
pub fn api_status_error(context: &str, status: &str, body: &str) -> (res: PanelError)
    ensures
        res matches PanelError::ApiError(m) && m@ == status_error_text(context@, status@, body@),
{
    let mut m = String::from_str(context);
    m.append(" status: ");
    m.append(status);
    m.append(", body: ");
    m.append(body);
    PanelError::ApiError(m)
}

/// The answer text found in a reply, or the error for a reply that had none
/// where the provider puts it.
pub fn reply_text(provider: &str, text: Option<String>) -> (res: Result<String, PanelError>)
    ensures
        match text {
            Some(t) => res matches Ok(r) && r@ == t@,
            None => res matches Err(PanelError::SerializationError(m)) && m@
                == "Failed to extract content from "@ + provider@ + " response"@,
        },
{
    match text {
        Some(t) => Ok(t),
        None => {
            let mut m = String::from_str("Failed to extract content from ");
            m.append(provider);
            m.append(" response");
            Err(PanelError::SerializationError(m))
        },
    }
}

// ── Model discovery ──

/// Where a model list keeps the model names.
#[derive(Debug, Clone, Copy, PartialEq, Eq, Structural)]
pub enum ModelListFormat {
    /// `data[*].id`.
    DataIds,
    /// `models[*].name`, each with a `models/` prefix.
    GeminiNames,
}

/// How to obtain the model names of a provider.
#[derive(Debug)]
pub enum ModelsQuery {
    /// No request: the names are known.
    Fixed(Vec<String>),
    /// A GET request, and how to read its reply.
    Fetch {
        url: String,
        headers: Vec<Header>,
        format: ModelListFormat,
        /// Names the request in a failing-status error.
        error_context: String,
    },
}

/// The default base URL used for listing models.
pub open spec fn models_default_base(t: ProviderType) -> Seq<char> {
    match t {
        ProviderType::Grok => "https://api.x.ai/v1"@,
        ProviderType::LocalOpenAiCompatible => "http://localhost:11434/v1"@,
        _ => "https://api.openai.com/v1"@,
    }
}

/// Without a configured base URL, OpenAI and Grok list their models at the
/// same service their chat requests go to, and the three OpenAI-compatible
/// providers each list theirs at a service of their own, so a key is never
/// sent to another provider's service.
pub proof fn lemma_models_listed_where_chat_goes()
    ensures
        models_default_base(ProviderType::OpenAi) == openai_default_base(ProviderType::OpenAi),
        models_default_base(ProviderType::Grok) == openai_default_base(ProviderType::Grok),
        models_default_base(ProviderType::Grok) != models_default_base(ProviderType::OpenAi),
        models_default_base(ProviderType::LocalOpenAiCompatible) != models_default_base(
            ProviderType::OpenAi,
        ),
        models_default_base(ProviderType::LocalOpenAiCompatible) != models_default_base(
            ProviderType::Grok,
        ),
{
    reveal_strlit("https://api.x.ai/v1");
    reveal_strlit("https://api.openai.com/v1");
    reveal_strlit("http://localhost:11434/v1");
    assert(models_default_base(ProviderType::Grok).len() != models_default_base(ProviderType::OpenAi).len());
    assert(models_default_base(ProviderType::Grok).len() != models_default_base(
        ProviderType::LocalOpenAiCompatible,
    ).len());
    assert(models_default_base(ProviderType::LocalOpenAiCompatible)[4] != models_default_base(
        ProviderType::OpenAi,
    )[4]);
}

/// The error for a provider that needs a key and has none.
pub open spec fn is_missing_key(e: PanelError) -> bool {
    e matches PanelError::ConfigError(m) && m@ == "Missing API key"@
}

/// How to list the models of a provider. The mock provider has exactly
/// `mock-model`. Anthropic and Gemini need a key; the OpenAI-compatible
/// providers send one when they have it, to `<base>/models`.
pub fn models_query(config: &ProviderConfig) -> (res: Result<ModelsQuery, PanelError>)
    ensures
        match config.provider_type {
            ProviderType::Mock => res matches Ok(ModelsQuery::Fixed(v)) && v@.len() == 1 && v@[0]@
                == "mock-model"@,
            ProviderType::Anthropic => match config.api_key {
                None => res matches Err(e) && is_missing_key(e),
                Some(k) => if header_value_ok(k@) {
                    res matches Ok(ModelsQuery::Fetch { url, headers, format, error_context }) && url@
                        == "https://api.anthropic.com/v1/models?limit=1000"@ && headers_view(headers@)
                        == seq![("x-api-key"@, k@), ("anthropic-version"@, "2023-06-01"@)]
                        && format == ModelListFormat::DataIds && error_context@
                        == "Anthropic models list"@
                } else {
                    res matches Err(e) && is_header_error(e)
                },
            },
            ProviderType::Gemini => match config.api_key {
                None => res matches Err(e) && is_missing_key(e),
                Some(k) => if header_value_ok(k@) {
                    res matches Ok(ModelsQuery::Fetch { url, headers, format, error_context }) && url@
                        == "https://generativelanguage.googleapis.com/v1beta/models?pageSize=1000"@
                        && headers_view(headers@) == seq![
                        ("Content-Type"@, "application/json"@),
                        ("x-goog-api-key"@, k@),
                    ] && format == ModelListFormat::GeminiNames && error_context@
                        == "Gemini models list"@
                } else {
                    res matches Err(e) && is_header_error(e)
                },
            },
            _ => {
                let url = match config.base_url {
                    Some(b) => b@,
                    None => models_default_base(config.provider_type),
                } + "/models"@;
                match config.api_key {
                    None => res matches Ok(ModelsQuery::Fetch { url: u, headers, format, error_context })
                        && u@ == url && headers@.len() == 0 && format == ModelListFormat::DataIds
                        && error_context@ == "Models list"@,
                    Some(k) => if header_value_ok("Bearer "@ + k@) {
                        res matches Ok(ModelsQuery::Fetch { url: u, headers, format, error_context })
                            && u@ == url && headers_view(headers@) == seq![
                            ("Authorization"@, "Bearer "@ + k@),
                        ] && format == ModelListFormat::DataIds && error_context@ == "Models list"@
                    } else {
                        res matches Err(e) && is_header_error(e)
                    },
                }
            },
        },
{
    match config.provider_type {
        ProviderType::Mock => {
            let mut v: Vec<String> = Vec::new();
            v.push(String::from_str("mock-model"));
            Ok(ModelsQuery::Fixed(v))
        },
        ProviderType::Anthropic => {
            let k = match &config.api_key {
                Some(k) => k,
                None => {
                    return Err(PanelError::ConfigError(String::from_str("Missing API key")));
                },
            };
            match check_header_value(k.as_str()) {
                Ok(()) => {},
                Err(m) => {
                    return Err(PanelError::ConfigError(m));
                },
            }
            let mut headers: Vec<Header> = Vec::new();
            headers.push(header("x-api-key", k.as_str()));
            headers.push(header("anthropic-version", "2023-06-01"));
            assert(headers_view(headers@) =~= seq![
                ("x-api-key"@, k@),
                ("anthropic-version"@, "2023-06-01"@),
            ]);
            Ok(
                ModelsQuery::Fetch {
                    url: String::from_str("https://api.anthropic.com/v1/models?limit=1000"),
                    headers,
                    format: ModelListFormat::DataIds,
                    error_context: String::from_str("Anthropic models list"),
                },
            )
        },
        ProviderType::Gemini => {
            if config.api_key.is_none() {
                return Err(PanelError::ConfigError(String::from_str("Missing API key")));
            }
            let headers = gemini_headers(config)?;
            Ok(
                ModelsQuery::Fetch {
                    url: String::from_str(
                        "https://generativelanguage.googleapis.com/v1beta/models?pageSize=1000",
                    ),
                    headers,
                    format: ModelListFormat::GeminiNames,
                    error_context: String::from_str("Gemini models list"),
                },
            )
        },
        _ => {
            let mut url = match &config.base_url {
                Some(b) => String::from_str(b.as_str()),
                None => match config.provider_type {
                    ProviderType::Grok => String::from_str("https://api.x.ai/v1"),
                    ProviderType::LocalOpenAiCompatible => String::from_str(
                        "http://localhost:11434/v1",
                    ),
                    _ => String::from_str("https://api.openai.com/v1"),
                },
            };
            url.append("/models");
            let mut headers: Vec<Header> = Vec::new();
            match &config.api_key {
                None => {},
                Some(k) => {
                    let mut v = String::from_str("Bearer ");
                    v.append(k.as_str());
                    match check_header_value(v.as_str()) {
                        Ok(()) => {
                            headers.push(
                                Header { name: String::from_str("Authorization"), value: v },
                            );
                        },
                        Err(m) => {
                            return Err(PanelError::ConfigError(m));
                        },
                    }
                    assert(headers_view(headers@) =~= seq![("Authorization"@, "Bearer "@ + k@)]);
                },
            }
            Ok(
                ModelsQuery::Fetch {
                    url,
                    headers,
                    format: ModelListFormat::DataIds,
                    error_context: String::from_str("Models list"),
                },
            )
        },
    }
}

} // verus!
