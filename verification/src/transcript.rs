//! Conversations, and the transcript by which one of them reaches Codex.
use crate::error::{GatewayError, GatewayErrorView};
use crate::json;
use crate::json::{JsonTree, Members};
use crate::text;
use serde_json::Value;
use vstd::prelude::*;
use vstd::string::*;

verus! {

/// One message of a conversation.
#[derive(Debug, Clone)]
pub struct Message {
    pub role: String,
    pub content: Content,
}

/// What a message says.
#[derive(Debug, Clone)]
pub enum Content {
    Text(String),
    Parts(Vec<ContentPart>),
}

/// An image by its address, in one of the two shapes that a chat request may give it.
#[derive(Debug, Clone)]
pub enum ImageUrl {
    Url(String),
    Object { url: String, detail: Option<ImageDetail> },
}

/// One part of a message.
#[derive(Debug, Clone)]
pub enum ContentPart {
    Text { text: String },
    ChatImage { image_url: ImageUrl },
    ResponseImage {
        image_url: Option<String>,
        file_id: Option<String>,
        detail: Option<ImageDetail>,
    },
    File {
        file_id: Option<String>,
        file_url: Option<String>,
        file_data: Option<String>,
        filename: Option<String>,
    },
}

/// How closely an image is to be looked at.
#[derive(Debug, Clone, Copy, PartialEq, Eq, Structural)]
pub enum ImageDetail {
    Auto,
    Low,
    High,
    Original,
}

/// One item of what a turn is given.
#[derive(Debug, Clone)]
pub enum CodexInput {
    Text { text: String },
    Image { url: String, detail: Option<ImageDetail> },
}

/// A [`CodexInput`] with its text as characters.
pub enum CodexInputView {
    Text(Seq<char>),
    Image { url: Seq<char>, detail: Option<ImageDetail> },
}

impl View for CodexInput {
    type V = CodexInputView;

    open spec fn view(&self) -> CodexInputView {
        match self {
            CodexInput::Text { text } => CodexInputView::Text(text@),
            CodexInput::Image { url, detail } => CodexInputView::Image { url: url@, detail: *detail },
        }
    }
}

/// The name by which a detail is handed on.
pub open spec fn detail_name(detail: ImageDetail) -> Seq<char> {
    match detail {
        ImageDetail::Auto => "auto"@,
        ImageDetail::Low => "low"@,
        ImageDetail::High => "high"@,
        ImageDetail::Original => "original"@,
    }
}

impl CodexInputView {
    /// The document that hands this item to Codex.
    pub open spec fn tree(self) -> JsonTree {
        match self {
            CodexInputView::Text(text) => JsonTree::Object(
                map!["type"@ => JsonTree::Text("text"@), "text"@ => JsonTree::Text(text)],
            ),
            CodexInputView::Image { url, detail: None } => JsonTree::Object(
                map!["type"@ => JsonTree::Text("image"@), "url"@ => JsonTree::Text(url)],
            ),
            CodexInputView::Image { url, detail: Some(detail) } => JsonTree::Object(
                map![
                    "type"@ => JsonTree::Text("image"@),
                    "url"@ => JsonTree::Text(url),
                    "detail"@ => JsonTree::Text(detail_name(detail)),
                ],
            ),
        }
    }
}

impl CodexInput {
    /// The document that hands this item to Codex.
    pub fn to_value(&self) -> (value: Value)
        ensures
            json::value_tree(value) == self@.tree(),
    {
        match self {
            CodexInput::Text { text } => Members::new().with("type", json::text("text")).with(
                "text",
                json::text(text.as_str()),
            ).build(),
            CodexInput::Image { url, detail } => {
                let members: Members = Members::new().with("type", json::text("image")).with(
                    "url",
                    json::text(url.as_str()),
                );
                match detail {
                    None => members.build(),
                    Some(ImageDetail::Auto) => members.with("detail", json::text("auto")).build(),
                    Some(ImageDetail::Low) => members.with("detail", json::text("low")).build(),
                    Some(ImageDetail::High) => members.with("detail", json::text("high")).build(),
                    Some(ImageDetail::Original) => members.with(
                        "detail",
                        json::text("original"),
                    ).build(),
                }
            },
        }
    }
}

/// The document that hands a list of items to Codex.
pub open spec fn input_tree(input: Seq<CodexInputView>) -> JsonTree {
    JsonTree::Array(input.map_values(|item: CodexInputView| item.tree()))
}

/// The document that hands a list of items to Codex.
pub fn input_value(input: &[CodexInput]) -> (value: Value)
    ensures
        json::value_tree(value) == input_tree(input_views(input@)),
{
    let mut items: Vec<Value> = Vec::new();
    let mut i: usize = 0;
    while i < input.len()
        invariant
            i <= input.len(),
            items@.len() == i,
            forall|j: int| 0 <= j < i ==> json::value_tree(#[trigger] items@[j]) == input@[j]@.tree(),
        decreases input.len() - i,
    {
        items.push(input[i].to_value());
        i = i + 1;
    }
    proof {
        assert(json::value_trees(items@) =~= input_views(input@).map_values(
            |item: CodexInputView| item.tree(),
        ));
    }
    json::array(items)
}

/// The items of a list, with their texts as characters.
pub open spec fn input_views(input: Seq<CodexInput>) -> Seq<CodexInputView> {
    input.map_values(|item: CodexInput| item@)
}

/// How a character of a transcript is written so that it cannot be part of a delimiter.
pub open spec fn escape_char(c: char) -> Seq<char> {
    if c == '&' {
        "&amp;"@
    } else if c == '<' {
        "&lt;"@
    } else if c == '>' {
        "&gt;"@
    } else {
        seq![c]
    }
}

/// How a text of a transcript is written.
pub open spec fn escape(text: Seq<char>) -> Seq<char>
    decreases text.len(),
{
    if text.len() == 0 {
        Seq::empty()
    } else {
        escape(text.drop_last()) + escape_char(text.last())
    }
}

/// The roles that a message may have.
pub open spec fn is_role(role: Seq<char>) -> bool {
    role == "system"@ || role == "developer"@ || role == "user"@ || role == "assistant"@
}

/// The delimiter that opens a message.
pub open spec fn opening(role: Seq<char>) -> Seq<char> {
    "<message role=\""@ + role + "\">\n"@
}

/// The delimiter that closes a message.
pub open spec fn closing() -> Seq<char> {
    "\n</message>\n\n"@
}

/// The addresses that an image may have: HTTPS, or an image that the address itself holds. The
/// scheme may be written in upper or lower case.
pub open spec fn is_image_address(url: Seq<char>) -> bool {
    text::occurs_at(text::ascii_lower(url), "https://"@, 0) || text::occurs_at(
        text::ascii_lower(url),
        "data:image/"@,
        0,
    )
}

/// The address in an [`ImageUrl`].
pub open spec fn image_address(image: ImageUrl) -> Seq<char> {
    match image {
        ImageUrl::Url(url) => url@,
        ImageUrl::Object { url, detail } => url@,
    }
}

/// The detail in an [`ImageUrl`].
pub open spec fn image_detail(image: ImageUrl) -> Option<ImageDetail> {
    match image {
        ImageUrl::Url(_) => None,
        ImageUrl::Object { url, detail } => detail,
    }
}

/// Why a part cannot be handed to Codex, if it cannot.
pub open spec fn part_fault(part: ContentPart) -> Option<Seq<char>> {
    match part {
        ContentPart::Text { text } => None,
        ContentPart::ChatImage { image_url } => address_fault(image_address(image_url)),
        ContentPart::ResponseImage { image_url, file_id, detail } => match (image_url, file_id) {
            (Some(url), None) => address_fault(url@),
            _ => Some(
                "input_image requires image_url; file_id cannot be resolved because this gateway has no Files API"@,
            ),
        },
        ContentPart::File { file_id, file_url, file_data, filename } => Some(
            "input_file is not supported by codex app-server; attach images with image_url or input_image.image_url"@,
        ),
    }
}

/// Why an image cannot be handed to Codex by its address, if it cannot.
pub open spec fn address_fault(url: Seq<char>) -> Option<Seq<char>> {
    if is_image_address(url) {
        None
    } else {
        Some("image URLs must be HTTPS URLs or image data URLs"@)
    }
}

/// The item that carries a part without a fault.
pub open spec fn part_item(part: ContentPart) -> CodexInputView {
    match part {
        ContentPart::Text { text } => CodexInputView::Text(escape(text@)),
        ContentPart::ChatImage { image_url } => CodexInputView::Image {
            url: image_address(image_url),
            detail: image_detail(image_url),
        },
        ContentPart::ResponseImage { image_url: Some(url), file_id, detail } => CodexInputView::Image {
            url: url@,
            detail,
        },
        _ => arbitrary(),
    }
}

/// The first fault of a list of parts.
pub open spec fn parts_fault(parts: Seq<ContentPart>) -> Option<Seq<char>>
    decreases parts.len(),
{
    if parts.len() == 0 {
        None
    } else {
        match parts_fault(parts.drop_last()) {
            Some(fault) => Some(fault),
            None => part_fault(parts.last()),
        }
    }
}

/// Why a message cannot be handed to Codex, if it cannot.
pub open spec fn message_fault(message: Message) -> Option<Seq<char>> {
    if !is_role(message.role@) {
        Some("unsupported message role"@)
    } else {
        match message.content {
            Content::Text(_) => None,
            Content::Parts(parts) => parts_fault(parts@),
        }
    }
}

/// The first fault of a conversation.
pub open spec fn conversation_fault(messages: Seq<Message>) -> Option<Seq<char>>
    decreases messages.len(),
{
    if messages.len() == 0 {
        None
    } else {
        match conversation_fault(messages.drop_last()) {
            Some(fault) => Some(fault),
            None => message_fault(messages.last()),
        }
    }
}

/// The items that carry what a message says.
pub open spec fn content_items(content: Content) -> Seq<CodexInputView> {
    match content {
        Content::Text(text) => seq![CodexInputView::Text(escape(text@))],
        Content::Parts(parts) => parts@.map_values(|part: ContentPart| part_item(part)),
    }
}

/// The items that carry a message: what it says, between its delimiters.
pub open spec fn message_items(message: Message) -> Seq<CodexInputView> {
    seq![CodexInputView::Text(opening(message.role@))] + content_items(message.content)
        + seq![CodexInputView::Text(closing())]
}

/// The items that carry a conversation, message after message.
pub open spec fn transcript(messages: Seq<Message>) -> Seq<CodexInputView>
    decreases messages.len(),
{
    if messages.len() == 0 {
        Seq::empty()
    } else {
        transcript(messages.drop_last()) + message_items(messages.last())
    }
}

/// What an item counts toward the limit: the bytes of its text or of its address.
pub open spec fn item_bytes(item: CodexInputView) -> nat {
    match item {
        CodexInputView::Text(text) => text::byte_len(text),
        CodexInputView::Image { url, detail } => text::byte_len(url),
    }
}

/// What a list of items counts toward the limit.
pub open spec fn input_bytes(input: Seq<CodexInputView>) -> nat
    decreases input.len(),
{
    if input.len() == 0 {
        0
    } else {
        input_bytes(input.drop_last()) + item_bytes(input.last())
    }
}

/// A count that stops at the largest `usize`.
pub open spec fn saturated(count: nat) -> usize {
    if count <= usize::MAX {
        count as usize
    } else {
        usize::MAX
    }
}

/// How many items of a list are images.
pub open spec fn image_count(input: Seq<CodexInputView>) -> nat
    decreases input.len(),
{
    if input.len() == 0 {
        0
    } else {
        image_count(input.drop_last()) + if input.last() is Image {
            1nat
        } else {
            0nat
        }
    }
}

/// What [`serialize_input`] gives: the transcript, or the first fault, or that it is too long.
pub open spec fn serialized(messages: Seq<Message>, max_bytes: usize) -> Result<
    Seq<CodexInputView>,
    GatewayErrorView,
> {
    match conversation_fault(messages) {
        Some(fault) => Err(GatewayErrorView::Invalid(fault)),
        None => if saturated(input_bytes(transcript(messages))) > max_bytes {
            Err(
                GatewayErrorView::Invalid("prompt and attachment URLs exceed configured limit"@),
            )
        } else {
            Ok(transcript(messages))
        },
    }
}

/// A list of items or a failure, with texts as characters.
pub open spec fn input_result(result: Result<Vec<CodexInput>, GatewayError>) -> Result<
    Seq<CodexInputView>,
    GatewayErrorView,
> {
    match result {
        Ok(input) => Ok(input_views(input@)),
        Err(error) => Err(error@),
    }
}

/// Appends an item and adds its bytes to the count.
fn push_input(input: &mut Vec<CodexInput>, total_bytes: &mut usize, item: CodexInput)
    requires
        *old(total_bytes) == saturated(input_bytes(input_views(old(input)@))),
    ensures
        input_views(final(input)@) == input_views(old(input)@).push(item@),
        *final(total_bytes) == saturated(input_bytes(input_views(final(input)@))),
{
    let size: usize = match &item {
        CodexInput::Text { text } => text::len_of(text.as_str()),
        CodexInput::Image { url, detail } => text::len_of(url.as_str()),
    };
    *total_bytes = (*total_bytes).saturating_add(size);
    input.push(item);
    proof {
        let before = input_views(old(input)@);
        let after = input_views(input@);
        assert(after =~= before.push(item@));
        assert(after.drop_last() =~= before);
    }
}

/// Appends a text item and adds its bytes to the count.
fn push_text_input(input: &mut Vec<CodexInput>, total_bytes: &mut usize, text: String)
    requires
        *old(total_bytes) == saturated(input_bytes(input_views(old(input)@))),
    ensures
        input_views(final(input)@) == input_views(old(input)@).push(CodexInputView::Text(text@)),
        *final(total_bytes) == saturated(input_bytes(input_views(final(input)@))),
{
    push_input(input, total_bytes, CodexInput::Text { text })
}

/// Keeps what a client wrote from looking like a delimiter, and keeps it legible.
pub fn escape_transcript_text(text: &str) -> (escaped: String)
    ensures
        escaped@ == escape(text@),
{
    let mut escaped: String = String::new();
    for c in it: text.chars()
        invariant
            escaped@ == escape(it.seq().take(it.index())),
            it.seq() == text@,
    {
        proof {
            let after = it.seq().take(it.index() + 1);
            assert(after.drop_last() =~= it.seq().take(it.index()));
            assert(after.last() == c);
        }
        if c == '&' {
            escaped.append("&amp;");
        } else if c == '<' {
            escaped.append("&lt;");
        } else if c == '>' {
            escaped.append("&gt;");
        } else {
            let ghost before = escaped@;
            escaped.push(c);
            proof {
                assert(escaped@ =~= before + seq![c]);
            }
        }
    }
    proof {
        assert(text@.take(text@.len() as int) =~= text@);
    }
    escaped
}

/// Whether a message may have this role.
fn role_is_supported(role: &str) -> (supported: bool)
    ensures
        supported == is_role(role@),
{
    text::same_text(role, "system") || text::same_text(role, "developer") || text::same_text(
        role,
        "user",
    ) || text::same_text(role, "assistant")
}

/// The item that carries an image, where its address may be handed on.
fn image_input(url: &String, detail: Option<ImageDetail>) -> (item: Result<
    CodexInput,
    GatewayError,
>)
    ensures
        match address_fault(url@) {
            Some(fault) => item matches Err(error) && error@ == GatewayErrorView::Invalid(fault),
            None => item matches Ok(item) && item@ == (CodexInputView::Image { url: url@, detail }),
        },
{
    let lower: String = text::to_ascii_lower(url.as_str());
    if text::starts_with(lower.as_str(), "https://") || text::starts_with(
        lower.as_str(),
        "data:image/",
    ) {
        Ok(CodexInput::Image { url: url.clone(), detail })
    } else {
        Err(GatewayError::Invalid("image URLs must be HTTPS URLs or image data URLs".to_owned()))
    }
}

/// The item that carries a part, or why there is none.
fn part_input(part: &ContentPart) -> (item: Result<CodexInput, GatewayError>)
    ensures
        match part_fault(*part) {
            Some(fault) => item matches Err(error) && error@ == GatewayErrorView::Invalid(fault),
            None => item matches Ok(item) && item@ == part_item(*part),
        },
{
    match part {
        ContentPart::Text { text } => Ok(
            CodexInput::Text { text: escape_transcript_text(text.as_str()) },
        ),
        ContentPart::ChatImage { image_url } => match image_url {
            ImageUrl::Url(url) => image_input(url, None),
            ImageUrl::Object { url, detail } => image_input(url, *detail),
        },
        ContentPart::ResponseImage { image_url, file_id, detail } => match (image_url, file_id) {
            (Some(url), None) => image_input(url, *detail),
            _ => Err(
                GatewayError::Invalid(
                    "input_image requires image_url; file_id cannot be resolved because this gateway has no Files API".to_owned(),
                ),
            ),
        },
        ContentPart::File { file_id, file_url, file_data, filename } => Err(
            GatewayError::Invalid(
                "input_file is not supported by codex app-server; attach images with image_url or input_image.image_url".to_owned(),
            ),
        ),
    }
}

/// Appends the items of a list of parts, up to the first part that has none.
fn push_parts(
    input: &mut Vec<CodexInput>,
    total_bytes: &mut usize,
    parts: &Vec<ContentPart>,
) -> (pushed: Result<(), GatewayError>)
    requires
        *old(total_bytes) == saturated(input_bytes(input_views(old(input)@))),
    ensures
        *final(total_bytes) == saturated(input_bytes(input_views(final(input)@))),
        match parts_fault(parts@) {
            Some(fault) => pushed matches Err(error) && error@ == GatewayErrorView::Invalid(fault),
            None => pushed is Ok && input_views(final(input)@) == input_views(old(input)@)
                + parts@.map_values(|part: ContentPart| part_item(part)),
        },
{
    let ghost before = input_views(input@);
    let mut i: usize = 0;
    proof {
        assert(parts@.take(0).map_values(|part: ContentPart| part_item(part)) =~= Seq::empty());
    }
    while i < parts.len()
        invariant
            i <= parts.len(),
            *total_bytes == saturated(input_bytes(input_views(input@))),
            parts_fault(parts@.take(i as int)) is None,
            input_views(input@) == before + parts@.take(i as int).map_values(
                |part: ContentPart| part_item(part),
            ),
        decreases parts.len() - i,
    {
        proof {
            let front = parts@.take(i as int);
            let next = parts@.take(i + 1);
            assert(next.drop_last() =~= front);
            assert(next.map_values(|part: ContentPart| part_item(part)) =~= front.map_values(
                |part: ContentPart| part_item(part),
            ).push(part_item(parts@[i as int])));
        }
        match part_input(&parts[i]) {
            Ok(item) => push_input(input, total_bytes, item),
            Err(error) => {
                proof {
                    lemma_fault_stays(parts@, i + 1);
                }
                return Err(error);
            },
        }
        i = i + 1;
    }
    proof {
        assert(parts@.take(parts@.len() as int) =~= parts@);
    }
    Ok(())
}

/// A fault of the first parts is the fault of all of them.
proof fn lemma_fault_stays(parts: Seq<ContentPart>, n: int)
    requires
        0 <= n <= parts.len(),
        parts_fault(parts.take(n)) is Some,
    ensures
        parts_fault(parts) == parts_fault(parts.take(n)),
    decreases parts.len(),
{
    if n == parts.len() {
        assert(parts.take(n) =~= parts);
    } else {
        assert(parts.drop_last().take(n) =~= parts.take(n));
        lemma_fault_stays(parts.drop_last(), n);
    }
}

/// A fault of the first messages is the fault of the conversation.
proof fn lemma_conversation_fault_stays(messages: Seq<Message>, n: int)
    requires
        0 <= n <= messages.len(),
        conversation_fault(messages.take(n)) is Some,
    ensures
        conversation_fault(messages) == conversation_fault(messages.take(n)),
    decreases messages.len(),
{
    if n == messages.len() {
        assert(messages.take(n) =~= messages);
    } else {
        assert(messages.drop_last().take(n) =~= messages.take(n));
        lemma_conversation_fault_stays(messages.drop_last(), n);
    }
}

/// Appends the items of a message.
fn push_message(
    input: &mut Vec<CodexInput>,
    total_bytes: &mut usize,
    message: &Message,
) -> (pushed: Result<(), GatewayError>)
    requires
        *old(total_bytes) == saturated(input_bytes(input_views(old(input)@))),
    ensures
        *final(total_bytes) == saturated(input_bytes(input_views(final(input)@))),
        match message_fault(*message) {
            Some(fault) => pushed matches Err(error) && error@ == GatewayErrorView::Invalid(fault),
            None => pushed is Ok && input_views(final(input)@) == input_views(old(input)@)
                + message_items(*message),
        },
{
    if !role_is_supported(message.role.as_str()) {
        return Err(GatewayError::Invalid("unsupported message role".to_owned()));
    }
    let ghost before = input_views(input@);
    let mut header: String = "<message role=\"".to_owned();
    header.append(message.role.as_str());
    header.append("\">\n");
    push_text_input(input, total_bytes, header);
    let ghost opened = input_views(input@);
    match &message.content {
        Content::Text(text) => {
            push_text_input(input, total_bytes, escape_transcript_text(text.as_str()));
        },
        Content::Parts(parts) => {
            match push_parts(input, total_bytes, parts) {
                Ok(()) => {},
                Err(error) => {
                    return Err(error);
                },
            }
        },
    }
    proof {
        assert(input_views(input@) =~= opened + content_items(message.content));
    }
    push_text_input(input, total_bytes, "\n</message>\n\n".to_owned());
    proof {
        assert(input_views(input@) =~= before + message_items(*message));
    }
    Ok(())
}

/// The transcript of a conversation: every message between its delimiters, in order. A role or a
/// part that Codex cannot be given is refused, and so is a transcript over the limit.
pub fn serialize_input(messages: &[Message], max_bytes: usize) -> (serialized: Result<
    Vec<CodexInput>,
    GatewayError,
>)
    ensures
        input_result(serialized) == self::serialized(messages@, max_bytes),
{
    let mut input: Vec<CodexInput> = Vec::new();
    let mut total_bytes: usize = 0;
    let mut i: usize = 0;
    proof {
        assert(input_views(input@) =~= Seq::<CodexInputView>::empty());
    }
    while i < messages.len()
        invariant
            i <= messages.len(),
            total_bytes == saturated(input_bytes(input_views(input@))),
            conversation_fault(messages@.take(i as int)) is None,
            input_views(input@) == transcript(messages@.take(i as int)),
        decreases messages.len() - i,
    {
        proof {
            assert(messages@.take(i + 1).drop_last() =~= messages@.take(i as int));
        }
        match push_message(&mut input, &mut total_bytes, &messages[i]) {
            Ok(()) => {},
            Err(error) => {
                proof {
                    lemma_conversation_fault_stays(messages@, i + 1);
                }
                return Err(error);
            },
        }
        i = i + 1;
    }
    proof {
        assert(messages@.take(messages@.len() as int) =~= messages@);
    }
    if total_bytes > max_bytes {
        return Err(
            GatewayError::Invalid("prompt and attachment URLs exceed configured limit".to_owned()),
        );
    }
    Ok(input)
}

/// How many images and texts a list holds, and how many bytes it counts toward the limit.
pub fn summarize_input(input: &[CodexInput]) -> (summary: (usize, usize, usize))
    ensures
        summary.0 == image_count(input_views(input@)),
        summary.0 + summary.1 == input@.len(),
        summary.2 == saturated(input_bytes(input_views(input@))),
{
    let mut images: usize = 0;
    let mut texts: usize = 0;
    let mut bytes: usize = 0;
    let mut i: usize = 0;
    while i < input.len()
        invariant
            i <= input.len(),
            images + texts == i,
            images == image_count(input_views(input@.take(i as int))),
            bytes == saturated(input_bytes(input_views(input@.take(i as int)))),
        decreases input.len() - i,
    {
        proof {
            let front = input_views(input@.take(i as int));
            let next = input_views(input@.take(i + 1));
            assert(next.drop_last() =~= front);
            assert(next.last() == input@[i as int]@);
        }
        match &input[i] {
            CodexInput::Text { text } => {
                texts = texts + 1;
                bytes = bytes.saturating_add(text::len_of(text.as_str()));
            },
            CodexInput::Image { url, detail } => {
                images = images + 1;
                bytes = bytes.saturating_add(text::len_of(url.as_str()));
            },
        }
        i = i + 1;
    }
    proof {
        assert(input@.take(input@.len() as int) =~= input@);
    }
    (images, texts, bytes)
}

/// The text of a list of items, without its images.
pub open spec fn input_text(input: Seq<CodexInputView>) -> Seq<char>
    decreases input.len(),
{
    if input.len() == 0 {
        Seq::empty()
    } else {
        match input.last() {
            CodexInputView::Text(text) => input_text(input.drop_last()) + text,
            CodexInputView::Image { url, detail } => input_text(input.drop_last()),
        }
    }
}

/// How often a character occurs in a text.
pub open spec fn occurrences(text: Seq<char>, c: char) -> nat
    decreases text.len(),
{
    if text.len() == 0 {
        0
    } else {
        occurrences(text.drop_last(), c) + if text.last() == c {
            1nat
        } else {
            0nat
        }
    }
}

proof fn lemma_occurrences_add(a: Seq<char>, b: Seq<char>, c: char)
    ensures
        occurrences(a + b, c) == occurrences(a, c) + occurrences(b, c),
    decreases b.len(),
{
    if b.len() == 0 {
        assert(a + b =~= a);
    } else {
        assert((a + b).drop_last() =~= a + b.drop_last());
        lemma_occurrences_add(a, b.drop_last(), c);
    }
}

proof fn lemma_no_occurrences(text: Seq<char>, c: char)
    requires
        !text.contains(c),
    ensures
        occurrences(text, c) == 0,
    decreases text.len(),
{
    if text.len() > 0 {
        assert(text.contains(text.last()));
        assert forall|x: char| text.drop_last().contains(x) implies text.contains(x) by {
            let i = choose|i: int| 0 <= i < text.drop_last().len() && text.drop_last()[i] == x;
            assert(text[i] == x);
        }
        lemma_no_occurrences(text.drop_last(), c);
    }
}

/// What a client wrote holds no angle bracket once it is escaped, so it can neither open nor close
/// a message.
pub proof fn escaped_text_opens_no_delimiter(text: Seq<char>)
    ensures
        !escape(text).contains('<'),
        !escape(text).contains('>'),
    decreases text.len(),
{
    reveal_strlit("&amp;");
    reveal_strlit("&lt;");
    reveal_strlit("&gt;");
    if text.len() > 0 {
        escaped_text_opens_no_delimiter(text.drop_last());
        let front = escape(text.drop_last());
        let back = escape_char(text.last());
        assert forall|c: char| (front + back).contains(c) implies front.contains(c)
            || back.contains(c) by {
            let i = choose|i: int| 0 <= i < (front + back).len() && (front + back)[i] == c;
            if i < front.len() {
                assert(front[i] == c);
            } else {
                assert(back[i - front.len()] == c);
            }
        }
    }
}

proof fn lemma_escape_first(text: Seq<char>)
    requires
        text.len() > 0,
    ensures
        escape(text) == escape_char(text.first()) + escape(text.drop_first()),
    decreases text.len(),
{
    if text.len() == 1 {
        assert(text.drop_last() =~= Seq::<char>::empty());
        assert(text.drop_first() =~= Seq::<char>::empty());
        assert(escape(text.drop_last()) + escape_char(text.last()) =~= escape_char(text.first())
            + escape(text.drop_first()));
    } else {
        lemma_escape_first(text.drop_last());
        assert(text.drop_last().drop_first() =~= text.drop_first().drop_last());
        assert(escape(text) =~= escape_char(text.first()) + escape(text.drop_first()));
    }
}

/// Escaping loses nothing: texts that are written alike are alike.
pub proof fn escaping_is_injective(a: Seq<char>, b: Seq<char>)
    requires
        escape(a) == escape(b),
    ensures
        a == b,
    decreases a.len(),
{
    reveal_strlit("&amp;");
    reveal_strlit("&lt;");
    reveal_strlit("&gt;");
    if a.len() == 0 {
        if b.len() > 0 {
            lemma_escape_first(b);
            assert(escape(b)[0] == escape_char(b.first())[0]);
        }
        assert(a =~= b);
    } else {
        lemma_escape_first(a);
        assert(escape(a)[0] == escape_char(a.first())[0]);
        assert(b.len() > 0);
        lemma_escape_first(b);
        let x = escape_char(a.first());
        let y = escape_char(b.first());
        assert(escape(b)[0] == y[0]);
        assert(x.len() > 1 ==> escape(a)[1] == x[1]);
        assert(y.len() > 1 ==> escape(b)[1] == y[1]);
        assert(a.first() == b.first());
        assert(escape(a).skip(x.len() as int) =~= escape(a.drop_first()));
        assert(escape(b).skip(x.len() as int) =~= escape(b.drop_first()));
        escaping_is_injective(a.drop_first(), b.drop_first());
        assert(a =~= seq![a.first()] + a.drop_first());
        assert(b =~= seq![b.first()] + b.drop_first());
    }
}

proof fn lemma_input_text_add(a: Seq<CodexInputView>, b: Seq<CodexInputView>)
    ensures
        input_text(a + b) == input_text(a) + input_text(b),
    decreases b.len(),
{
    if b.len() == 0 {
        assert(a + b =~= a);
        assert(input_text(a) + input_text(b) =~= input_text(a));
    } else {
        assert((a + b).drop_last() =~= a + b.drop_last());
        lemma_input_text_add(a, b.drop_last());
        assert(input_text(a + b) =~= input_text(a) + input_text(b));
    }
}

proof fn lemma_no_part_fault(parts: Seq<ContentPart>, i: int)
    requires
        parts_fault(parts) is None,
        0 <= i < parts.len(),
    ensures
        part_fault(parts[i]) is None,
    decreases parts.len(),
{
    if i < parts.len() - 1 {
        lemma_no_part_fault(parts.drop_last(), i);
    }
}

/// An item that carries what a message says is an image or a text without angle brackets.
proof fn lemma_content_item(content: Content, i: int)
    requires
        content matches Content::Parts(parts) ==> parts_fault(parts@) is None,
        0 <= i < content_items(content).len(),
    ensures
        content_items(content)[i] matches CodexInputView::Text(text) ==> !text.contains('<')
            && !text.contains('>'),
{
    match content {
        Content::Text(text) => {
            escaped_text_opens_no_delimiter(text@);
        },
        Content::Parts(parts) => {
            lemma_no_part_fault(parts@, i);
            match parts@[i] {
                ContentPart::Text { text } => {
                    escaped_text_opens_no_delimiter(text@);
                },
                _ => {},
            }
        },
    }
}

proof fn lemma_content_brackets(items: Seq<CodexInputView>, c: char)
    requires
        forall|i: int|
            0 <= i < items.len() ==> (#[trigger] items[i] matches CodexInputView::Text(text)
                ==> !text.contains(c)),
    ensures
        occurrences(input_text(items), c) == 0,
    decreases items.len(),
{
    if items.len() > 0 {
        assert forall|i: int| 0 <= i < items.drop_last().len() implies (
        #[trigger] items.drop_last()[i] matches CodexInputView::Text(text) ==> !text.contains(c)) by {
            assert(items[i] == items.drop_last()[i]);
        }
        lemma_content_brackets(items.drop_last(), c);
        match items.last() {
            CodexInputView::Text(text) => {
                lemma_no_occurrences(text, c);
                lemma_occurrences_add(input_text(items.drop_last()), text, c);
            },
            CodexInputView::Image { url, detail } => {},
        }
    }
}

/// A character that stands in one place of a text occurs in it once.
proof fn lemma_one_occurrence(text: Seq<char>, c: char, at: int)
    requires
        0 <= at < text.len(),
        text[at] == c,
        forall|i: int| 0 <= i < text.len() && i != at ==> text[i] != c,
    ensures
        occurrences(text, c) == 1,
        text.contains(c),
{
    let head = text.take(at);
    let tail = text.skip(at + 1);
    assert(text =~= head.push(c) + tail);
    lemma_no_occurrences(head, c);
    lemma_no_occurrences(tail, c);
    assert(head.push(c).drop_last() =~= head);
    lemma_occurrences_add(head.push(c), tail, c);
}

proof fn lemma_role_brackets(role: Seq<char>)
    requires
        is_role(role),
    ensures
        !role.contains('<'),
        !role.contains('>'),
{
    reveal_strlit("system");
    reveal_strlit("developer");
    reveal_strlit("user");
    reveal_strlit("assistant");
}

proof fn lemma_opening_brackets(role: Seq<char>)
    requires
        is_role(role),
    ensures
        occurrences(opening(role), '<') == 1,
        occurrences(opening(role), '>') == 1,
{
    reveal_strlit("<message role=\"");
    reveal_strlit("\">\n");
    let head = "<message role=\""@;
    let tail = "\">\n"@;
    lemma_role_brackets(role);
    lemma_no_occurrences(role, '<');
    lemma_no_occurrences(role, '>');
    lemma_one_occurrence(head, '<', 0);
    lemma_no_occurrences(head, '>');
    lemma_no_occurrences(tail, '<');
    lemma_one_occurrence(tail, '>', 1);
    lemma_occurrences_add(head, role, '<');
    lemma_occurrences_add(head + role, tail, '<');
    lemma_occurrences_add(head, role, '>');
    lemma_occurrences_add(head + role, tail, '>');
}

proof fn lemma_closing_brackets()
    ensures
        occurrences(closing(), '<') == 1,
        occurrences(closing(), '>') == 1,
        closing().contains('<'),
{
    reveal_strlit("\n</message>\n\n");
    lemma_one_occurrence(closing(), '<', 1);
    lemma_one_occurrence(closing(), '>', 10);
}

proof fn lemma_message_brackets(message: Message, c: char)
    requires
        message_fault(message) is None,
        c == '<' || c == '>',
    ensures
        occurrences(input_text(message_items(message)), c) == 2,
{
    let head = seq![CodexInputView::Text(opening(message.role@))];
    let body = content_items(message.content);
    let tail = seq![CodexInputView::Text(closing())];
    lemma_input_text_add(head, body);
    lemma_input_text_add(head + body, tail);
    assert(head.drop_last() =~= Seq::<CodexInputView>::empty());
    assert(tail.drop_last() =~= Seq::<CodexInputView>::empty());
    assert(input_text(Seq::<CodexInputView>::empty()) =~= Seq::<char>::empty());
    assert(input_text(head) =~= opening(message.role@));
    assert(input_text(tail) =~= closing());
    lemma_opening_brackets(message.role@);
    lemma_closing_brackets();
    assert forall|i: int| 0 <= i < body.len() implies (
    #[trigger] body[i] matches CodexInputView::Text(text) ==> !text.contains(c)) by {
        lemma_content_item(message.content, i);
    }
    lemma_content_brackets(body, c);
    lemma_occurrences_add(input_text(head), input_text(body), c);
    lemma_occurrences_add(input_text(head) + input_text(body), input_text(tail), c);
}

proof fn lemma_no_message_fault(messages: Seq<Message>, i: int)
    requires
        conversation_fault(messages) is None,
        0 <= i < messages.len(),
    ensures
        message_fault(messages[i]) is None,
    decreases messages.len(),
{
    if i < messages.len() - 1 {
        lemma_no_message_fault(messages.drop_last(), i);
    }
}

proof fn lemma_transcript_brackets(messages: Seq<Message>, c: char)
    requires
        conversation_fault(messages) is None,
        c == '<' || c == '>',
    ensures
        occurrences(input_text(transcript(messages)), c) == 2 * messages.len(),
    decreases messages.len(),
{
    if messages.len() > 0 {
        lemma_no_message_fault(messages, messages.len() - 1);
        lemma_transcript_brackets(messages.drop_last(), c);
        lemma_message_brackets(messages.last(), c);
        let front = transcript(messages.drop_last());
        let back = message_items(messages.last());
        lemma_input_text_add(front, back);
        lemma_occurrences_add(input_text(front), input_text(back), c);
    }
}

/// The prompt holds two angle brackets of either kind for every message, which are those of its two
/// delimiters, and no other, whatever the messages say.
pub proof fn delimiters_come_from_messages_alone(messages: Seq<Message>)
    requires
        conversation_fault(messages) is None,
    ensures
        occurrences(input_text(transcript(messages)), '<') == 2 * messages.len(),
        occurrences(input_text(transcript(messages)), '>') == 2 * messages.len(),
{
    lemma_transcript_brackets(messages, '<');
    lemma_transcript_brackets(messages, '>');
}

/// Messages keep their order: what stands in one part of a conversation precedes, in the
/// transcript, all that stands in a later part.
pub proof fn transcripts_keep_the_order(earlier: Seq<Message>, later: Seq<Message>)
    ensures
        transcript(earlier + later) == transcript(earlier) + transcript(later),
    decreases later.len(),
{
    if later.len() == 0 {
        assert(earlier + later =~= earlier);
        assert(transcript(earlier) + transcript(later) =~= transcript(earlier));
    } else {
        assert((earlier + later).drop_last() =~= earlier + later.drop_last());
        transcripts_keep_the_order(earlier, later.drop_last());
        assert(transcript(earlier + later) =~= transcript(earlier) + transcript(later));
    }
}

proof fn lemma_first_message(messages: Seq<Message>)
    requires
        messages.len() > 0,
    ensures
        transcript(messages) == message_items(messages.first()) + transcript(messages.drop_first()),
{
    let one = seq![messages.first()];
    assert(messages =~= one + messages.drop_first());
    transcripts_keep_the_order(one, messages.drop_first());
    assert(one.drop_last() =~= Seq::<Message>::empty());
    assert(transcript(Seq::<Message>::empty()) =~= Seq::<CodexInputView>::empty());
    assert(transcript(one) =~= message_items(messages.first()));
}

proof fn lemma_opening_is_injective(a: Seq<char>, b: Seq<char>)
    requires
        opening(a) == opening(b),
    ensures
        a == b,
{
    let head = "<message role=\""@;
    let tail = "\">\n"@;
    assert(a.len() == b.len()) by {
        assert(opening(a).len() == head.len() + a.len() + tail.len());
        assert(opening(b).len() == head.len() + b.len() + tail.len());
    }
    assert(opening(a).subrange(head.len() as int, (head.len() + a.len()) as int) =~= a);
    assert(opening(b).subrange(head.len() as int, (head.len() + b.len()) as int) =~= b);
}

/// Where a message stands at the start of a transcript, its closing delimiter is the first.
proof fn lemma_closing_position(message: Message, rest: Seq<CodexInputView>)
    requires
        message_fault(message) is None,
    ensures
        ({
            let items = message_items(message) + rest;
            let n = content_items(message.content).len() as int;
            &&& items.len() == n + 2 + rest.len()
            &&& items[0] == CodexInputView::Text(opening(message.role@))
            &&& items[n + 1] == CodexInputView::Text(closing())
            &&& items.subrange(1, n + 1) == content_items(message.content)
            &&& items.skip(n + 2) == rest
            &&& forall|i: int| 1 <= i <= n ==> items[i] != CodexInputView::Text(closing())
        }),
{
    let items = message_items(message) + rest;
    let body = content_items(message.content);
    let n = body.len() as int;
    assert(items.subrange(1, n + 1) =~= body);
    assert(items.skip(n + 2) =~= rest);
    lemma_closing_brackets();
    assert forall|i: int| 1 <= i <= n implies items[i] != CodexInputView::Text(closing()) by {
        assert(items[i] == body[i - 1]);
        lemma_content_item(message.content, i - 1);
    }
}

/// A transcript is unambiguous: conversations with the same transcript have as many messages, in
/// the same roles and with the same contents.
pub proof fn transcripts_are_unambiguous(a: Seq<Message>, b: Seq<Message>)
    requires
        conversation_fault(a) is None,
        conversation_fault(b) is None,
        transcript(a) == transcript(b),
    ensures
        a.len() == b.len(),
        forall|i: int|
            0 <= i < a.len() ==> (#[trigger] a[i]).role@ == b[i].role@ && content_items(a[i].content)
                == content_items(b[i].content),
    decreases a.len(),
{
    if a.len() == 0 {
        if b.len() > 0 {
            lemma_first_message(b);
            assert(transcript(b).len() > 0);
        }
    } else if b.len() == 0 {
        lemma_first_message(a);
        assert(transcript(a).len() > 0);
    } else {
        lemma_first_message(a);
        lemma_first_message(b);
        lemma_no_message_fault(a, 0);
        lemma_no_message_fault(b, 0);
        let x = transcript(a.drop_first());
        let y = transcript(b.drop_first());
        lemma_closing_position(a.first(), x);
        lemma_closing_position(b.first(), y);
        let n = content_items(a.first().content).len() as int;
        let m = content_items(b.first().content).len() as int;
        let items = transcript(a);
        assert(n == m) by {
            if n < m {
                assert(items[n + 1] == CodexInputView::Text(closing()));
            }
            if m < n {
                assert(items[m + 1] == CodexInputView::Text(closing()));
            }
        }
        lemma_opening_is_injective(a.first().role@, b.first().role@);
        assert(x == y);
        lemma_fault_free_tail(a);
        lemma_fault_free_tail(b);
        transcripts_are_unambiguous(a.drop_first(), b.drop_first());
        assert forall|i: int| 0 <= i < a.len() implies (#[trigger] a[i]).role@ == b[i].role@
            && content_items(a[i].content) == content_items(b[i].content) by {
            if i > 0 {
                assert(a[i] == a.drop_first()[i - 1]);
                assert(b[i] == b.drop_first()[i - 1]);
            }
        }
    }
}

proof fn lemma_fault_free_tail(messages: Seq<Message>)
    requires
        messages.len() > 0,
        conversation_fault(messages) is None,
    ensures
        conversation_fault(messages.drop_first()) is None,
    decreases messages.len(),
{
    if messages.len() == 1 {
        assert(messages.drop_first() =~= Seq::<Message>::empty());
    } else {
        lemma_fault_free_tail(messages.drop_last());
        assert(messages.drop_first().drop_last() =~= messages.drop_last().drop_first());
        assert(messages.drop_first().last() == messages.last());
    }
}

/// A transcript that was accepted counts no more bytes than the limit.
pub proof fn accepted_transcripts_fit(messages: Seq<Message>, max_bytes: usize)
    requires
        serialized(messages, max_bytes) is Ok,
    ensures
        saturated(input_bytes(serialized(messages, max_bytes)->Ok_0)) <= max_bytes,
{
}

} // verus!
