//! What becomes of a conversation on its way to Codex.
use crate::config;
use crate::config::Config;
use crate::error;
use crate::error::GatewayErrorView;
use crate::json;
use crate::json::JsonTree;
use crate::laws::words;
use crate::protocol;
use crate::request;
use crate::request::Input;
use crate::stream::Endpoint;
use crate::text;
use crate::transcript;
use crate::transcript::{
    CodexInput, CodexInputView, Content, ContentPart, ImageDetail, ImageUrl, Message,
};
use vstd::prelude::*;
use vstd::utf8::*;

verus! {

/// The item at `i` of a document that is an array.
pub open spec fn element(tree: Option<JsonTree>, i: int) -> Option<JsonTree> {
    match tree {
        Some(JsonTree::Array(items)) => if 0 <= i < items.len() {
            Some(items[i])
        } else {
            None
        },
        _ => None,
    }
}

/// The document has these members and no others.
pub open spec fn has_members(tree: JsonTree, names: Set<Seq<char>>) -> bool {
    tree matches JsonTree::Object(members) && members.dom() =~= names
}

/// The document of a text is told apart by its kind and holds the text as it is.
pub proof fn texts_are_written_as_they_are(item: CodexInput, text: String)
    requires
        item == (CodexInput::Text { text }),
    ensures
        has_members(item@.tree(), set!["type"@, "text"@]),
        json::member(Some(item@.tree()), "type"@) == Some(JsonTree::Text("text"@)),
        json::member(Some(item@.tree()), "text"@) == Some(JsonTree::Text(text@)),
{
    words::lemma_words_differ();
}

/// The document of an image is told apart by its kind and holds the address as it is, and the detail
/// where there is one.
pub proof fn images_are_written_as_they_are(
    item: CodexInput,
    url: String,
    detail: Option<ImageDetail>,
)
    requires
        item == (CodexInput::Image { url, detail }),
    ensures
        json::member(Some(item@.tree()), "type"@) == Some(JsonTree::Text("image"@)),
        json::member(Some(item@.tree()), "url"@) == Some(JsonTree::Text(url@)),
        detail is None ==> has_members(item@.tree(), set!["type"@, "url"@]),
        detail is Some ==> has_members(item@.tree(), set!["type"@, "url"@, "detail"@]),
        detail == Some(ImageDetail::Auto) ==> json::member(Some(item@.tree()), "detail"@) == Some(
            JsonTree::Text("auto"@),
        ),
        detail == Some(ImageDetail::Low) ==> json::member(Some(item@.tree()), "detail"@) == Some(
            JsonTree::Text("low"@),
        ),
        detail == Some(ImageDetail::High) ==> json::member(Some(item@.tree()), "detail"@) == Some(
            JsonTree::Text("high"@),
        ),
        detail == Some(ImageDetail::Original) ==> json::member(Some(item@.tree()), "detail"@)
            == Some(JsonTree::Text("original"@)),
{
    words::lemma_words_differ();
}

/// The request for a turn carries the items of the run in their order, first to last, each as its
/// own document, next to the thread and the model that were asked for.
pub proof fn turns_carry_their_items_in_order(
    id: u64,
    thread_id: Seq<char>,
    model: Seq<char>,
    input: Seq<CodexInput>,
    i: int,
)
    requires
        0 <= i < input.len(),
    ensures
        ({
            let tree = protocol::turn_start_tree(
                id,
                thread_id,
                model,
                transcript::input_views(input),
            );
            let params = json::member(Some(tree), "params"@);
            let items = json::member(params, "input"@);
            &&& items matches Some(JsonTree::Array(list)) && list.len() == input.len()
            &&& element(items, i) == Some(input[i]@.tree())
            &&& input[i] matches CodexInput::Text { text } ==> json::member(
                element(items, i),
                "text"@,
            ) == Some(JsonTree::Text(text@))
            &&& input[i] matches CodexInput::Image { url, detail } ==> json::member(
                element(items, i),
                "url"@,
            ) == Some(JsonTree::Text(url@))
            &&& json::member(params, "threadId"@) == Some(JsonTree::Text(thread_id))
            &&& json::member(params, "model"@) == Some(JsonTree::Text(model))
            &&& json::member(Some(tree), "method"@) == Some(JsonTree::Text("turn/start"@))
            &&& json::member(Some(tree), "id"@) == Some(JsonTree::Natural(id))
            &&& has_members(tree, set!["method"@, "id"@, "params"@])
        }),
{
    words::lemma_words_differ();
    match input[i] {
        CodexInput::Text { text } => {
            texts_are_written_as_they_are(input[i], text);
        },
        CodexInput::Image { url, detail } => {
            images_are_written_as_they_are(input[i], url, detail);
        },
    }
}

/// A turn without items carries an empty list.
pub proof fn turns_without_items_carry_none(id: u64, thread_id: Seq<char>, model: Seq<char>)
    ensures
        json::member(
            json::member(
                Some(
                    protocol::turn_start_tree(
                        id,
                        thread_id,
                        model,
                        transcript::input_views(Seq::<CodexInput>::empty()),
                    ),
                ),
                "params"@,
            ),
            "input"@,
        ) == Some(JsonTree::Array(Seq::<JsonTree>::empty())),
{
    words::lemma_words_differ();
    assert(transcript::input_views(Seq::<CodexInput>::empty()).map_values(
        |item: CodexInputView| item.tree(),
    ) =~= Seq::<JsonTree>::empty());
}

/// A text is escaped piece by piece.
pub proof fn pieces_are_escaped_alone(a: Seq<char>, b: Seq<char>)
    ensures
        transcript::escape(a + b) == transcript::escape(a) + transcript::escape(b),
    decreases b.len(),
{
    if b.len() == 0 {
        assert(a + b =~= a);
        assert(transcript::escape(a) + transcript::escape(b) =~= transcript::escape(a));
    } else {
        assert((a + b).drop_last() =~= a + b.drop_last());
        pieces_are_escaped_alone(a, b.drop_last());
        assert(transcript::escape(a + b) =~= transcript::escape(a) + transcript::escape(b));
    }
}

/// A text without ampersands and angle brackets is kept as it is.
pub proof fn plain_texts_are_kept(plain: Seq<char>)
    requires
        !plain.contains('&'),
        !plain.contains('<'),
        !plain.contains('>'),
    ensures
        transcript::escape(plain) == plain,
    decreases plain.len(),
{
    if plain.len() > 0 {
        let front = plain.drop_last();
        assert forall|c: char| front.contains(c) implies plain.contains(c) by {
            let i = choose|i: int| 0 <= i < front.len() && front[i] == c;
            assert(plain[i] == c);
        }
        assert(plain.contains(plain.last()));
        plain_texts_are_kept(front);
        assert(front + seq![plain.last()] =~= plain);
    } else {
        assert(plain =~= Seq::<char>::empty());
    }
}

/// An ampersand and the two angle brackets are written as their HTML entities, wherever they stand.
pub proof fn marks_become_entities(before: Seq<char>, after: Seq<char>)
    ensures
        transcript::escape(before + seq!['&'] + after) == transcript::escape(before) + "&amp;"@
            + transcript::escape(after),
        transcript::escape(before + seq!['<'] + after) == transcript::escape(before) + "&lt;"@
            + transcript::escape(after),
        transcript::escape(before + seq!['>'] + after) == transcript::escape(before) + "&gt;"@
            + transcript::escape(after),
{
    assert forall|c: char| transcript::escape(#[trigger] seq![c]) == transcript::escape_char(c) by {
        assert(seq![c].drop_last() =~= Seq::<char>::empty());
        assert(transcript::escape(Seq::<char>::empty()) =~= Seq::<char>::empty());
        assert(transcript::escape(seq![c]) =~= transcript::escape_char(c));
    }
    pieces_are_escaped_alone(before, seq!['&']);
    pieces_are_escaped_alone(before + seq!['&'], after);
    pieces_are_escaped_alone(before, seq!['<']);
    pieces_are_escaped_alone(before + seq!['<'], after);
    pieces_are_escaped_alone(before, seq!['>']);
    pieces_are_escaped_alone(before + seq!['>'], after);
}

/// The address may be handed on: it begins, in upper or lower case, like one of HTTPS or like an
/// image that is written into it.
pub open spec fn is_safe(url: Seq<char>) -> bool {
    exists|scheme: Seq<char>, rest: Seq<char>|
        #![trigger scheme + rest]
        url == scheme + rest && (text::ascii_lower(scheme) == "https://"@ || text::ascii_lower(scheme)
            == "data:image/"@)
}

proof fn lemma_safe(url: Seq<char>)
    ensures
        transcript::is_image_address(url) <==> is_safe(url),
{
    let lower = text::ascii_lower(url);
    if transcript::is_image_address(url) {
        let n = if text::occurs_at(lower, "https://"@, 0) {
            "https://"@.len()
        } else {
            "data:image/"@.len()
        } as int;
        let scheme = url.take(n);
        let rest = url.skip(n);
        assert(url =~= scheme + rest);
        assert(text::ascii_lower(scheme) =~= lower.subrange(0, n));
    }
    if is_safe(url) {
        let (scheme, rest) = choose|scheme: Seq<char>, rest: Seq<char>|
            #![trigger scheme + rest]
            url == scheme + rest && (text::ascii_lower(scheme) == "https://"@ || text::ascii_lower(
                scheme,
            ) == "data:image/"@);
        let n = scheme.len() as int;
        assert(lower.subrange(0, n) =~= text::ascii_lower(scheme));
    }
}

/// A part of a message that is a text is always taken, and becomes a text item that is the escaped
/// text.
pub proof fn text_parts_become_texts(part: ContentPart, said: String)
    requires
        part == (ContentPart::Text { text: said }),
    ensures
        transcript::part_fault(part) is None,
        transcript::part_item(part) == CodexInputView::Text(transcript::escape(said@)),
{
}

/// An image part of a chat is taken exactly where its address is safe, and becomes an image item
/// with that address, character for character, and with the detail that was asked for.
pub proof fn chat_images_keep_their_address(part: ContentPart, image: ImageUrl)
    requires
        part == (ContentPart::ChatImage { image_url: image }),
    ensures
        image matches ImageUrl::Url(url) ==> {
            &&& transcript::part_fault(part) is None <==> is_safe(url@)
            &&& transcript::part_item(part) == (CodexInputView::Image { url: url@, detail: None })
        },
        image matches ImageUrl::Object { url, detail } ==> {
            &&& transcript::part_fault(part) is None <==> is_safe(url@)
            &&& transcript::part_item(part) == (CodexInputView::Image { url: url@, detail })
        },
{
    match image {
        ImageUrl::Url(url) => {
            lemma_safe(url@);
        },
        ImageUrl::Object { url, detail } => {
            lemma_safe(url@);
        },
    }
}

/// An image part of a request for a response is taken exactly where it has a safe address and names
/// no file, and becomes an image item with that address, character for character, and with the
/// detail that was asked for.
pub proof fn response_images_keep_their_address(
    part: ContentPart,
    image_url: Option<String>,
    file_id: Option<String>,
    detail: Option<ImageDetail>,
)
    requires
        part == (ContentPart::ResponseImage { image_url, file_id, detail }),
    ensures
        transcript::part_fault(part) is None <==> image_url is Some && file_id is None && is_safe(
            image_url->Some_0@,
        ),
        transcript::part_fault(part) is None ==> transcript::part_item(part) == (
        CodexInputView::Image { url: image_url->Some_0@, detail }),
{
    if image_url is Some {
        lemma_safe(image_url->Some_0@);
    }
}

/// Why a part is not taken: a file never is, an image not without an address or with a file's name,
/// and no image by an address that is not safe.
pub proof fn refused_parts_say_why(part: ContentPart)
    requires
        transcript::part_fault(part) is Some,
    ensures
        !(part is Text),
        part is File ==> transcript::part_fault(part) == Some(
            "input_file is not supported by codex app-server; attach images with image_url or input_image.image_url"@,
        ),
        part is ChatImage ==> transcript::part_fault(part) == Some(
            "image URLs must be HTTPS URLs or image data URLs"@,
        ),
        part matches ContentPart::ResponseImage { image_url, file_id, detail } ==> {
            &&& image_url is Some && file_id is None ==> transcript::part_fault(part) == Some(
                "image URLs must be HTTPS URLs or image data URLs"@,
            )
            &&& image_url is None || file_id is Some ==> transcript::part_fault(part) == Some(
                "input_image requires image_url; file_id cannot be resolved because this gateway has no Files API"@,
            )
        },
{
}

/// A file is never taken.
pub proof fn files_are_never_taken(part: ContentPart)
    requires
        part is File,
    ensures
        transcript::part_fault(part) is Some,
{
}

/// Of the parts of a message, the first that is at fault says why the message is.
pub proof fn the_first_faulty_part_decides(parts: Seq<ContentPart>, i: int)
    requires
        0 <= i < parts.len(),
        transcript::part_fault(parts[i]) is Some,
        forall|j: int| 0 <= j < i ==> transcript::part_fault(#[trigger] parts[j]) is None,
    ensures
        transcript::parts_fault(parts) == transcript::part_fault(parts[i]),
    decreases parts.len(),
{
    let front = parts.drop_last();
    assert forall|j: int| 0 <= j < front.len() && j < i implies transcript::part_fault(
        #[trigger] front[j],
    ) is None by {
        assert(front[j] == parts[j]);
    }
    if i < front.len() {
        assert(front[i] == parts[i]);
        the_first_faulty_part_decides(front, i);
    } else {
        faultless_parts_are_taken(front);
    }
}

/// Parts of which none is at fault are not at fault.
pub proof fn faultless_parts_are_taken(parts: Seq<ContentPart>)
    requires
        forall|j: int| 0 <= j < parts.len() ==> transcript::part_fault(#[trigger] parts[j]) is None,
    ensures
        transcript::parts_fault(parts) is None,
    decreases parts.len(),
{
    if parts.len() > 0 {
        let front = parts.drop_last();
        assert forall|j: int| 0 <= j < front.len() implies transcript::part_fault(
            #[trigger] front[j],
        ) is None by {
            assert(front[j] == parts[j]);
        }
        faultless_parts_are_taken(front);
        assert(transcript::part_fault(parts[parts.len() - 1]) is None);
    }
}

/// A message is at fault exactly where its role is none of the four or one of its parts is at fault.
/// The role is looked at first.
pub proof fn messages_have_roles_and_parts(message: Message)
    ensures
        ({
            let role = message.role@;
            let known = role == "system"@ || role == "developer"@ || role == "user"@ || role
                == "assistant"@;
            &&& !known ==> transcript::message_fault(message) == Some("unsupported message role"@)
            &&& known ==> match message.content {
                Content::Text(_) => transcript::message_fault(message) is None,
                Content::Parts(parts) => transcript::message_fault(message)
                    == transcript::parts_fault(parts@),
            }
        }),
{
}

/// Of the messages of a conversation, the first that is at fault says why the conversation is.
pub proof fn the_first_faulty_message_decides(messages: Seq<Message>, i: int)
    requires
        0 <= i < messages.len(),
        transcript::message_fault(messages[i]) is Some,
        forall|j: int| 0 <= j < i ==> transcript::message_fault(#[trigger] messages[j]) is None,
    ensures
        transcript::conversation_fault(messages) == transcript::message_fault(messages[i]),
    decreases messages.len(),
{
    let front = messages.drop_last();
    assert forall|j: int| 0 <= j < front.len() && j < i implies transcript::message_fault(
        #[trigger] front[j],
    ) is None by {
        assert(front[j] == messages[j]);
    }
    if i < front.len() {
        assert(front[i] == messages[i]);
        the_first_faulty_message_decides(front, i);
    } else {
        faultless_messages_are_taken(front);
    }
}

/// A conversation of which no message is at fault is not at fault.
pub proof fn faultless_messages_are_taken(messages: Seq<Message>)
    requires
        forall|j: int| 0 <= j < messages.len() ==> transcript::message_fault(#[trigger] messages[j]) is None,
    ensures
        transcript::conversation_fault(messages) is None,
    decreases messages.len(),
{
    if messages.len() > 0 {
        let front = messages.drop_last();
        assert forall|j: int| 0 <= j < front.len() implies transcript::message_fault(
            #[trigger] front[j],
        ) is None by {
            assert(front[j] == messages[j]);
        }
        faultless_messages_are_taken(front);
        assert(transcript::message_fault(messages[messages.len() - 1]) is None);
    }
}

/// A message stands in the transcript behind all that precedes it: first its opening delimiter with
/// its role, then what it says, item by item, then its closing delimiter.
pub proof fn messages_stand_between_their_delimiters(messages: Seq<Message>, k: int)
    requires
        0 <= k < messages.len(),
    ensures
        ({
            let items = transcript::transcript(messages);
            let at = transcript::transcript(messages.take(k)).len() as int;
            let message = messages[k];
            &&& items[at] == CodexInputView::Text(
                "<message role=\""@ + message.role@ + "\">\n"@,
            )
            &&& message.content matches Content::Text(said) ==> {
                &&& items[at + 1] == CodexInputView::Text(transcript::escape(said@))
                &&& items[at + 2] == CodexInputView::Text("\n</message>\n\n"@)
                &&& transcript::transcript(messages.take(k + 1)).len() == at + 3
            }
            &&& message.content matches Content::Parts(parts) ==> {
                &&& forall|j: int|
                    0 <= j < parts@.len() ==> #[trigger] items[at + 1 + j] == transcript::part_item(
                        parts@[j],
                    )
                &&& items[at + 1 + parts@.len()] == CodexInputView::Text("\n</message>\n\n"@)
                &&& transcript::transcript(messages.take(k + 1)).len() == at + 2 + parts@.len()
            }
            &&& transcript::transcript(messages.take(k + 1)).len() <= items.len()
            &&& k == messages.len() - 1 ==> transcript::transcript(messages.take(k + 1)).len()
                == items.len()
        }),
{
    let first = messages.take(k);
    let upto = messages.take(k + 1);
    let rest = messages.skip(k + 1);
    assert(upto.drop_last() =~= first);
    assert(upto.last() == messages[k]);
    assert(messages =~= upto + rest);
    transcript::transcripts_keep_the_order(upto, rest);
    if k == messages.len() - 1 {
        assert(upto =~= messages);
    }
    let one = transcript::message_items(messages[k]);
    let at = transcript::transcript(first).len() as int;
    assert(transcript::transcript(upto) == transcript::transcript(first) + one);
    assert forall|j: int| 0 <= j < one.len() implies #[trigger] transcript::transcript(
        messages,
    )[at + j] == one[j] by {}
    match messages[k].content {
        Content::Text(said) => {
            assert(one.len() == 3);
            assert(transcript::transcript(messages)[at + 0] == one[0]);
            assert(transcript::transcript(messages)[at + 1] == one[1]);
            assert(transcript::transcript(messages)[at + 2] == one[2]);
        },
        Content::Parts(parts) => {
            let n = parts@.len() as int;
            assert(one.len() == n + 2);
            assert(transcript::transcript(messages)[at + 0] == one[0]);
            assert(transcript::transcript(messages)[at + (1 + n)] == one[1 + n]);
            assert forall|j: int| 0 <= j < n implies #[trigger] transcript::transcript(
                messages,
            )[at + 1 + j] == transcript::part_item(parts@[j]) by {
                assert(transcript::transcript(messages)[at + (1 + j)] == one[1 + j]);
            }
        },
    }
}

/// An empty conversation has an empty transcript.
pub proof fn nothing_is_written_for_nothing()
    ensures
        transcript::transcript(Seq::<Message>::empty()).len() == 0,
        transcript::input_bytes(Seq::<CodexInputView>::empty()) == 0,
        transcript::image_count(Seq::<CodexInputView>::empty()) == 0,
        transcript::input_text(Seq::<CodexInputView>::empty()).len() == 0,
{
}

/// What is counted and joined of a list is what is counted and joined of its items, one by one: a
/// text counts the bytes of its UTF-8 form and is joined, an image counts those of its address and
/// adds nothing to the text.
pub proof fn items_count_one_by_one(front: Seq<CodexInputView>, item: CodexInputView)
    ensures
        transcript::input_bytes(front.push(item)) == transcript::input_bytes(front) + match item {
            CodexInputView::Text(said) => encode_utf8(said).len(),
            CodexInputView::Image { url, detail } => encode_utf8(url).len(),
        },
        item is Image ==> transcript::image_count(front.push(item)) == transcript::image_count(
            front,
        ) + 1,
        item is Text ==> transcript::image_count(front.push(item)) == transcript::image_count(
            front,
        ),
        item matches CodexInputView::Text(said) ==> transcript::input_text(front.push(item))
            == transcript::input_text(front) + said,
        item is Image ==> transcript::input_text(front.push(item)) == transcript::input_text(front),
{
    assert(front.push(item).drop_last() =~= front);
}

/// A conversation is accepted exactly where it has no fault and its transcript counts no more bytes
/// than are allowed. It is then handed on whole. A fault is reported before its size.
pub proof fn conversations_are_accepted_whole(messages: Seq<Message>, max_bytes: usize)
    requires
        max_bytes < usize::MAX || transcript::input_bytes(transcript::transcript(messages))
            <= usize::MAX,
    ensures
        transcript::serialized(messages, max_bytes) is Ok <==> transcript::conversation_fault(
            messages,
        ) is None && transcript::input_bytes(transcript::transcript(messages)) <= max_bytes,
        transcript::serialized(messages, max_bytes) matches Ok(items) ==> items
            == transcript::transcript(messages),
        transcript::conversation_fault(messages) matches Some(fault) ==> transcript::serialized(
            messages,
            max_bytes,
        ) == Err::<Seq<CodexInputView>, GatewayErrorView>(GatewayErrorView::Invalid(fault)),
        transcript::conversation_fault(messages) is None && transcript::input_bytes(
            transcript::transcript(messages),
        ) > max_bytes ==> transcript::serialized(messages, max_bytes) == Err::<
            Seq<CodexInputView>,
            GatewayErrorView,
        >(GatewayErrorView::Invalid("prompt and attachment URLs exceed configured limit"@)),
{
}

/// A count stops at the largest number that fits.
pub proof fn counts_stop_at_the_top(count: nat)
    ensures
        count <= usize::MAX ==> transcript::saturated(count) == count,
        count > usize::MAX ==> transcript::saturated(count) == usize::MAX,
{
}

/// The models that can be asked for by name, in the order in which they are listed.
pub proof fn five_models_are_offered(model: Seq<char>)
    ensures
        config::SUPPORTED_MODELS@[0]@ == "gpt-5.4-mini"@,
        config::SUPPORTED_MODELS@[1]@ == "gpt-5.5"@,
        config::SUPPORTED_MODELS@[2]@ == "gpt-5.6-luna"@,
        config::SUPPORTED_MODELS@[3]@ == "gpt-5.6-terra"@,
        config::SUPPORTED_MODELS@[4]@ == "gpt-5.6-sol"@,
        config::is_supported(model) <==> (model == "gpt-5.4-mini"@ || model == "gpt-5.5"@ || model
            == "gpt-5.6-luna"@ || model == "gpt-5.6-terra"@ || model == "gpt-5.6-sol"@),
{
    assert(config::SUPPORTED_MODELS@[0]@ == "gpt-5.4-mini"@);
    assert(config::SUPPORTED_MODELS@[1]@ == "gpt-5.5"@);
    assert(config::SUPPORTED_MODELS@[2]@ == "gpt-5.6-luna"@);
    assert(config::SUPPORTED_MODELS@[3]@ == "gpt-5.6-terra"@);
    assert(config::SUPPORTED_MODELS@[4]@ == "gpt-5.6-sol"@);
}

/// Whatever the settings are, the alias stands for the default model that they name: settings that
/// name different models give it different meanings.
pub proof fn the_alias_stands_for_the_default(a: Config, b: Config)
    ensures
        config::resolved(Some("codex"@), a.default_model@) == Ok::<Seq<char>, Seq<char>>(
            a.default_model@,
        ),
        a.default_model@ != b.default_model@ ==> config::resolved(
            Some("codex"@),
            a.default_model@,
        ) != config::resolved(Some("codex"@), b.default_model@),
{
}

/// Whatever the default model is, a model that is asked for by name is the one that is used, one
/// that is not offered is turned down, and so is a request that names none.
pub proof fn named_models_are_used_as_named(model: Seq<char>, config: Config)
    ensures
        config::is_supported(model) ==> config::resolved(Some(model), config.default_model@) == Ok::<
            Seq<char>,
            Seq<char>,
        >(model),
        !config::is_supported(model) && model != "codex"@ ==> config::resolved(
            Some(model),
            config.default_model@,
        ) == Err::<Seq<char>, Seq<char>>("the requested model is not supported"@),
        config::resolved(None, config.default_model@) == Err::<Seq<char>, Seq<char>>(
            "model is required"@,
        ),
{
    words::lemma_words_differ();
    five_models_are_offered(model);
}

/// The list of models names the alias first, with the model that it stands for, then every model
/// that is offered.
pub proof fn the_list_names_every_model(default_model: Seq<char>, i: int)
    requires
        0 <= i < 5,
    ensures
        ({
            let tree = config::models_tree(default_model);
            let data = json::member(Some(tree), "data"@);
            let alias = element(data, 0);
            let entry = element(data, i + 1);
            &&& has_members(tree, set!["object"@, "data"@])
            &&& json::member(Some(tree), "object"@) == Some(JsonTree::Text("list"@))
            &&& data matches Some(JsonTree::Array(list)) && list.len() == 6
            &&& has_members(alias->Some_0, set!["id"@, "object"@, "owned_by"@, "alias_for"@])
            &&& json::member(alias, "id"@) == Some(JsonTree::Text("codex"@))
            &&& json::member(alias, "alias_for"@) == Some(JsonTree::Text(default_model))
            &&& json::member(alias, "object"@) == Some(JsonTree::Text("model"@))
            &&& json::member(alias, "owned_by"@) == Some(JsonTree::Text("openai"@))
            &&& has_members(entry->Some_0, set!["id"@, "object"@, "owned_by"@])
            &&& json::member(entry, "id"@) == Some(
                JsonTree::Text(config::SUPPORTED_MODELS@[i]@),
            )
            &&& json::member(entry, "object"@) == Some(JsonTree::Text("model"@))
            &&& json::member(entry, "owned_by"@) == Some(JsonTree::Text("openai"@))
        }),
{
    words::lemma_words_differ();
    let list = seq![config::alias_tree(default_model)] + config::supported_trees();
    assert(list[i + 1] == config::supported_trees()[i]);
}

/// The settings are valid exactly where the default model is offered and none of the six limits is
/// zero. Nothing else matters.
pub proof fn settings_need_a_model_and_limits(config: Config)
    ensures
        config.is_valid() <==> config::is_supported(config.default_model@) && config.timeout_seconds
            > 0 && config.max_concurrent_runs > 0 && config.max_messages > 0
            && config.max_request_body_bytes > 0 && config.max_prompt_bytes > 0
            && config.max_response_bytes > 0,
{
}

/// What the settings are where nothing is set.
pub proof fn settings_have_defaults()
    ensures
        config::DEFAULT_MODEL@ == "gpt-5.6-luna"@,
        config::DEFAULT_BINARY@ == "codex"@,
        config::DEFAULT_HOME@ == "/home/codex/.codex"@,
        config::DEFAULT_RUNTIME_DIR@ == "/home/codex/runtime"@,
        config::DEFAULT_EXEC_FALLBACK,
        config::DEFAULT_TIMEOUT_SECONDS == 10 * 60,
        config::DEFAULT_CONCURRENT_RUNS == 4,
        config::DEFAULT_MAX_TURNS == 100,
        config::DEFAULT_BODY_BYTES == 20 * 1024 * 1024,
        config::DEFAULT_PROMPT_BYTES == 16 * 1024 * 1024,
        config::DEFAULT_RESPONSE_BYTES == 4 * 1024 * 1024,
        config::DEFAULT_MESSAGES == 128,
        config::DEFAULT_HOST@ == "127.0.0.1"@,
        config::DEFAULT_PORT == 8989,
{
}

/// The reply turns a request down in the common form.
pub open spec fn refuses(
    reply: error::ReplyView,
    status: u16,
    message: Seq<char>,
    param: Seq<char>,
    code: Option<Seq<char>>,
) -> bool {
    let told = json::member(Some(reply.body), "error"@);
    &&& reply.status == status
    &&& json::member(told, "message"@) == Some(JsonTree::Text(message))
    &&& json::member(told, "type"@) == Some(JsonTree::Text("invalid_request_error"@))
    &&& json::member(told, "param"@) == Some(JsonTree::Text(param))
    &&& json::member(told, "code"@) == Some(
        match code {
            Some(code) => JsonTree::Text(code),
            None => JsonTree::Null,
        },
    )
}

/// A request is looked at in this order: its model, the number of its messages, its messages. The
/// first of these that is wrong decides the reply. One that is right in all of them asks Codex for
/// the resolved model and the whole transcript, within the time of the settings.
pub proof fn requests_are_looked_at_in_order(
    endpoint: Endpoint,
    model: Option<Seq<char>>,
    messages: Seq<Message>,
    config: Config,
)
    ensures
        ({
            let result = request::prepared(endpoint, model, messages, config);
            let found = config::resolved(model, config.default_model@);
            let written = transcript::serialized(messages, config.max_prompt_bytes);
            let field = if endpoint is Chat {
                "messages"@
            } else {
                "input"@
            };
            let counted = 1 <= messages.len() <= config.max_messages;
            &&& found matches Err(reason) ==> (result matches Err(reply) && refuses(
                reply,
                404,
                reason,
                "model"@,
                Some("model_not_found"@),
            ))
            &&& found is Ok && !counted ==> (result matches Err(reply) && refuses(
                reply,
                400,
                if endpoint is Chat {
                    "messages count is outside the supported range"@
                } else {
                    "input message count is outside the supported range"@
                },
                field,
                None,
            ))
            &&& found is Ok && counted && written is Err ==> (result matches Err(reply) && refuses(
                reply,
                400,
                written->Err_0.message(),
                field,
                None,
            ))
            &&& found is Ok && counted && written is Ok ==> (result matches Ok(asked) && asked.model
                == found->Ok_0 && asked.input == written->Ok_0 && asked.timeout_seconds
                == config.timeout_seconds)
        }),
{
    words::lemma_words_differ();
}

/// A bare text is one message of the user that says it, and a list of messages is itself.
pub proof fn bare_texts_are_said_by_the_user(input: Input, messages: Seq<Message>)
    requires
        request::stands_for(input, messages),
    ensures
        input matches Input::Text(said) ==> messages.len() == 1 && messages[0].role@ == "user"@
            && messages[0].content == Content::Text(said),
        input matches Input::Messages(list) ==> messages == list@,
{
}

} // verus!
