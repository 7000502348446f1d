//! JSON documents. `serde_json::Value` carries them; a [`JsonTree`] is what one of them says.
use serde_json::Value;
use vstd::prelude::*;

verus! {

/// `serde_json::Value`, a JSON document. Verified code sees nothing inside it but [`value_tree`].
#[verifier::external_type_specification]
#[verifier::external_body]
pub struct ExValue(Value);

/// `serde_json::Error`, the reason why a text is no JSON document.
#[verifier::external_type_specification]
#[verifier::external_body]
pub struct ExJsonError(serde_json::Error);

/// `serde_json::Map`, the members of an object. Verified code sees nothing inside it but
/// [`map_members`].
#[verifier::external_type_specification]
#[verifier::external_body]
#[verifier::reject_recursive_types(K)]
#[verifier::reject_recursive_types(V)]
pub struct ExMap<K, V>(serde_json::Map<K, V>);

/// What a JSON document says.
pub enum JsonTree {
    Null,
    Bool(bool),
    /// A number that is a `u64`.
    Natural(u64),
    /// Any other number, as it is written.
    OtherNumber(Seq<char>),
    Text(Seq<char>),
    Array(Seq<JsonTree>),
    Object(Map<Seq<char>, JsonTree>),
}

/// What a `serde_json::Value` holds: its variant, with the contents of that variant.
pub uninterp spec fn value_tree(value: Value) -> JsonTree;

/// What a `serde_json::Map` holds: its values by their names.
pub uninterp spec fn map_members(map: serde_json::Map<String, Value>) -> Map<Seq<char>, JsonTree>;

/// The document that `serde_json::from_str` reads from a text; none where it reports an error.
pub uninterp spec fn json_parse(text: Seq<char>) -> Option<JsonTree>;

/// The document that `serde_json::from_slice` reads from bytes; none where it reports an error.
pub uninterp spec fn json_parse_bytes(bytes: Seq<u8>) -> Option<JsonTree>;

/// The compact text that `Value::to_string` writes for a document.
pub uninterp spec fn json_text(tree: JsonTree) -> Seq<char>;

/// `serde_json::from_str::<Value>`: the document that `text` writes down, or an error where it
/// writes down none. The outcome depends on the text alone.
#[verifier::external_body]
pub(crate) fn parse_text(text: &str) -> (parsed: Result<Value, serde_json::Error>)
    ensures
        match parsed {
            Ok(value) => json_parse(text@) == Some(value_tree(value)),
            Err(_) => json_parse(text@) is None,
        },
{
    serde_json::from_str::<Value>(text)
}

/// `serde_json::from_slice::<Value>`: the document that `bytes` write down, or an error where they
/// write down none. The outcome depends on the bytes alone.
#[verifier::external_body]
pub(crate) fn parse_bytes(bytes: &[u8]) -> (parsed: Result<Value, serde_json::Error>)
    ensures
        match parsed {
            Ok(value) => json_parse_bytes(bytes@) == Some(value_tree(value)),
            Err(_) => json_parse_bytes(bytes@) is None,
        },
{
    serde_json::from_slice::<Value>(bytes)
}

/// `Value::to_string`: the compact text of a document, which depends on what the document says
/// alone. Line feeds inside strings are escaped and none is written between tokens.
#[verifier::external_body]
fn value_to_string(value: &Value) -> (text: String)
    ensures
        text@ == json_text(value_tree(*value)),
        !text@.contains('\n'),
{
    value.to_string()
}

/// `Value::get` with a string: the member of that name where the document is an object that has
/// one, and nothing otherwise.
#[verifier::external_body]
fn value_get<'a>(value: &'a Value, key: &str) -> (found: Option<&'a Value>)
    ensures
        found_tree(found) == member(Some(value_tree(*value)), key@),
{
    value.get(key)
}

/// `Value::as_str`: the text of a document that is a string.
pub assume_specification[ Value::as_str ](value: &Value) -> (content: Option<&str>)
    ensures
        match content {
            Some(content) => value_tree(*value) == JsonTree::Text(content@),
            None => !(value_tree(*value) is Text),
        },
;

/// `Value::as_u64`: the number of a document that is a `u64`.
pub assume_specification[ Value::as_u64 ](value: &Value) -> (number: Option<u64>)
    ensures
        match number {
            Some(number) => value_tree(*value) == JsonTree::Natural(number),
            None => !(value_tree(*value) is Natural),
        },
;

/// `Value::from(())`: the null document.
#[verifier::external_body]
pub(crate) fn null() -> (value: Value)
    ensures
        value_tree(value) == JsonTree::Null,
{
    Value::from(())
}

/// `Value::from` of a `bool`: that truth value as a document.
#[verifier::external_body]
pub(crate) fn boolean(truth: bool) -> (value: Value)
    ensures
        value_tree(value) == JsonTree::Bool(truth),
{
    Value::from(truth)
}

/// `Value::from` of a `u64`: that number as a document.
#[verifier::external_body]
pub(crate) fn natural(number: u64) -> (value: Value)
    ensures
        value_tree(value) == JsonTree::Natural(number),
{
    Value::from(number)
}

/// `Value::from` of an `i64`: that number as a document. `serde_json` keeps a number that is not
/// negative as a `u64`.
#[verifier::external_body]
pub(crate) fn integer(number: i64) -> (value: Value)
    ensures
        value_tree(value) == integer_tree(number as int),
{
    Value::from(number)
}

/// `Value::from` of a `&str`: that text as a document.
#[verifier::external_body]
pub(crate) fn text(content: &str) -> (value: Value)
    ensures
        value_tree(value) == JsonTree::Text(content@),
{
    Value::from(content)
}

/// `Value::from` of a vector of documents: the array that holds them in order.
#[verifier::external_body]
pub(crate) fn array(items: Vec<Value>) -> (value: Value)
    ensures
        value_tree(value) == JsonTree::Array(value_trees(items@)),
{
    Value::from(items)
}

/// `serde_json::Map::new`: a map without members.
#[verifier::external_body]
fn new_map() -> (map: serde_json::Map<String, Value>)
    ensures
        map_members(map) == no_members(),
{
    serde_json::Map::new()
}

/// `serde_json::Map::insert`: the map gets the member, in place of one of that name where it has
/// one. The other members stay.
#[verifier::external_body]
fn insert_member(map: &mut serde_json::Map<String, Value>, key: &str, value: Value)
    ensures
        map_members(*final(map)) == map_members(*old(map)).insert(key@, value_tree(value)),
{
    map.insert(key.to_owned(), value);
}

/// `Value::from` of a map: the object that has its members.
#[verifier::external_body]
fn object(map: serde_json::Map<String, Value>) -> (value: Value)
    ensures
        value_tree(value) == JsonTree::Object(map_members(map)),
{
    Value::from(map)
}

/// A number as a document: a natural number where it is one, and its decimal text otherwise.
pub open spec fn integer_tree(number: int) -> JsonTree {
    if number >= 0 {
        JsonTree::Natural(number as u64)
    } else {
        JsonTree::OtherNumber(crate::text::decimal(number))
    }
}

/// What a sequence of documents says, item by item.
pub open spec fn value_trees(values: Seq<Value>) -> Seq<JsonTree> {
    values.map_values(|value: Value| value_tree(value))
}

/// No members.
pub open spec fn no_members() -> Map<Seq<char>, JsonTree> {
    Map::empty()
}

/// What the document that was found says, where one was.
pub open spec fn found_tree(found: Option<&Value>) -> Option<JsonTree> {
    match found {
        Some(value) => Some(value_tree(*value)),
        None => None,
    }
}

/// The member `key` of a document that is an object and has it.
pub open spec fn member(tree: Option<JsonTree>, key: Seq<char>) -> Option<JsonTree> {
    match tree {
        Some(JsonTree::Object(members)) => if members.contains_key(key) {
            Some(members[key])
        } else {
            None
        },
        _ => None,
    }
}

/// The text of a document that is a string.
pub open spec fn text_of(tree: Option<JsonTree>) -> Option<Seq<char>> {
    match tree {
        Some(JsonTree::Text(text)) => Some(text),
        _ => None,
    }
}

/// The number of a document that is a `u64`.
pub open spec fn natural_of(tree: Option<JsonTree>) -> Option<u64> {
    match tree {
        Some(JsonTree::Natural(number)) => Some(number),
        _ => None,
    }
}

/// A text as a document, where there is one.
pub open spec fn text_tree(text: Option<Seq<char>>) -> Option<JsonTree> {
    match text {
        Some(text) => Some(JsonTree::Text(text)),
        None => None,
    }
}

/// A natural number as a document, where there is one.
pub open spec fn natural_tree(number: Option<u64>) -> Option<JsonTree> {
    match number {
        Some(number) => Some(JsonTree::Natural(number)),
        None => None,
    }
}

/// These members, and one more where there is a document for it.
pub open spec fn with_optional(
    members: Map<Seq<char>, JsonTree>,
    key: Seq<char>,
    tree: Option<JsonTree>,
) -> Map<Seq<char>, JsonTree> {
    match tree {
        Some(tree) => members.insert(key, tree),
        None => members,
    }
}

/// A text or null.
pub open spec fn nullable(text: Option<Seq<char>>) -> JsonTree {
    match text {
        Some(text) => JsonTree::Text(text),
        None => JsonTree::Null,
    }
}

/// The member `key` of a document, where there is a document and it has that member.
pub fn get<'a>(value: Option<&'a Value>, key: &str) -> (found: Option<&'a Value>)
    ensures
        found_tree(found) == member(found_tree(value), key@),
{
    match value {
        Some(value) => value_get(value, key),
        None => None,
    }
}

/// The text of a document, where there is a document and it is a string.
pub fn get_text(value: Option<&Value>) -> (text: Option<String>)
    ensures
        crate::text::opt_view(text) == text_of(found_tree(value)),
{
    match value {
        Some(value) => match value.as_str() {
            Some(text) => Some(text.to_owned()),
            None => None,
        },
        None => None,
    }
}

/// The number of a document, where there is a document and it is a `u64`.
pub fn get_natural(value: Option<&Value>) -> (number: Option<u64>)
    ensures
        number == natural_of(found_tree(value)),
{
    match value {
        Some(value) => value.as_u64(),
        None => None,
    }
}

/// A text as a document, or null where there is none.
pub(crate) fn nullable_text(content: Option<&str>) -> (value: Value)
    ensures
        value_tree(value) == nullable(crate::text::opt_str_view(content)),
{
    match content {
        Some(content) => text(content),
        None => null(),
    }
}

/// An array of one document.
pub(crate) fn array_of_one(item: Value) -> (value: Value)
    ensures
        value_tree(value) == JsonTree::Array(seq![value_tree(item)]),
{
    let mut items: Vec<Value> = Vec::new();
    items.push(item);
    proof {
        assert(value_trees(items@) =~= seq![value_tree(item)]);
    }
    array(items)
}

/// The members of an object under construction.
pub(crate) struct Members {
    map: serde_json::Map<String, Value>,
}

impl View for Members {
    type V = Map<Seq<char>, JsonTree>;

    closed spec fn view(&self) -> Map<Seq<char>, JsonTree> {
        map_members(self.map)
    }
}

impl Members {
    /// No members.
    pub(crate) fn new() -> (members: Members)
        ensures
            members@ == Map::<Seq<char>, JsonTree>::empty(),
    {
        Members { map: new_map() }
    }

    /// These members and one more.
    pub(crate) fn with(self, key: &'static str, value: Value) -> (members: Members)
        ensures
            members@ == self@.insert(key@, value_tree(value)),
    {
        let mut map: serde_json::Map<String, Value> = self.map;
        insert_member(&mut map, key, value);
        Members { map }
    }

    /// The object that has these members.
    pub(crate) fn build(self) -> (value: Value)
        ensures
            value_tree(value) == JsonTree::Object(self@),
    {
        object(self.map)
    }
}

/// The line that carries a document over a newline-delimited transport: its compact text and a
/// line feed, which is the only one in it.
pub fn encode_line(value: &Value) -> (line: String)
    ensures
        line@ == json_text(value_tree(*value)) + "\n"@,
        line@.last() == '\n',
        !line@.drop_last().contains('\n'),
{
    let mut line: String = value_to_string(value);
    let ghost body = line@;
    line.push('\n');
    proof {
        reveal_strlit("\n");
        assert(line@ =~= body + "\n"@);
        assert(line@.drop_last() =~= body);
    }
    line
}

} // verus!
