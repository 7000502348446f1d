//! Names for requests and for the objects that answer them.
use vstd::prelude::*;
use vstd::string::*;

verus! {

/// A hexadecimal digit in lower case.
pub open spec fn is_hex(c: char) -> bool {
    ('0' <= c && c <= '9') || ('a' <= c && c <= 'f')
}

/// A random UUID without hyphens: hexadecimal digits, with its version and its variant in place.
pub open spec fn is_random_uuid(text: Seq<char>) -> bool {
    &&& text.len() == 32
    &&& forall|i: int| 0 <= i < 32 ==> is_hex(#[trigger] text[i])
    &&& text[12] == '4'
    &&& text[16] == '8' || text[16] == '9' || text[16] == 'a' || text[16] == 'b'
}

/// A prefix and a random UUID.
pub open spec fn is_name(text: Seq<char>, prefix: Seq<char>) -> bool {
    &&& text.len() == prefix.len() + 32
    &&& text.take(prefix.len() as int) == prefix
    &&& is_random_uuid(text.skip(prefix.len() as int))
}

/// `Uuid::new_v4`, written by `Uuid::simple`: 32 hexadecimal digits in lower case, of which the
/// thirteenth is the version 4 and the seventeenth holds the variant. The other digits are random,
/// and nothing is said of them: neither that two calls differ nor that they do not.
#[verifier::external_body]
fn random_uuid() -> (text: String)
    ensures
        is_random_uuid(text@),
{
    uuid::Uuid::new_v4().simple().to_string()
}

/// The name that a prefix and a drawn text make.
pub fn name_from(prefix: &str, random: &str) -> (text: String)
    ensures
        text@ == prefix@ + random@,
{
    let mut text: String = prefix.to_owned();
    text.append(random);
    text
}

/// A prefix and a random UUID.
fn name(prefix: &str) -> (text: String)
    ensures
        is_name(text@, prefix@),
{
    let random: String = random_uuid();
    let text: String = name_from(prefix, random.as_str());
    proof {
        assert(text@.take(prefix@.len() as int) =~= prefix@);
        assert(text@.skip(prefix@.len() as int) =~= random@);
    }
    text
}

/// The name under which a request is logged.
pub fn request_id() -> (text: String)
    ensures
        is_random_uuid(text@),
{
    random_uuid()
}

/// The name of a chat completion.
pub fn completion_id() -> (text: String)
    ensures
        is_name(text@, "chatcmpl_"@),
{
    name("chatcmpl_")
}

/// The name of a response.
pub fn response_id() -> (text: String)
    ensures
        is_name(text@, "resp_"@),
{
    name("resp_")
}

} // verus!
