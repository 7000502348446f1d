//! Texts. Every string is modelled by its sequence of characters.
use vstd::prelude::*;
use vstd::string::*;
use vstd::utf8::*;

verus! {

/// `String::push` of the standard library appends one character.
pub assume_specification[ String::push ](string: &mut String, c: char)
    ensures
        final(string)@ == old(string)@.push(c),
;

/// The characters of a text, where there is one.
pub open spec fn opt_view(text: Option<String>) -> Option<Seq<char>> {
    match text {
        Some(text) => Some(text@),
        None => None,
    }
}

/// The characters of a borrowed text, where there is one.
pub open spec fn opt_str_view(text: Option<&str>) -> Option<Seq<char>> {
    match text {
        Some(text) => Some(text@),
        None => None,
    }
}

/// The length of a text in bytes, as `str::len` counts it.
pub open spec fn byte_len(text: Seq<char>) -> nat {
    encode_utf8(text).len()
}

/// `part` occurs in `text` at character `at`.
pub open spec fn occurs_at(text: Seq<char>, part: Seq<char>, at: int) -> bool {
    0 <= at && at + part.len() <= text.len() && text.subrange(at, at + part.len()) == part
}

/// `part` occurs in `text`.
pub open spec fn contains_text(text: Seq<char>, part: Seq<char>) -> bool {
    exists|at: int| occurs_at(text, part, at)
}

/// The lower-case form of an ASCII letter; any other character is kept.
pub open spec fn lower_char(c: char) -> char {
    if 'A' <= c && c <= 'Z' {
        (c as u32 + 32) as char
    } else {
        c
    }
}

/// A text with its ASCII letters in lower case.
pub open spec fn ascii_lower(text: Seq<char>) -> Seq<char> {
    text.map_values(|c: char| lower_char(c))
}

/// The character that stands for a digit.
pub open spec fn digit_char(digit: int) -> char {
    (('0' as int) + digit) as char
}

/// The decimal digits of a natural number.
pub open spec fn digits(number: nat) -> Seq<char>
    decreases number,
{
    if number < 10 {
        seq![digit_char(number as int)]
    } else {
        digits(number / 10).push(digit_char((number % 10) as int))
    }
}

/// A number in decimal.
pub open spec fn decimal(number: int) -> Seq<char> {
    if number < 0 {
        "-"@ + digits((-number) as nat)
    } else {
        digits(number as nat)
    }
}

/// The pieces of a text between the occurrences of a separator.
pub open spec fn segments(text: Seq<char>, separator: char) -> Seq<Seq<char>>
    decreases text.len(),
{
    if text.len() == 0 {
        seq![Seq::<char>::empty()]
    } else {
        let front = segments(text.drop_last(), separator);
        if text.last() == separator {
            front.push(Seq::empty())
        } else {
            front.drop_last().push(front.last().push(text.last()))
        }
    }
}

/// The length of `text` in bytes.
pub fn len_of(text: &str) -> (length: usize)
    ensures
        length == byte_len(text@),
{
    text.as_bytes().len()
}

/// The characters of `text`, in order.
pub fn chars_of(text: &str) -> (chars: Vec<char>)
    ensures
        chars@ == text@,
{
    let mut chars: Vec<char> = Vec::new();
    for c in it: text.chars()
        invariant
            chars@ == it.seq().take(it.index()),
            it.seq() == text@,
    {
        chars.push(c);
    }
    chars
}

/// Whether two texts hold the same characters.
pub fn same_text(left: &str, right: &str) -> (same: bool)
    ensures
        same == (left@ == right@),
{
    let a: &[u8] = left.as_bytes();
    let b: &[u8] = right.as_bytes();
    proof {
        encode_utf8_decode_utf8(left@);
        encode_utf8_decode_utf8(right@);
    }
    if a.len() != b.len() {
        return false;
    }
    let mut i: usize = 0;
    while i < a.len()
        invariant
            i <= a.len(),
            a@.len() == b@.len(),
            a@ == encode_utf8(left@),
            b@ == encode_utf8(right@),
            forall|j: int| 0 <= j < i ==> a@[j] == b@[j],
        decreases a.len() - i,
    {
        if a[i] != b[i] {
            return false;
        }
        i = i + 1;
    }
    assert(a@ =~= b@);
    true
}

/// Whether two optional texts are both absent or hold the same characters.
pub fn same_optional(left: &Option<String>, right: &Option<String>) -> (same: bool)
    ensures
        same == (opt_view(*left) == opt_view(*right)),
{
    match (left, right) {
        (Some(left), Some(right)) => same_text(left.as_str(), right.as_str()),
        (None, None) => true,
        _ => false,
    }
}

/// Whether a text is present and holds the characters of `wanted`.
pub fn is_text(text: &Option<String>, wanted: &str) -> (same: bool)
    ensures
        same == (opt_view(*text) == Some(wanted@)),
{
    match text {
        Some(text) => same_text(text.as_str(), wanted),
        None => false,
    }
}

/// A copy of an optional text.
pub fn copy_optional(text: &Option<String>) -> (copy: Option<String>)
    ensures
        opt_view(copy) == opt_view(*text),
{
    match text {
        Some(text) => Some(text.clone()),
        None => None,
    }
}

/// Whether the characters of `part` stand in `text` from `at` on.
fn matches_at(text: &Vec<char>, part: &Vec<char>, at: usize) -> (found: bool)
    requires
        at + part@.len() <= text@.len(),
    ensures
        found == occurs_at(text@, part@, at as int),
{
    let mut i: usize = 0;
    while i < part.len()
        invariant
            i <= part.len(),
            at + part@.len() <= text.len(),
            forall|j: int| 0 <= j < i ==> text@[at + j] == part@[j],
        decreases part.len() - i,
    {
        if text[at + i] != part[i] {
            proof {
                assert(text@.subrange(at as int, at + part@.len())[i as int] == text@[at + i]);
            }
            return false;
        }
        i = i + 1;
    }
    proof {
        assert(text@.subrange(at as int, at + part@.len()) =~= part@);
    }
    true
}

/// Whether `part` occurs in `text`.
pub fn contains(text: &str, part: &str) -> (found: bool)
    ensures
        found == contains_text(text@, part@),
{
    let whole: Vec<char> = chars_of(text);
    let wanted: Vec<char> = chars_of(part);
    if wanted.len() > whole.len() {
        return false;
    }
    let last: usize = whole.len() - wanted.len();
    let mut at: usize = 0;
    loop
        invariant
            whole@ == text@,
            wanted@ == part@,
            at <= last,
            last == whole@.len() - wanted@.len(),
            forall|j: int| 0 <= j < at ==> !occurs_at(text@, part@, j),
        decreases last - at,
    {
        if matches_at(&whole, &wanted, at) {
            return true;
        }
        if at == last {
            return false;
        }
        at = at + 1;
    }
}

/// Whether `text` starts with `prefix`.
pub fn starts_with(text: &str, prefix: &str) -> (found: bool)
    ensures
        found == occurs_at(text@, prefix@, 0),
{
    let whole: Vec<char> = chars_of(text);
    let wanted: Vec<char> = chars_of(prefix);
    if wanted.len() > whole.len() {
        return false;
    }
    matches_at(&whole, &wanted, 0)
}

/// `text` with its ASCII letters in lower case.
pub fn to_ascii_lower(text: &str) -> (lower: String)
    ensures
        lower@ == ascii_lower(text@),
{
    let mut lower: String = String::new();
    for c in it: text.chars()
        invariant
            lower@ =~= ascii_lower(it.seq().take(it.index())),
            it.seq() == text@,
    {
        if 'A' <= c && c <= 'Z' {
            lower.push((c as u8 + 32u8) as char);
        } else {
            lower.push(c);
        }
        proof {
            assert(it.seq().take(it.index() + 1) =~= it.seq().take(it.index()).push(c));
        }
    }
    proof {
        assert(text@.take(text@.len() as int) =~= text@);
    }
    lower
}

/// The decimal digits of a natural number.
fn digits_of(number: u64) -> (text: String)
    ensures
        text@ == digits(number as nat),
    decreases number,
{
    let last: u8 = (number % 10) as u8;
    let mut text: String = if number < 10 {
        String::new()
    } else {
        digits_of(number / 10)
    };
    text.push((48u8 + last) as char);
    proof {
        assert(text@ =~= digits(number as nat));
    }
    text
}

/// A number in decimal.
pub fn decimal_of(number: i64) -> (text: String)
    ensures
        text@ == decimal(number as int),
{
    if number < 0 {
        let mut text: String = "-".to_owned();
        let magnitude: u64 = (-(number as i128)) as u64;
        let rest: String = digits_of(magnitude);
        text.append(rest.as_str());
        text
    } else {
        digits_of(number as u64)
    }
}

/// The second piece of `text` between the occurrences of `separator`, where there is one.
pub fn second_segment(text: &str, separator: char) -> (segment: Option<String>)
    ensures
        opt_view(segment) == (if segments(text@, separator).len() > 1 {
            Some(segments(text@, separator)[1])
        } else {
            None
        }),
{
    let mut segment: String = String::new();
    let mut seen: usize = 0;
    for c in it: text.chars()
        invariant
            it.seq() == text@,
            segments(it.seq().take(it.index()), separator).len() >= 1,
            seen <= 2,
            seen < 2 ==> segments(it.seq().take(it.index()), separator).len() == seen + 1,
            seen == 2 ==> segments(it.seq().take(it.index()), separator).len() > 2,
            seen == 0 ==> segment@ == Seq::<char>::empty(),
            seen >= 1 ==> segments(it.seq().take(it.index()), separator)[1] == segment@,
    {
        proof {
            let before = it.seq().take(it.index());
            let after = it.seq().take(it.index() + 1);
            assert(after.drop_last() =~= before);
            assert(after.last() == c);
        }
        if c == separator {
            if seen < 2 {
                seen = seen + 1;
            }
        } else if seen == 1 {
            segment.push(c);
        }
    }
    proof {
        assert(text@.take(text@.len() as int) =~= text@);
    }
    if seen == 0 {
        None
    } else {
        Some(segment)
    }
}

/// A text without the separator is one piece.
pub proof fn lemma_one_segment(text: Seq<char>, separator: char)
    requires
        !text.contains(separator),
    ensures
        segments(text, separator) == seq![text],
    decreases text.len(),
{
    if text.len() > 0 {
        let front = text.drop_last();
        assert forall|c: char| front.contains(c) implies text.contains(c) by {
            let i = choose|i: int| 0 <= i < front.len() && front[i] == c;
            assert(text[i] == c);
        }
        lemma_one_segment(front, separator);
        assert(text.contains(text.last()));
        assert(front.push(text.last()) =~= text);
        assert(segments(text, separator) =~= seq![text]);
    } else {
        assert(text =~= Seq::<char>::empty());
        assert(segments(text, separator) =~= seq![text]);
    }
}

/// More text changes no piece but the last, and it ends no piece where it holds no separator.
pub proof fn lemma_more_segments(text: Seq<char>, more: Seq<char>, separator: char)
    ensures
        1 <= segments(text, separator).len() <= segments(text + more, separator).len(),
        forall|k: int|
            0 <= k < segments(text, separator).len() - 1 ==> #[trigger] segments(
                text + more,
                separator,
            )[k] == segments(text, separator)[k],
        !more.contains(separator) ==> segments(text + more, separator) == segments(
            text,
            separator,
        ).drop_last().push(segments(text, separator).last() + more),
    decreases more.len(),
{
    lemma_some_segment(text, separator);
    let base = segments(text, separator);
    if more.len() == 0 {
        assert(text + more =~= text);
        assert(base.last() + more =~= base.last());
        assert(base =~= base.drop_last().push(base.last()));
    } else {
        let front = more.drop_last();
        lemma_more_segments(text, front, separator);
        assert((text + more).drop_last() =~= text + front);
        let before = segments(text + front, separator);
        let after = segments(text + more, separator);
        assert(more.contains(more.last()));
        assert forall|k: int| 0 <= k < base.len() - 1 implies #[trigger] after[k] == base[k] by {
            assert(after[k] == before[k]);
        }
        if !more.contains(separator) {
            assert forall|c: char| front.contains(c) implies more.contains(c) by {
                let i = choose|i: int| 0 <= i < front.len() && front[i] == c;
                assert(more[i] == c);
            }
            assert((base.last() + front).push(more.last()) =~= base.last() + more);
            assert(after =~= base.drop_last().push(base.last() + more));
        }
    }
}

proof fn lemma_some_segment(text: Seq<char>, separator: char)
    ensures
        segments(text, separator).len() >= 1,
    decreases text.len(),
{
    if text.len() > 0 {
        lemma_some_segment(text.drop_last(), separator);
    }
}

/// The bytes of two texts in a row are the bytes of both.
pub proof fn lemma_byte_len_add(a: Seq<char>, b: Seq<char>)
    ensures
        byte_len(a + b) == byte_len(a) + byte_len(b),
    decreases a.len(),
{
    if a.len() == 0 {
        assert(a + b =~= b);
    } else {
        assert((a + b).drop_first() =~= a.drop_first() + b);
        lemma_byte_len_add(a.drop_first(), b);
    }
}

} // verus!
