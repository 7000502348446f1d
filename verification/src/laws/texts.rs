//! What the readings and writings of text have to do with one another.
use crate::base64;
use crate::identity;
use crate::process;
use crate::process::Process;
use crate::text;
use vstd::prelude::*;
use vstd::utf8::*;

verus! {

/// A text holds a part exactly where it is something, the part and something.
pub proof fn parts_stand_in_their_texts(whole: Seq<char>, part: Seq<char>)
    ensures
        text::contains_text(whole, part) <==> exists|before: Seq<char>, after: Seq<char>|
            #![trigger before + part + after]
            whole == before + part + after,
{
    if text::contains_text(whole, part) {
        let at = choose|at: int| text::occurs_at(whole, part, at);
        let before = whole.take(at);
        let after = whole.skip(at + part.len());
        assert(whole =~= before + whole.subrange(at, at + part.len()) + after);
        assert(whole == before + part + after);
    }
    if exists|before: Seq<char>, after: Seq<char>|
        #![trigger before + part + after]
        whole == before + part + after {
        let (before, after) = choose|before: Seq<char>, after: Seq<char>|
            #![trigger before + part + after]
            whole == before + part + after;
        let at = before.len() as int;
        assert(whole.subrange(at, at + part.len()) =~= part);
        assert(text::occurs_at(whole, part, at));
    }
}

/// Lower case changes the letters from A to Z, each to the one 32 places on, and nothing else.
pub proof fn lower_case_is_letter_by_letter(whole: Seq<char>, i: int)
    requires
        0 <= i < whole.len(),
    ensures
        text::ascii_lower(whole).len() == whole.len(),
        'A' <= whole[i] <= 'Z' ==> text::ascii_lower(whole)[i] as int == whole[i] as int + 32,
        !('A' <= whole[i] <= 'Z') ==> text::ascii_lower(whole)[i] == whole[i],
{
    assert(text::ascii_lower(whole)[i] == text::lower_char(whole[i]));
}

/// A text takes as many bytes as its UTF-8 form has.
pub proof fn bytes_are_those_of_utf8(whole: Seq<char>)
    ensures
        text::byte_len(whole) == encode_utf8(whole).len(),
{
}

/// The pieces with a separator between them.
pub open spec fn joined(pieces: Seq<Seq<char>>, separator: char) -> Seq<char>
    decreases pieces.len(),
{
    if pieces.len() == 0 {
        Seq::empty()
    } else if pieces.len() == 1 {
        pieces[0]
    } else {
        joined(pieces.drop_last(), separator) + seq![separator] + pieces.last()
    }
}

/// The pieces of a text, with the separator between them, are the text, and no piece holds the
/// separator.
pub proof fn pieces_make_up_the_text(whole: Seq<char>, separator: char)
    ensures
        text::segments(whole, separator).len() >= 1,
        joined(text::segments(whole, separator), separator) == whole,
        forall|k: int|
            0 <= k < text::segments(whole, separator).len() ==> !(#[trigger] text::segments(
                whole,
                separator,
            )[k]).contains(separator),
    decreases whole.len(),
{
    let pieces = text::segments(whole, separator);
    if whole.len() == 0 {
        assert(pieces[0] =~= whole);
    } else {
        let front = whole.drop_last();
        let earlier = text::segments(front, separator);
        pieces_make_up_the_text(front, separator);
        assert(front.push(whole.last()) =~= whole);
        if whole.last() == separator {
            assert(pieces.drop_last() =~= earlier);
            assert(joined(pieces, separator) =~= front + seq![separator] + Seq::<char>::empty());
            assert(joined(pieces, separator) =~= whole);
        } else {
            let grown = earlier.last().push(whole.last());
            assert(!earlier[earlier.len() - 1].contains(separator));
            assert(!grown.contains(separator)) by {
                assert forall|i: int| 0 <= i < grown.len() implies grown[i] != separator by {
                    if i < earlier.last().len() {
                        assert(earlier.last().contains(earlier.last()[i]));
                    }
                }
            }
            assert forall|k: int| 0 <= k < pieces.len() implies !(#[trigger] pieces[k]).contains(
                separator,
            ) by {
                if k < pieces.len() - 1 {
                    assert(pieces[k] == earlier[k]);
                }
            }
            if earlier.len() == 1 {
                assert(pieces[0] =~= whole);
            } else {
                assert(pieces.drop_last() =~= earlier.drop_last());
                assert(joined(pieces, separator) =~= joined(earlier, separator).push(whole.last()));
            }
        }
    }
}

/// The number that decimal digits write down, the most significant first.
pub open spec fn number(digits: Seq<char>) -> int
    decreases digits.len(),
{
    if digits.len() == 0 {
        0
    } else {
        number(digits.drop_last()) * 10 + (digits.last() as int - 48)
    }
}

/// A natural number is written in decimal digits that read back as the number, without a zero that
/// could be left out.
pub proof fn digits_write_the_number(n: nat)
    ensures
        number(text::digits(n)) == n,
        text::digits(n).len() >= 1,
        forall|i: int| 0 <= i < text::digits(n).len() ==> '0' <= #[trigger] text::digits(n)[i] <= '9',
        text::digits(n)[0] == '0' ==> n == 0,
    decreases n,
{
    let written = text::digits(n);
    if n < 10 {
        let d = text::digit_char(n as int);
        assert(written =~= seq![d]);
        assert(d as int == 48 + n);
        assert(written.drop_last() =~= Seq::<char>::empty());
        assert(number(Seq::<char>::empty()) == 0);
    } else {
        digits_write_the_number(n / 10);
        let d = text::digit_char((n % 10) as int);
        assert(d as int == 48 + n % 10);
        assert(written.drop_last() =~= text::digits(n / 10));
        assert(written.last() == d);
        assert(written[0] == text::digits(n / 10)[0]);
        assert forall|i: int| 0 <= i < written.len() implies '0' <= #[trigger] written[i] <= '9' by {
            if i < written.len() - 1 {
                assert(written[i] == text::digits(n / 10)[i]);
            }
        }
    }
}

/// A number is written in digits, with a sign before them where it is negative.
pub proof fn signs_mark_negative_numbers(n: int)
    ensures
        n >= 0 ==> text::decimal(n) == text::digits(n as nat),
        n < 0 ==> text::decimal(n) == seq!['-'] + text::digits((-n) as nat),
{
    reveal_strlit("-");
    assert("-"@ =~= seq!['-']);
}

/// A text that is there keeps its characters.
pub proof fn optional_texts_keep_their_characters(whole: String, borrowed: &str)
    ensures
        text::opt_view(Some(whole)) == Some(whole@),
        text::opt_view(None) is None,
        text::opt_str_view(Some(borrowed)) == Some(borrowed@),
        text::opt_str_view(None) is None,
{
}

/// The digits of the URL-safe alphabet go through the capital letters, the small letters, the
/// decimal digits, the hyphen and the underscore. No other character is a digit.
pub proof fn the_alphabet_is_url_safe(c: char, v: u8)
    ensures
        base64::sextet(c) == Some(v) ==> v < 64,
        'A' <= c <= 'Z' ==> base64::sextet(c) == Some((c as int - 65) as u8),
        'a' <= c <= 'z' ==> base64::sextet(c) == Some((c as int - 97 + 26) as u8),
        '0' <= c <= '9' ==> base64::sextet(c) == Some((c as int - 48 + 52) as u8),
        base64::sextet('-') == Some(62u8),
        base64::sextet('_') == Some(63u8),
        base64::sextet('+') is None,
        base64::sextet('/') is None,
        !('A' <= c <= 'Z') && !('a' <= c <= 'z') && !('0' <= c <= '9') && c != '-' && c != '_'
            ==> base64::sextet(c) is None,
{
}

/// Different characters are different digits.
pub proof fn digits_are_told_apart(c: char, d: char)
    requires
        base64::sextet(c) is Some,
        base64::sextet(c) == base64::sextet(d),
    ensures
        c == d,
{
}

proof fn lemma_unpadded(whole: Seq<char>, from: int, end: int)
    requires
        0 <= from <= end <= whole.len(),
        forall|i: int| from <= i < end ==> whole[i] != '=',
        end < whole.len() ==> whole[end] == '=',
    ensures
        base64::unpadded(whole, from) == end,
    decreases end - from,
{
    if from < end {
        lemma_unpadded(whole, from + 1, end);
    }
}

/// What follows an equals sign does not matter.
pub proof fn padding_ends_the_text(symbols: Seq<char>, rest: Seq<char>)
    requires
        !symbols.contains('='),
    ensures
        base64::decoded(symbols + seq!['='] + rest) == base64::decoded(symbols),
{
    let n = symbols.len() as int;
    let padded = symbols + seq!['='] + rest;
    assert forall|i: int| 0 <= i < n implies symbols[i] != '=' by {
        assert(symbols.contains(symbols[i]));
    }
    lemma_unpadded(symbols, 0, n);
    lemma_unpadded(padded, 0, n);
    assert(symbols.take(n) =~= symbols);
    assert(padded.take(n) =~= symbols);
}

/// A text is decoded exactly where it holds digits alone. Four of them are three bytes: the 24 bits
/// of the four, most significant first, are those of the three. Two or three that are left over are
/// one or two bytes, and one is none.
pub proof fn four_digits_are_three_bytes(symbols: Seq<char>, values: Seq<u8>)
    requires
        !symbols.contains('='),
        values.len() == symbols.len(),
        forall|i: int|
            0 <= i < symbols.len() ==> base64::sextet(#[trigger] symbols[i]) == Some(values[i]),
    ensures
        base64::decoded(symbols) matches Some(bytes) && {
            let q = symbols.len() as int / 4;
            &&& symbols.len() % 4 <= 1 ==> bytes.len() == 3 * q
            &&& symbols.len() % 4 == 2 ==> bytes.len() == 3 * q + 1
            &&& symbols.len() % 4 == 3 ==> bytes.len() == 3 * q + 2
            &&& forall|g: int|
                0 <= g < q ==> bytes[3 * g] * 65536 + bytes[3 * g + 1] * 256 + bytes[3 * g + 2]
                    == values[4 * g] * 262144 + values[4 * g + 1] * 4096 + values[4 * g + 2] * 64
                    + #[trigger] values[4 * g + 3]
            &&& symbols.len() % 4 >= 2 ==> bytes[3 * q] == values[4 * q] * 4 + values[4 * q + 1] / 16
            &&& symbols.len() % 4 == 3 ==> bytes[3 * q + 1] == (values[4 * q + 1] % 16) * 16
                + values[4 * q + 2] / 4
        },
{
    let n = symbols.len() as int;
    let q = n / 4;
    assert forall|i: int| 0 <= i < n implies symbols[i] != '=' by {
        assert(symbols.contains(symbols[i]));
    }
    lemma_unpadded(symbols, 0, n);
    assert(symbols.take(n) =~= symbols);
    assert(base64::sextets(symbols) =~= values) by {
        assert forall|i: int| 0 <= i < n implies base64::sextets(symbols)[i] == values[i] by {
            assert(base64::sextet(symbols[i]) == Some(values[i]));
        }
    }
    assert forall|i: int| 0 <= i < n implies #[trigger] values[i] < 64 by {
        assert(base64::sextet(symbols[i]) == Some(values[i]));
    }
    let bytes = base64::sextet_bytes(values);
    assert(base64::decoded(symbols) == Some(bytes));
    assert(n == 4 * q + n % 4);
    assert(n * 3 / 4 == 3 * q + (n % 4) * 3 / 4);
    assert forall|g: int| 0 <= g < q implies bytes[3 * g] * 65536 + bytes[3 * g + 1] * 256 + bytes[3
        * g + 2] == values[4 * g] * 262144 + values[4 * g + 1] * 4096 + values[4 * g + 2] * 64
        + #[trigger] values[4 * g + 3] by {
        let k = 3 * g;
        assert(k / 3 == g && k % 3 == 0);
        assert((k + 1) / 3 == g && (k + 1) % 3 == 1);
        assert((k + 2) / 3 == g && (k + 2) % 3 == 2);
        assert(bytes[k] == base64::byte_at(values, k));
        assert(bytes[k + 1] == base64::byte_at(values, k + 1));
        assert(bytes[k + 2] == base64::byte_at(values, k + 2));
        assert(values[4 * g] < 64 && values[4 * g + 1] < 64 && values[4 * g + 2] < 64 && values[4
            * g + 3] < 64);
    }
    if n % 4 >= 2 {
        let k = 3 * q;
        assert(k / 3 == q && k % 3 == 0);
        assert(bytes[k] == base64::byte_at(values, k));
        assert(values[4 * q] < 64 && values[4 * q + 1] < 64);
    }
    if n % 4 == 3 {
        let k = 3 * q + 1;
        assert(k / 3 == q && k % 3 == 1);
        assert(bytes[k] == base64::byte_at(values, k));
        assert(values[4 * q + 1] < 64 && values[4 * q + 2] < 64);
    }
}

/// A text that holds any other character before its padding is not decoded.
pub proof fn other_characters_are_not_decoded(whole: Seq<char>, i: int)
    requires
        0 <= i < whole.len(),
        base64::sextet(whole[i]) is None,
        forall|j: int| 0 <= j <= i ==> whole[j] != '=',
    ensures
        base64::decoded(whole) is None,
{
    let end = base64::unpadded(whole, 0);
    lemma_unpadded_beyond(whole, 0, i);
    let symbols = whole.take(end);
    assert(symbols[i] == whole[i]);
}

proof fn lemma_unpadded_beyond(whole: Seq<char>, from: int, i: int)
    requires
        0 <= from <= i + 1,
        i < whole.len(),
        forall|j: int| from <= j <= i ==> whole[j] != '=',
    ensures
        i < base64::unpadded(whole, from) <= whole.len(),
    decreases whole.len() - from,
{
    if from < whole.len() && whole[from] != '=' {
        if from <= i {
            lemma_unpadded_beyond(whole, from + 1, i);
        } else {
            lemma_unpadded_from(whole, from);
        }
    }
}

proof fn lemma_unpadded_from(whole: Seq<char>, from: int)
    requires
        0 <= from <= whole.len(),
    ensures
        from <= base64::unpadded(whole, from) <= whole.len(),
    decreases whole.len() - from,
{
    if from < whole.len() && whole[from] != '=' {
        lemma_unpadded_from(whole, from + 1);
    }
}

/// What follows the last occurrence of a mark is all that stands behind it. Without the mark there is
/// nothing to follow.
pub proof fn the_last_mark_is_found(front: Seq<char>, mark: char, rest: Seq<char>)
    requires
        !rest.contains(mark),
    ensures
        process::after_last(front + seq![mark] + rest, mark) == Some(rest),
        process::after_last(rest, mark) is None,
    decreases rest.len(),
{
    let whole = front + seq![mark] + rest;
    if rest.len() == 0 {
        assert(whole.last() == mark);
        assert(rest =~= Seq::<char>::empty());
    } else {
        let less = rest.drop_last();
        assert(rest.contains(rest.last()));
        assert forall|c: char| less.contains(c) implies rest.contains(c) by {
            let i = choose|i: int| 0 <= i < less.len() && less[i] == c;
            assert(rest[i] == c);
        }
        the_last_mark_is_found(front, mark, less);
        assert(whole.drop_last() =~= front + seq![mark] + less);
        assert(whole.last() == rest.last());
        assert(less.push(rest.last()) =~= rest);
    }
}

/// Blanks, tabs and line ends separate words, and so do the other blanks of Unicode. No visible ASCII
/// character does.
pub proof fn blanks_separate_words(c: char)
    ensures
        process::is_space(c) <==> {
            let n = c as int;
            ||| 9 <= n <= 13
            ||| n == 32
            ||| n == 0x85
            ||| n == 0xa0
            ||| n == 0x1680
            ||| 0x2000 <= n <= 0x200a
            ||| n == 0x2028
            ||| n == 0x2029
            ||| n == 0x202f
            ||| n == 0x205f
            ||| n == 0x3000
        },
{
}

/// A text without blanks is one word, unless it is empty.
pub proof fn a_text_without_blanks_is_one_word(word: Seq<char>)
    requires
        forall|i: int| 0 <= i < word.len() ==> !process::is_space(#[trigger] word[i]),
    ensures
        word.len() > 0 ==> process::words(word) == seq![word],
        word.len() == 0 ==> process::words(word).len() == 0,
    decreases word.len(),
{
    if word.len() > 0 {
        let front = word.drop_last();
        assert forall|i: int| 0 <= i < front.len() implies !process::is_space(#[trigger] front[i]) by {
            assert(front[i] == word[i]);
        }
        a_text_without_blanks_is_one_word(front);
        assert(!process::is_space(word[word.len() - 1]));
        if front.len() == 0 {
            assert(word =~= seq![word.last()]);
            assert(process::words(word) =~= seq![word]);
        } else {
            assert(!process::is_space(front[front.len() - 1]));
            assert(front.push(word.last()) =~= word);
            assert(process::words(word) =~= seq![word]);
        }
    }
}

/// The words of two texts with a blank between them are the words of the one and those of the other.
pub proof fn words_are_taken_in_order(a: Seq<char>, blank: char, b: Seq<char>)
    requires
        process::is_space(blank),
    ensures
        process::words(a + seq![blank] + b) == process::words(a) + process::words(b),
    decreases b.len(),
{
    let opened = a + seq![blank];
    let whole = opened + b;
    if b.len() == 0 {
        assert(whole =~= opened);
        assert(opened.drop_last() =~= a);
        assert(process::words(a) + process::words(b) =~= process::words(a));
    } else {
        let front = b.drop_last();
        words_are_taken_in_order(a, blank, front);
        assert(whole.drop_last() =~= opened + front);
        assert(whole.last() == b.last());
        if front.len() == 0 {
            assert(opened + front =~= opened);
            assert(opened.last() == blank);
        } else {
            assert((opened + front).last() == front.last());
        }
        if !process::is_space(b.last()) && front.len() > 0 && !process::is_space(front.last()) {
            lemma_some_word(front);
        }
        assert(process::words(whole) =~= process::words(a) + process::words(b));
    }
}

proof fn lemma_some_word(front: Seq<char>)
    requires
        front.len() > 0,
        !process::is_space(front.last()),
    ensures
        process::words(front).len() > 0,
    decreases front.len(),
{
}

proof fn lemma_same_number(digits: Seq<char>)
    requires
        forall|i: int| 0 <= i < digits.len() ==> '0' <= #[trigger] digits[i] <= '9',
    ensures
        process::digits_value(digits) == number(digits),
        number(digits) >= 0,
    decreases digits.len(),
{
    if digits.len() > 0 {
        let front = digits.drop_last();
        assert forall|i: int| 0 <= i < front.len() implies '0' <= #[trigger] front[i] <= '9' by {
            assert(front[i] == digits[i]);
        }
        lemma_same_number(front);
        assert('0' <= digits[digits.len() - 1] <= '9');
    }
}

/// A process id is read from decimal digits, with or without a plus sign before them, where it is not
/// too large.
pub proof fn ids_are_read_from_digits(digits: Seq<char>)
    requires
        digits.len() > 0,
        forall|i: int| 0 <= i < digits.len() ==> '0' <= #[trigger] digits[i] <= '9',
    ensures
        number(digits) <= u32::MAX ==> process::pid_of(digits) == Some(number(digits) as u32)
            && process::pid_of(seq!['+'] + digits) == Some(number(digits) as u32),
        number(digits) > u32::MAX ==> process::pid_of(digits) is None && process::pid_of(
            seq!['+'] + digits,
        ) is None,
{
    lemma_same_number(digits);
    assert('0' <= digits[0]);
    assert((seq!['+'] + digits).drop_first() =~= digits);
    assert forall|i: int| 0 <= i < digits.len() implies process::is_digit(#[trigger] digits[i]) by {}
}

/// Nothing else is a process id.
pub proof fn other_texts_are_no_ids(word: Seq<char>, i: int)
    ensures
        process::pid_of(Seq::<char>::empty()) is None,
        process::pid_of(seq!['+']) is None,
        0 < i < word.len() && !('0' <= word[i] <= '9') ==> process::pid_of(word) is None,
        word.len() > 0 && word[0] != '+' && !('0' <= word[0] <= '9') ==> process::pid_of(word) is None,
{
    assert(seq!['+'].drop_first() =~= Seq::<char>::empty());
    if 0 < i < word.len() && !('0' <= word[i] <= '9') {
        if word[0] == '+' {
            assert(process::unsigned(word)[i - 1] == word[i]);
        } else {
            assert(process::unsigned(word)[i] == word[i]);
        }
    }
    if word.len() > 0 && word[0] != '+' && !('0' <= word[0] <= '9') {
        assert(process::unsigned(word)[0] == word[0]);
    }
}

/// A process id that is written in digits is read back.
pub proof fn ids_are_read_back(pid: u32)
    ensures
        process::pid_of(text::digits(pid as nat)) == Some(pid),
{
    digits_write_the_number(pid as nat);
    ids_are_read_from_digits(text::digits(pid as nat));
}

proof fn lemma_digits_are_words(digits: Seq<char>)
    requires
        digits.len() > 0,
        forall|i: int| 0 <= i < digits.len() ==> '0' <= #[trigger] digits[i] <= '9',
    ensures
        process::words(digits) == seq![digits],
        !digits.contains(')'),
{
    assert forall|i: int| 0 <= i < digits.len() implies !process::is_space(#[trigger] digits[i]) by {
        assert('0' <= digits[i] <= '9');
    }
    a_text_without_blanks_is_one_word(digits);
}

/// The parent in the status line of a process is the number after its state, whatever its name is:
/// brackets and blanks in the name do not matter, nor does what follows.
pub proof fn parents_are_read_from_status_lines(
    front: Seq<char>,
    state: char,
    parent: u32,
    rest: Seq<char>,
)
    requires
        !process::is_space(state),
        state != ')',
        !rest.contains(')'),
    ensures
        process::parent_of(
            front + seq![')'] + (seq![' ', state, ' '] + text::digits(parent as nat) + seq![' ']
                + rest),
        ) == Some(parent),
{
    let digits = text::digits(parent as nat);
    let none = Seq::<char>::empty();
    digits_write_the_number(parent as nat);
    lemma_digits_are_words(digits);
    ids_are_read_back(parent);
    let opened = seq![' ', state, ' '] + digits;
    let tail = opened + seq![' '] + rest;
    assert(!tail.contains(')')) by {
        assert forall|i: int| 0 <= i < tail.len() implies tail[i] != ')' by {
            if 3 <= i < 3 + digits.len() {
                assert(digits.contains(digits[i - 3]));
                assert(tail[i] == digits[i - 3]);
            } else if i > 3 + digits.len() {
                assert(tail[i] == rest[i - 4 - digits.len()]);
                assert(rest.contains(rest[i - 4 - digits.len()]));
            }
        }
    }
    the_last_mark_is_found(front, ')', tail);
    a_text_without_blanks_is_one_word(seq![state]);
    a_text_without_blanks_is_one_word(none);
    words_are_taken_in_order(none, ' ', seq![state]);
    words_are_taken_in_order(none + seq![' '] + seq![state], ' ', digits);
    assert(none + seq![' '] + seq![state] + seq![' '] + digits =~= opened);
    words_are_taken_in_order(opened, ' ', rest);
    assert(process::words(tail)[0] == seq![state]);
    assert(process::words(tail)[1] == digits);
}

/// A status line that ends after the state names no parent.
pub proof fn lines_that_break_off_have_no_parent(front: Seq<char>, state: Seq<char>)
    requires
        !state.contains(')'),
        process::words(state).len() <= 1,
    ensures
        process::parent_of(front + seq![')'] + state) is None,
{
    the_last_mark_is_found(front, ')', state);
}

/// A status line without a closing bracket names no parent.
pub proof fn lines_without_a_name_have_no_parent(line: Seq<char>)
    requires
        !line.contains(')'),
    ensures
        process::parent_of(line) is None,
{
    the_last_mark_is_found(Seq::empty(), ')', line);
}

/// A process is the child of another exactly where the snapshot says so.
pub proof fn children_name_their_parent(processes: Seq<Process>, child: u32, parent: u32)
    ensures
        process::is_child(processes, child, parent) <==> exists|i: int|
            0 <= i < processes.len() && (#[trigger] processes[i]).pid == child && processes[i].parent
                == parent,
{
    if process::is_child(processes, child, parent) {
        let i = choose|i: int|
            0 <= i < processes.len() && processes[i] == (Process { pid: child, parent });
        assert(processes[i].pid == child && processes[i].parent == parent);
    }
    if exists|i: int|
        0 <= i < processes.len() && (#[trigger] processes[i]).pid == child && processes[i].parent
            == parent {
        let i = choose|i: int|
            0 <= i < processes.len() && (#[trigger] processes[i]).pid == child
                && processes[i].parent == parent;
        assert(processes[i] == (Process { pid: child, parent }));
    }
}

/// A process descends from itself, from whatever its parent descends from, and from nothing else.
pub proof fn descent_goes_through_parents(processes: Seq<Process>, root: u32, pid: u32)
    ensures
        process::descends(processes, root, pid) <==> pid == root || exists|parent: u32|
            process::descends(processes, root, parent) && #[trigger] process::is_child(
                processes,
                pid,
                parent,
            ),
{
    if process::descends(processes, root, pid) && pid != root {
        let line = choose|line: Seq<u32>| #[trigger]
            process::is_lineage(processes, root, line) && line.last() == pid;
        let front = line.drop_last();
        assert(front.len() > 0);
        assert forall|i: int| 0 < i < front.len() implies process::is_child(
            processes,
            #[trigger] front[i],
            front[i - 1],
        ) by {
            assert(process::is_child(processes, line[i], line[i - 1]));
        }
        assert(process::is_lineage(processes, root, front));
        assert(process::descends(processes, root, front.last()));
        assert(process::is_child(processes, line[line.len() - 1], line[line.len() - 2]));
    }
    if pid == root {
        assert(process::is_lineage(processes, root, seq![root]));
        assert(seq![root].last() == pid);
    }
    if exists|parent: u32|
        process::descends(processes, root, parent) && #[trigger] process::is_child(
            processes,
            pid,
            parent,
        ) {
        let parent = choose|parent: u32|
            process::descends(processes, root, parent) && #[trigger] process::is_child(
                processes,
                pid,
                parent,
            );
        let line = choose|line: Seq<u32>| #[trigger]
            process::is_lineage(processes, root, line) && line.last() == parent;
        let longer = line.push(pid);
        assert(process::is_lineage(processes, root, longer));
        assert(longer.last() == pid);
    }
}

/// The children of a process are found in the order of the snapshot, one by one.
pub proof fn children_keep_the_order(
    processes: Seq<Process>,
    next: Process,
    root: u32,
    parent: u32,
)
    ensures
        process::children(Seq::empty(), root, parent).len() == 0,
        next.parent == parent && next.pid != root ==> process::children(
            processes.push(next),
            root,
            parent,
        ) == process::children(processes, root, parent) + seq![next.pid],
        next.parent != parent || next.pid == root ==> process::children(
            processes.push(next),
            root,
            parent,
        ) == process::children(processes, root, parent),
{
    assert(processes.push(next).drop_last() =~= processes);
}

/// A snapshot names no process twice.
pub proof fn snapshots_name_no_process_twice(processes: Seq<Process>)
    ensures
        process::is_snapshot(processes) <==> forall|i: int, j: int|
            0 <= i < processes.len() && 0 <= j < processes.len() && i != j ==> (
            #[trigger] processes[i]).pid != (#[trigger] processes[j]).pid,
{
}

/// The root is the last to be killed, where it is.
pub proof fn the_root_is_killed_last(list: Seq<u32>)
    ensures
        process::with_or_without_last(list, true) == list,
        process::with_or_without_last(list, false) == list.drop_last(),
{
}

/// A process comes right after all that is below it.
pub proof fn processes_follow_what_is_below_them(
    processes: Seq<Process>,
    root: u32,
    pids: Seq<u32>,
    pid: u32,
    height: nat,
)
    requires
        height > 0,
    ensures
        process::leaves_first(processes, root, pids.push(pid), height) == process::leaves_first(
            processes,
            root,
            pids,
            height,
        ) + process::leaves_first(
            processes,
            root,
            process::children(processes, root, pid),
            (height - 1) as nat,
        ) + seq![pid],
        process::leaves_first(processes, root, Seq::empty(), height).len() == 0,
{
    assert(pids.push(pid).drop_last() =~= pids);
    assert(process::leaves_first(processes, root, pids.push(pid), height) =~= process::leaves_first(
        processes,
        root,
        pids,
        height,
    ) + process::leaves_first(
        processes,
        root,
        process::children(processes, root, pid),
        (height - 1) as nat,
    ) + seq![pid]);
}

/// A name is its prefix and 32 digits of a random UUID of version four, in lower case.
pub proof fn names_are_prefixes_and_digits(name: Seq<char>, prefix: Seq<char>)
    requires
        identity::is_name(name, prefix),
    ensures
        exists|digits: Seq<char>| name == #[trigger] (prefix + digits) && is_uuid(digits),
{
    let digits = name.skip(prefix.len() as int);
    assert(name =~= prefix + digits);
    uuids_are_lower_case_digits(digits);
}

/// The 32 digits of a random UUID of version four and of the common variant, in lower case.
pub open spec fn is_uuid(digits: Seq<char>) -> bool {
    &&& digits.len() == 32
    &&& forall|i: int|
        0 <= i < 32 ==> '0' <= #[trigger] digits[i] <= '9' || 'a' <= digits[i] <= 'f'
    &&& digits[12] == '4'
    &&& digits[16] == '8' || digits[16] == '9' || digits[16] == 'a' || digits[16] == 'b'
}

/// A random UUID has 32 hexadecimal digits in lower case, of which two tell its version and its
/// variant.
pub proof fn uuids_are_lower_case_digits(digits: Seq<char>)
    ensures
        identity::is_random_uuid(digits) <==> is_uuid(digits),
{
    if identity::is_random_uuid(digits) {
        assert forall|i: int| 0 <= i < 32 implies '0' <= #[trigger] digits[i] <= '9' || 'a'
            <= digits[i] <= 'f' by {
            assert(identity::is_hex(digits[i]));
        }
    }
}

} // verus!
