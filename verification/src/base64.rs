//! Base64 in the alphabet that is safe in addresses.
use crate::text;
use vstd::prelude::*;

verus! {

/// The value of a symbol.
pub open spec fn sextet(symbol: char) -> Option<u8> {
    if 'A' <= symbol && symbol <= 'Z' {
        Some((symbol as int - 'A' as int) as u8)
    } else if 'a' <= symbol && symbol <= 'z' {
        Some((symbol as int - 'a' as int + 26) as u8)
    } else if '0' <= symbol && symbol <= '9' {
        Some((symbol as int - '0' as int + 52) as u8)
    } else if symbol == '-' {
        Some(62)
    } else if symbol == '_' {
        Some(63)
    } else {
        None
    }
}

/// The symbol of a value under 64.
pub open spec fn symbol(value: u8) -> char {
    if value < 26 {
        ('A' as int + value) as char
    } else if value < 52 {
        ('a' as int + value - 26) as char
    } else if value < 62 {
        ('0' as int + value - 52) as char
    } else if value == 62 {
        '-'
    } else {
        '_'
    }
}

/// How many characters of a text precede its padding, looking from `from` on.
pub open spec fn unpadded(text: Seq<char>, from: int) -> int
    decreases text.len() - from,
{
    if from < 0 || from >= text.len() {
        text.len() as int
    } else if text[from] == '=' {
        from
    } else {
        unpadded(text, from + 1)
    }
}

/// The values of a sequence of symbols.
pub open spec fn sextets(symbols: Seq<char>) -> Seq<u8> {
    symbols.map_values(|c: char| sextet(c)->Some_0)
}

/// The byte at `k` of what a sequence of six-bit values stands for: four of them stand for three
/// bytes, most significant bits first.
pub open spec fn byte_at(values: Seq<u8>, k: int) -> u8 {
    let group = 4 * (k / 3);
    if k % 3 == 0 {
        (values[group] * 4 + values[group + 1] / 16) as u8
    } else if k % 3 == 1 {
        ((values[group + 1] % 16) * 16 + values[group + 2] / 4) as u8
    } else {
        ((values[group + 2] % 4) * 64 + values[group + 3]) as u8
    }
}

/// The bytes that a sequence of six-bit values stands for. Bits that fill no byte are dropped.
pub open spec fn sextet_bytes(values: Seq<u8>) -> Seq<u8> {
    Seq::new((values.len() * 3 / 4) as nat, |k: int| byte_at(values, k))
}

/// The bytes that a text stands for; none where a character before its padding is no symbol.
pub open spec fn decoded(text: Seq<char>) -> Option<Seq<u8>> {
    let symbols = text.take(unpadded(text, 0));
    if forall|i: int| 0 <= i < symbols.len() ==> sextet(#[trigger] symbols[i]) is Some {
        Some(sextet_bytes(sextets(symbols)))
    } else {
        None
    }
}

/// A byte of a sequence, and zero beyond its end.
pub open spec fn byte_or_zero(bytes: Seq<u8>, i: int) -> u8 {
    if 0 <= i < bytes.len() {
        bytes[i]
    } else {
        0
    }
}

/// The six-bit value at `j` of what stands for a sequence of bytes.
pub open spec fn sextet_at(bytes: Seq<u8>, j: int) -> u8 {
    let group = 3 * (j / 4);
    if j % 4 == 0 {
        byte_or_zero(bytes, group) / 4
    } else if j % 4 == 1 {
        ((byte_or_zero(bytes, group) % 4) * 16 + byte_or_zero(bytes, group + 1) / 16) as u8
    } else if j % 4 == 2 {
        ((byte_or_zero(bytes, group + 1) % 16) * 4 + byte_or_zero(bytes, group + 2) / 64) as u8
    } else {
        byte_or_zero(bytes, group + 2) % 64
    }
}

/// The text without padding that stands for a sequence of bytes.
pub open spec fn encoded(bytes: Seq<u8>) -> Seq<char> {
    Seq::new(((bytes.len() * 4 + 2) / 3) as nat, |j: int| symbol(sextet_at(bytes, j)))
}

/// The value of a symbol.
fn sextet_of(symbol: char) -> (value: Option<u8>)
    ensures
        value == sextet(symbol),
        value matches Some(value) ==> value < 64,
{
    if 'A' <= symbol && symbol <= 'Z' {
        Some(symbol as u8 - 65u8)
    } else if 'a' <= symbol && symbol <= 'z' {
        Some(symbol as u8 - 97u8 + 26u8)
    } else if '0' <= symbol && symbol <= '9' {
        Some(symbol as u8 - 48u8 + 52u8)
    } else if symbol == '-' {
        Some(62u8)
    } else if symbol == '_' {
        Some(63u8)
    } else {
        None
    }
}

/// The bytes that `input` stands for; none where a character before its padding is no symbol.
/// Everything from the first padding character on is ignored.
pub fn decode_base64url(input: &str) -> (bytes: Option<Vec<u8>>)
    ensures
        match bytes {
            Some(bytes) => decoded(input@) == Some(bytes@),
            None => decoded(input@) is None,
        },
{
    let symbols: Vec<char> = text::chars_of(input);
    let mut out: Vec<u8> = Vec::new();
    // The bits of earlier values that have not reached `out` yet, and how many values of the
    // current group of four have been read.
    let mut held: u8 = 0;
    let mut phase: u8 = 0;
    let mut i: usize = 0;
    let ghost mut values: Seq<u8> = Seq::empty();
    while i < symbols.len() && symbols[i] != '='
        invariant
            symbols@ == input@,
            i <= symbols.len(),
            unpadded(input@, 0) == unpadded(input@, i as int),
            values.len() == i,
            forall|j: int| 0 <= j < i ==> sextet(#[trigger] symbols@[j]) == Some(values[j]),
            forall|j: int| 0 <= j < i ==> #[trigger] values[j] < 64,
            phase == i % 4,
            phase == 1 ==> held == values[i - 1],
            phase == 2 ==> held == values[i - 1] % 16,
            phase == 3 ==> held == values[i - 1] % 4,
            out@ == sextet_bytes(values),
        decreases symbols.len() - i,
    {
        let value: u8 = match sextet_of(symbols[i]) {
            Some(value) => value,
            None => {
                proof {
                    lemma_unpadded_bounds(input@, i as int);
                    lemma_unpadded_bounds(input@, i + 1);
                    let before = input@.take(unpadded(input@, 0));
                    assert(before[i as int] == symbols@[i as int]);
                }
                return None;
            },
        };
        let ghost earlier = values;
        proof {
            values = values.push(value);
            lemma_next_value(earlier, value);
        }
        if phase == 0 {
            held = value;
            phase = 1;
        } else if phase == 1 {
            out.push(held * 4 + value / 16);
            held = value % 16;
            phase = 2;
        } else if phase == 2 {
            out.push(held * 16 + value / 4);
            held = value % 4;
            phase = 3;
        } else {
            out.push(held * 64 + value);
            held = 0;
            phase = 0;
        }
        i = i + 1;
    }
    proof {
        let before = input@.take(unpadded(input@, 0));
        assert(before =~= input@.take(i as int));
        assert(sextets(before) =~= values);
    }
    Some(out)
}

proof fn lemma_unpadded_bounds(text: Seq<char>, from: int)
    requires
        0 <= from <= text.len(),
    ensures
        from <= unpadded(text, from) <= text.len(),
    decreases text.len() - from,
{
    if from < text.len() && text[from] != '=' {
        lemma_unpadded_bounds(text, from + 1);
    }
}

/// What one more value adds to the bytes.
proof fn lemma_next_value(values: Seq<u8>, value: u8)
    requires
        value < 64,
        forall|j: int| 0 <= j < values.len() ==> #[trigger] values[j] < 64,
    ensures
        ({
            let n = values.len() as int;
            let old = sextet_bytes(values);
            let new = sextet_bytes(values.push(value));
            &&& n % 4 == 0 ==> new == old
            &&& n % 4 == 1 ==> new == old.push((values[n - 1] * 4 + value / 16) as u8)
            &&& n % 4 == 2 ==> new == old.push(((values[n - 1] % 16) * 16 + value / 4) as u8)
            &&& n % 4 == 3 ==> new == old.push(((values[n - 1] % 4) * 64 + value) as u8)
        }),
{
    let n = values.len() as int;
    let more = values.push(value);
    let old = sextet_bytes(values);
    let new = sextet_bytes(more);
    let q = n / 4;
    assert(n == 4 * q + n % 4);
    let m = n * 3 / 4;
    assert(n % 4 == 0 ==> m == 3 * q && (n + 1) * 3 / 4 == 3 * q);
    assert(n % 4 == 1 ==> m == 3 * q && (n + 1) * 3 / 4 == 3 * q + 1);
    assert(n % 4 == 2 ==> m == 3 * q + 1 && (n + 1) * 3 / 4 == 3 * q + 2);
    assert(n % 4 == 3 ==> m == 3 * q + 2 && (n + 1) * 3 / 4 == 3 * q + 3);
    assert forall|k: int| 0 <= k < old.len() implies old[k] == new[k] by {
        let g = 4 * (k / 3);
        assert(k % 3 == 0 ==> g + 1 < n);
        assert(k % 3 == 1 ==> g + 2 < n);
        assert(k % 3 == 2 ==> g + 3 < n);
        assert(byte_at(values, k) == byte_at(more, k));
    }
    if n % 4 == 0 {
        assert(new =~= old);
    } else {
        assert(m / 3 == q && m % 3 == n % 4 - 1);
        assert(new =~= old.push(byte_at(more, m)));
    }
}

proof fn lemma_symbol(value: u8)
    requires
        value < 64,
    ensures
        sextet(symbol(value)) == Some(value),
        symbol(value) != '=',
{
}

proof fn lemma_unpadded_at(text: Seq<char>, from: int, end: int)
    requires
        0 <= from <= end <= text.len(),
        forall|i: int| from <= i < end ==> text[i] != '=',
        end < text.len() ==> text[end] == '=',
    ensures
        unpadded(text, from) == end,
    decreases end - from,
{
    if from < end {
        lemma_unpadded_at(text, from + 1, end);
    }
}

/// A byte that was taken apart is put together again.
proof fn lemma_byte_back(bytes: Seq<u8>, values: Seq<u8>, k: int)
    requires
        0 <= k < bytes.len(),
        values == Seq::new(((bytes.len() * 4 + 2) / 3) as nat, |j: int| sextet_at(bytes, j)),
    ensures
        byte_at(values, k) == bytes[k],
{
    let n = values.len() as int;
    let g = 4 * (k / 3);
    let h = 3 * (k / 3);
    assert(k == h + k % 3);
    assert(g / 4 == k / 3 && g % 4 == 0);
    if k % 3 == 0 {
        assert((g + 1) / 4 == k / 3 && (g + 1) % 4 == 1);
        assert(g + 1 < n);
        assert(values[g] == byte_or_zero(bytes, h) / 4);
        assert(values[g + 1] == (byte_or_zero(bytes, h) % 4) * 16 + byte_or_zero(bytes, h + 1) / 16);
    } else if k % 3 == 1 {
        assert((g + 1) / 4 == k / 3 && (g + 1) % 4 == 1);
        assert((g + 2) / 4 == k / 3 && (g + 2) % 4 == 2);
        assert(g + 2 < n);
        assert(values[g + 1] == (byte_or_zero(bytes, h) % 4) * 16 + byte_or_zero(bytes, h + 1) / 16);
        assert(values[g + 2] == (byte_or_zero(bytes, h + 1) % 16) * 4 + byte_or_zero(bytes, h + 2) / 64);
    } else {
        assert((g + 2) / 4 == k / 3 && (g + 2) % 4 == 2);
        assert((g + 3) / 4 == k / 3 && (g + 3) % 4 == 3);
        assert(g + 3 < n);
        assert(values[g + 2] == (byte_or_zero(bytes, h + 1) % 16) * 4 + byte_or_zero(bytes, h + 2) / 64);
        assert(values[g + 3] == byte_or_zero(bytes, h + 2) % 64);
    }
}

/// Decoding gives back what was encoded, whether the text was padded or not.
pub proof fn decoding_reverses_encoding(bytes: Seq<u8>, padding: Seq<char>)
    requires
        forall|i: int| 0 <= i < padding.len() ==> padding[i] == '=',
    ensures
        decoded(encoded(bytes) + padding) == Some(bytes),
{
    let plain = encoded(bytes);
    let text = plain + padding;
    let n = plain.len() as int;
    let m = bytes.len() as int;
    let values = Seq::new(plain.len(), |j: int| sextet_at(bytes, j));
    assert forall|j: int| 0 <= j < n implies text[j] != '=' && sextet(#[trigger] text[j]) == Some(
        values[j],
    ) by {
        lemma_symbol(sextet_at(bytes, j));
        assert(text[j] == plain[j]);
    }
    lemma_unpadded_at(text, 0, n);
    let symbols = text.take(unpadded(text, 0));
    assert(symbols =~= plain);
    assert forall|i: int| 0 <= i < symbols.len() implies sextet(#[trigger] symbols[i]) is Some by {
        assert(symbols[i] == text[i]);
    }
    assert(sextets(symbols) =~= values) by {
        assert forall|i: int| 0 <= i < n implies sextets(symbols)[i] == values[i] by {
            assert(symbols[i] == text[i]);
        }
    }
    let q = m / 3;
    assert(m == 3 * q + m % 3);
    assert(n == (m * 4 + 2) / 3);
    assert(m % 3 == 0 ==> n == 4 * q);
    assert(m % 3 == 1 ==> n == 4 * q + 2);
    assert(m % 3 == 2 ==> n == 4 * q + 3);
    assert(n * 3 / 4 == m);
    assert forall|k: int| 0 <= k < m implies byte_at(values, k) == #[trigger] bytes[k] by {
        lemma_byte_back(bytes, values, k);
    }
    assert(sextet_bytes(values) =~= bytes);
}

} // verus!
