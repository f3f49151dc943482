//! Base64 text, the form in which frames carry raw bytes.

use base64::Engine;
use vstd::prelude::*;

verus! {

/// The character that stands for a six-bit value in the standard alphabet.
pub open spec fn sextet_char(value: int) -> char {
    if value < 26 {
        ('A' as int + value) as char
    } else if value < 52 {
        ('a' as int + (value - 26)) as char
    } else if value < 62 {
        ('0' as int + (value - 52)) as char
    } else if value == 62 {
        '+'
    } else {
        '/'
    }
}

/// The byte at `index`, with zero bits beyond the end.
pub open spec fn byte_or_zero(bytes: Seq<u8>, index: int) -> int {
    if index < bytes.len() {
        bytes[index] as int
    } else {
        0
    }
}

/// The six bits that the text holds at `position`: every group of three bytes
/// is read as four sextets, most significant first.
pub open spec fn sextet_at(bytes: Seq<u8>, position: int) -> int {
    let first = 3 * (position / 4);
    let a = byte_or_zero(bytes, first);
    let b = byte_or_zero(bytes, first + 1);
    let c = byte_or_zero(bytes, first + 2);
    if position % 4 == 0 {
        a / 4
    } else if position % 4 == 1 {
        (a % 4) * 16 + b / 16
    } else if position % 4 == 2 {
        (b % 16) * 4 + c / 64
    } else {
        c % 64
    }
}

/// A position is padding when no bit of its sextet comes from the bytes.
pub open spec fn is_padding(bytes: Seq<u8>, position: int) -> bool {
    position % 4 >= 2 && 3 * (position / 4) + position % 4 - 1 >= bytes.len()
}

/// The length of the base64 text of `len` bytes.
pub open spec fn base64_len(len: nat) -> nat {
    4 * ((len + 2) / 3)
}

/// The character of the base64 text at `position`.
pub open spec fn base64_char(bytes: Seq<u8>, position: int) -> char {
    if is_padding(bytes, position) {
        '='
    } else {
        sextet_char(sextet_at(bytes, position))
    }
}

/// Base64 with the standard alphabet and padding.
pub open spec fn base64_of(bytes: Seq<u8>) -> Seq<char> {
    Seq::new(base64_len(bytes.len()), |position: int| base64_char(bytes, position))
}

/// Calls `Engine::encode` of the base64 crate on its `STANDARD` engine, and
/// claims that the text is the padded base64 of the bytes in the standard
/// alphabet. The call allocates the whole text at once and panics where that
/// is more than an allocation can hold, so such lengths are left out.
#[verifier::external_body]
pub(crate) fn encode_base64(bytes: &[u8]) -> (text: String)
    requires
        base64_len(bytes@.len()) <= isize::MAX,
    ensures
        text@ == base64_of(bytes@),
{
    base64::engine::general_purpose::STANDARD.encode(bytes)
}

proof fn lemma_sextet_char_injective(a: int, b: int)
    requires
        0 <= a < 64,
        0 <= b < 64,
        sextet_char(a) == sextet_char(b),
    ensures
        a == b,
{
}

proof fn lemma_sextet_char_is_not_padding(a: int)
    requires
        0 <= a < 64,
    ensures
        sextet_char(a) != '=',
{
}

proof fn lemma_sextet_range(bytes: Seq<u8>, position: int)
    requires
        position >= 0,
    ensures
        0 <= sextet_at(bytes, position) < 64,
{
}

/// Equal texts agree on the padding and on the sextets at every position.
proof fn lemma_equal_texts_agree(left: Seq<u8>, right: Seq<u8>, position: int)
    requires
        base64_of(left) == base64_of(right),
        0 <= position < base64_len(left.len()),
    ensures
        is_padding(left, position) == is_padding(right, position),
        !is_padding(left, position) ==> sextet_at(left, position) == sextet_at(right, position),
{
    assert(base64_of(left).len() == base64_len(left.len()));
    assert(base64_of(right).len() == base64_len(right.len()));
    lemma_sextet_range(left, position);
    lemma_sextet_range(right, position);
    assert(base64_of(left)[position] == base64_char(left, position));
    assert(base64_of(right)[position] == base64_char(right, position));
    lemma_sextet_char_is_not_padding(sextet_at(left, position));
    lemma_sextet_char_is_not_padding(sextet_at(right, position));
    if !is_padding(left, position) {
        lemma_sextet_char_injective(sextet_at(left, position), sextet_at(right, position));
    }
}

/// Base64 loses nothing: texts of different bytes differ, so a reader of the
/// text can recover exactly the bytes.
pub proof fn law_base64_determines_bytes(left: Seq<u8>, right: Seq<u8>)
    requires
        base64_of(left) == base64_of(right),
    ensures
        left == right,
{
    assert(base64_of(left).len() == base64_len(left.len()));
    assert(base64_of(right).len() == base64_len(right.len()));
    if left.len() > 0 {
        let last_group = 4 * ((left.len() - 1) / 3);
        lemma_equal_texts_agree(left, right, last_group + 2);
        lemma_equal_texts_agree(left, right, last_group + 3);
    }
    assert(left.len() == right.len());
    assert forall|i: int| 0 <= i < left.len() implies left[i] == right[i] by {
        let group = 4 * (i / 3);
        lemma_equal_texts_agree(left, right, group);
        lemma_equal_texts_agree(left, right, group + 1);
        lemma_equal_texts_agree(left, right, group + 2);
        lemma_equal_texts_agree(left, right, group + 3);
        assert(group / 4 == i / 3);
        assert((group + 1) / 4 == i / 3);
        assert((group + 2) / 4 == i / 3);
        assert((group + 3) / 4 == i / 3);
    }
    assert(left =~= right);
}

/// The characters of the standard alphabet, in the order of their values.
proof fn lemma_alphabet(value: int)
    requires
        0 <= value < 64,
    ensures
        "ABCDEFGHIJKLMNOPQRSTUVWXYZabcdefghijklmnopqrstuvwxyz0123456789+/"@[value] == sextet_char(
            value,
        ),
{
    reveal_strlit("ABCDEFGHIJKLMNOPQRSTUVWXYZabcdefghijklmnopqrstuvwxyz0123456789+/");
}

/// The four digits to base 64 of the number that three bytes make.
proof fn lemma_digits_of_bytes(a: int, b: int, c: int)
    requires
        0 <= a < 256,
        0 <= b < 256,
        0 <= c < 256,
    ensures
        ({
            let number = 65536 * a + 256 * b + c;
            &&& number / 262144 == a / 4
            &&& number / 4096 % 64 == (a % 4) * 16 + b / 16
            &&& number / 64 % 64 == (b % 16) * 4 + c / 64
            &&& number % 64 == c % 64
            &&& 0 <= number / 262144 < 64
        }),
{
    let number = 65536 * a + 256 * b + c;
    assert(number / 262144 == a / 4);
    assert(number / 4096 == 16 * a + b / 16);
    assert(number / 64 == 1024 * a + 4 * b + c / 64);
}

/// The four characters of the text that stand for the bytes of a group.
proof fn lemma_group_of_text(bytes: Seq<u8>, group: int)
    requires
        group >= 0,
        3 * group < bytes.len(),
    ensures
        ({
            let text = base64_of(bytes);
            let a = byte_or_zero(bytes, 3 * group);
            let b = byte_or_zero(bytes, 3 * group + 1);
            let c = byte_or_zero(bytes, 3 * group + 2);
            &&& text[4 * group] == sextet_char(a / 4)
            &&& text[4 * group + 1] == sextet_char((a % 4) * 16 + b / 16)
            &&& text[4 * group + 2] == if 3 * group + 1 < bytes.len() {
                sextet_char((b % 16) * 4 + c / 64)
            } else {
                '='
            }
            &&& text[4 * group + 3] == if 3 * group + 2 < bytes.len() {
                sextet_char(c % 64)
            } else {
                '='
            }
        }),
{
    let text = base64_of(bytes);
    assert(4 * group + 3 < base64_len(bytes.len()));
    assert(text[4 * group] == base64_char(bytes, 4 * group));
    assert(text[4 * group + 1] == base64_char(bytes, 4 * group + 1));
    assert(text[4 * group + 2] == base64_char(bytes, 4 * group + 2));
    assert(text[4 * group + 3] == base64_char(bytes, 4 * group + 3));
    assert((4 * group) / 4 == group && (4 * group) % 4 == 0);
    assert((4 * group + 1) / 4 == group && (4 * group + 1) % 4 == 1);
    assert((4 * group + 2) / 4 == group && (4 * group + 2) % 4 == 2);
    assert((4 * group + 3) / 4 == group && (4 * group + 3) % 4 == 3);
}

/// How base64 spells bytes: three of them are one number of 24 bits, the first byte
/// on top, and the text holds the four digits of that number to base 64 in the same
/// order, each as the character at its place in the alphabet. Bytes that are missing
/// in the last three count as zero, and `=` stands for the digits that hold none of
/// the others' bits.
pub proof fn law_base64_spells_bytes(bytes: Seq<u8>, group: int)
    requires
        group >= 0,
    ensures
        base64_of(bytes).len() == 4 * ((bytes.len() + 2) / 3),
        base64_of(bytes).len() == base64_len(bytes.len()),
        3 * group < bytes.len() ==> ({
            let alphabet = "ABCDEFGHIJKLMNOPQRSTUVWXYZabcdefghijklmnopqrstuvwxyz0123456789+/"@;
            let text = base64_of(bytes);
            let left = bytes.len() - 3 * group;
            let number = 65536 * bytes[3 * group] + 256 * (if left > 1 {
                bytes[3 * group + 1] as int
            } else {
                0
            }) + (if left > 2 {
                bytes[3 * group + 2] as int
            } else {
                0
            });
            &&& text[4 * group] == alphabet[number / 262144]
            &&& text[4 * group + 1] == alphabet[number / 4096 % 64]
            &&& text[4 * group + 2] == if left > 1 {
                alphabet[number / 64 % 64]
            } else {
                '='
            }
            &&& text[4 * group + 3] == if left > 2 {
                alphabet[number % 64]
            } else {
                '='
            }
        }),
{
    if 3 * group < bytes.len() {
        let a = byte_or_zero(bytes, 3 * group);
        let b = byte_or_zero(bytes, 3 * group + 1);
        let c = byte_or_zero(bytes, 3 * group + 2);
        lemma_digits_of_bytes(a, b, c);
        let number = 65536 * a + 256 * b + c;
        lemma_alphabet(number / 262144);
        lemma_alphabet(number / 4096 % 64);
        lemma_alphabet(number / 64 % 64);
        lemma_alphabet(number % 64);
        lemma_group_of_text(bytes, group);
    }
}

} // verus!
