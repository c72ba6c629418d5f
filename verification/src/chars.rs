//! Character-level arithmetic: UTF-8 and UTF-16 lengths of characters and
//! character sequences, and the algebra the rest of the crate builds on.
//!
//! Byte offsets throughout the crate are stated over `vstd`'s UTF-8 model:
//! the byte length of a character sequence is the length of its
//! `encode_utf8` image, which equals the sum below.
use vstd::prelude::*;

verus! {

use vstd::utf8::encode_utf8;
use vstd::utf8::encode_scalar;
use vstd::utf8::char_is_scalar;
use vstd::string::StringSliceAdditionalSpecFns;

/// Number of bytes in the UTF-8 encoding of one character.
pub open spec fn char_utf8_len(c: char) -> int {
    if (c as u32) < 0x80 {
        1
    } else if (c as u32) < 0x800 {
        2
    } else if (c as u32) < 0x10000 {
        3
    } else {
        4
    }
}

/// Number of bytes in the UTF-8 encoding of a character sequence.
pub open spec fn utf8_len(s: Seq<char>) -> int
    decreases s.len(),
{
    if s.len() == 0 {
        0
    } else {
        char_utf8_len(s[0]) + utf8_len(s.drop_first())
    }
}

/// Number of UTF-16 code units used to encode one character: one for the
/// basic multilingual plane, two for the astral planes.
pub open spec fn char_utf16_len(c: char) -> int {
    if (c as u32) < 0x10000 {
        1
    } else {
        2
    }
}

/// Number of UTF-16 code units used to encode a character sequence.  This
/// is the column unit of the standard editor protocols.
pub open spec fn utf16_len(s: Seq<char>) -> int
    decreases s.len(),
{
    if s.len() == 0 {
        0
    } else {
        char_utf16_len(s[0]) + utf16_len(s.drop_first())
    }
}

/// `char_utf8_len` agrees with the length of `vstd`'s `encode_scalar`.
pub proof fn lemma_char_utf8_len(c: char)
    ensures
        encode_scalar(c as u32).len() == char_utf8_len(c),
        1 <= char_utf8_len(c) <= 4,
{
    char_is_scalar(c);
}

/// `utf8_len` agrees with the length of `vstd`'s `encode_utf8`, hence with
/// `str::len` on any string slice with this view.
pub proof fn lemma_utf8_len_encode(s: Seq<char>)
    ensures
        encode_utf8(s).len() == utf8_len(s),
    decreases s.len(),
{
    if s.len() > 0 {
        lemma_char_utf8_len(s[0]);
        lemma_utf8_len_encode(s.drop_first());
    }
}

/// The byte length of a string slice equals `utf8_len` of its view.
pub proof fn lemma_str_byte_len(s: &str)
    ensures
        s.spec_bytes().len() == utf8_len(s@),
{
    lemma_utf8_len_encode(s@);
}

/// UTF-8 byte length distributes over concatenation.
pub proof fn lemma_utf8_len_concat(a: Seq<char>, b: Seq<char>)
    ensures
        utf8_len(a + b) == utf8_len(a) + utf8_len(b),
    decreases a.len(),
{
    if a.len() == 0 {
        assert(a + b =~= b);
    } else {
        assert((a + b).drop_first() =~= a.drop_first() + b);
        assert((a + b)[0] == a[0]);
        lemma_utf8_len_concat(a.drop_first(), b);
    }
}

/// A sequence needs at least one byte per character.
pub proof fn lemma_utf8_len_ge_len(s: Seq<char>)
    ensures
        s.len() <= utf8_len(s) <= 4 * s.len(),
    decreases s.len(),
{
    if s.len() > 0 {
        lemma_char_utf8_len(s[0]);
        lemma_utf8_len_ge_len(s.drop_first());
    }
}

/// Extending a prefix by one character adds that character's byte length.
pub proof fn lemma_utf8_len_take_step(s: Seq<char>, i: int)
    requires
        0 <= i < s.len(),
    ensures
        utf8_len(s.take(i + 1)) == utf8_len(s.take(i)) + char_utf8_len(s[i]),
{
    assert(s.take(i + 1) =~= s.take(i) + seq![s[i]]);
    lemma_utf8_len_concat(s.take(i), seq![s[i]]);
    assert(seq![s[i]].drop_first() =~= Seq::<char>::empty());
    assert(utf8_len(Seq::<char>::empty()) == 0);
    assert(utf8_len(seq![s[i]]) == char_utf8_len(s[i]));
}

/// A sequence's byte length splits at any cut point.
pub proof fn lemma_utf8_len_split(s: Seq<char>, i: int)
    requires
        0 <= i <= s.len(),
    ensures
        utf8_len(s) == utf8_len(s.take(i)) + utf8_len(s.skip(i)),
{
    assert(s =~= s.take(i) + s.skip(i));
    lemma_utf8_len_concat(s.take(i), s.skip(i));
}

/// UTF-16 length distributes over concatenation.
pub proof fn lemma_utf16_len_concat(a: Seq<char>, b: Seq<char>)
    ensures
        utf16_len(a + b) == utf16_len(a) + utf16_len(b),
    decreases a.len(),
{
    if a.len() == 0 {
        assert(a + b =~= b);
    } else {
        assert((a + b).drop_first() =~= a.drop_first() + b);
        assert((a + b)[0] == a[0]);
        lemma_utf16_len_concat(a.drop_first(), b);
    }
}

/// A sequence needs between one and two UTF-16 units per character.
pub proof fn lemma_utf16_len_bounds(s: Seq<char>)
    ensures
        s.len() <= utf16_len(s) <= 2 * s.len(),
    decreases s.len(),
{
    if s.len() > 0 {
        lemma_utf16_len_bounds(s.drop_first());
    }
}

/// Extending a prefix by one character adds that character's UTF-16 length.
pub proof fn lemma_utf16_len_take_step(s: Seq<char>, i: int)
    requires
        0 <= i < s.len(),
    ensures
        utf16_len(s.take(i + 1)) == utf16_len(s.take(i)) + char_utf16_len(s[i]),
{
    assert(s.take(i + 1) =~= s.take(i) + seq![s[i]]);
    lemma_utf16_len_concat(s.take(i), seq![s[i]]);
    assert(seq![s[i]].drop_first() =~= Seq::<char>::empty());
    assert(utf16_len(Seq::<char>::empty()) == 0);
    assert(utf16_len(seq![s[i]]) == char_utf16_len(s[i]));
}

/// UTF-8 encoding distributes over concatenation.
pub proof fn lemma_encode_utf8_concat(a: Seq<char>, b: Seq<char>)
    ensures
        encode_utf8(a + b) == encode_utf8(a) + encode_utf8(b),
    decreases a.len(),
{
    if a.len() == 0 {
        assert(a + b =~= b);
        assert(encode_utf8(a) =~= Seq::<u8>::empty());
        assert(encode_utf8(a + b) =~= encode_utf8(a) + encode_utf8(b));
    } else {
        assert((a + b)[0] == a[0]);
        assert((a + b).drop_first() =~= a.drop_first() + b);
        lemma_encode_utf8_concat(a.drop_first(), b);
        assert(encode_utf8(a + b) =~= encode_utf8(a) + encode_utf8(b));
    }
}

/// The UTF-8 encodings of the line terminator characters.
pub proof fn lemma_encode_terminators()
    ensures
        encode_utf8(seq!['\r']) == seq![13u8],
        encode_utf8(seq!['\n']) == seq![10u8],
        encode_utf8(seq!['\r', '\n']) == seq![13u8, 10u8],
        utf8_len(seq!['\r']) == 1,
        utf8_len(seq!['\n']) == 1,
        utf8_len(seq!['\r', '\n']) == 2,
{
    assert(('\r' as u32) == 13);
    assert(('\n' as u32) == 10);
    assert((13u32 & 0x7F) as u8 == 13u8) by (bit_vector);
    assert((10u32 & 0x7F) as u8 == 10u8) by (bit_vector);
    assert(seq!['\r'].drop_first() =~= Seq::<char>::empty());
    assert(seq!['\n'].drop_first() =~= Seq::<char>::empty());
    assert(seq!['\r', '\n'].drop_first() =~= seq!['\n']);
    assert(utf8_len(Seq::<char>::empty()) == 0);
    assert(utf8_len(seq!['\n']) == 1);
    assert(utf8_len(seq!['\r', '\n']) == char_utf8_len('\r') + utf8_len(seq!['\n']));
    assert(encode_utf8(Seq::<char>::empty()) =~= Seq::<u8>::empty());
    assert(encode_scalar('\r' as u32) =~= seq![13u8]);
    assert(encode_scalar('\n' as u32) =~= seq![10u8]);
    assert(encode_utf8(seq!['\r']) =~= seq![13u8]);
    assert(encode_utf8(seq!['\n']) =~= seq![10u8]);
    assert(encode_utf8(seq!['\r', '\n']) =~= seq![13u8, 10u8]);
}

/// The byte offset of any character-prefix of a sequence is a character
/// boundary of its UTF-8 encoding.
pub proof fn lemma_char_boundary_at_prefix(s: Seq<char>, m: int)
    requires
        0 <= m <= s.len(),
    ensures
        vstd::utf8::is_char_boundary(encode_utf8(s), utf8_len(s.take(m))),
    decreases m,
{
    broadcast use vstd::utf8::encode_utf8_valid_utf8;

    if m == 0 {
        assert(s.take(0) =~= Seq::<char>::empty());
        assert(utf8_len(s.take(0)) == 0);
    } else {
        vstd::utf8::encode_utf8_first_scalar(s);
        assert(vstd::utf8::pop_first_scalar(encode_utf8(s)) =~= encode_utf8(s.drop_first()));
        lemma_char_utf8_len(s[0]);
        assert(s.take(m) =~= seq![s[0]] + s.drop_first().take(m - 1));
        lemma_utf8_len_concat(seq![s[0]], s.drop_first().take(m - 1));
        assert(seq![s[0]].drop_first() =~= Seq::<char>::empty());
        assert(utf8_len(Seq::<char>::empty()) == 0);
        assert(utf8_len(seq![s[0]]) == char_utf8_len(s[0]));
        lemma_char_boundary_at_prefix(s.drop_first(), m - 1);
        lemma_utf8_len_ge_len(s.take(m));
        lemma_utf8_len_split(s, m);
        lemma_utf8_len_ge_len(s.skip(m));
        lemma_utf8_len_encode(s);
    }
}

/// Computes the UTF-8 byte length of one character.
pub fn char_utf8_len_x(c: char) -> (r: usize)
    ensures
        r as int == char_utf8_len(c),
{
    let u = c as u32;
    if u < 0x80 {
        1
    } else if u < 0x800 {
        2
    } else if u < 0x10000 {
        3
    } else {
        4
    }
}

/// Computes the UTF-16 length of one character.
pub fn char_utf16_len_x(c: char) -> (r: usize)
    ensures
        r as int == char_utf16_len(c),
{
    if (c as u32) < 0x10000 {
        1
    } else {
        2
    }
}

/// Compares two character vectors for equality of their contents.
pub fn vec_char_eq(a: &Vec<char>, b: &Vec<char>) -> (r: bool)
    ensures
        r == (a@ == b@),
{
    if a.len() != b.len() {
        return false;
    }
    let mut i: usize = 0;
    while i < a.len()
        invariant
            0 <= i <= a.len(),
            a.len() == b.len(),
            forall|k: int| 0 <= k < i ==> a@[k] == b@[k],
        decreases a.len() - i,
    {
        if a[i] != b[i] {
            return false;
        }
        i = i + 1;
    }
    proof {
        assert(a@ =~= b@);
    }
    true
}

} // verus!
