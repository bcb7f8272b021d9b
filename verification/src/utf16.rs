//! UTF-16 code units and the text they stand for.

use vstd::prelude::*;

verus! {

/// The character that takes the place of a code unit that cannot be decoded.
pub open spec fn replacement() -> char {
    '\u{FFFD}'
}

/// First half of a surrogate pair.
pub open spec fn is_high_surrogate(w: u16) -> bool {
    0xD800 <= w <= 0xDBFF
}

/// Second half of a surrogate pair.
pub open spec fn is_low_surrogate(w: u16) -> bool {
    0xDC00 <= w <= 0xDFFF
}

pub open spec fn is_surrogate(w: u16) -> bool {
    0xD800 <= w <= 0xDFFF
}

/// The character above the basic plane that the pair `hi`, `lo` encodes.
pub open spec fn pair_char(hi: u16, lo: u16) -> char {
    (0x10000 + (hi - 0xD800) * 0x400 + (lo - 0xDC00)) as char
}

/// The character for a code unit that stands alone: itself, or the
/// replacement character where it is a surrogate.
pub open spec fn unit_char(w: u16) -> char {
    if is_surrogate(w) {
        replacement()
    } else {
        w as char
    }
}

/// Whether a surrogate pair starts at index `i` of `words`.
pub open spec fn starts_pair(words: Seq<u16>, i: int) -> bool {
    0 <= i && i + 1 < words.len() && is_high_surrogate(words[i]) && is_low_surrogate(words[i + 1])
}

/// Lossy UTF-16 decoding: a high surrogate directly followed by a low one is
/// one character, every other surrogate is replaced, every other unit is the
/// character with its value.
pub open spec fn decode_utf16_lossy(words: Seq<u16>) -> Seq<char>
    decreases words.len(),
{
    if words.len() == 0 {
        Seq::empty()
    } else if starts_pair(words, 0) {
        seq![pair_char(words[0], words[1])] + decode_utf16_lossy(words.skip(2))
    } else {
        seq![unit_char(words[0])] + decode_utf16_lossy(words.skip(1))
    }
}

/// The one or two code units that encode `c`.
pub open spec fn encode_char(c: char) -> Seq<u16> {
    if (c as u32) < 0x10000 {
        seq![c as u16]
    } else {
        seq![
            (0xD800 + (c as u32 - 0x10000) / 0x400) as u16,
            (0xDC00 + (c as u32 - 0x10000) % 0x400) as u16,
        ]
    }
}

/// UTF-16 encoding of a text.
pub open spec fn encode_utf16(text: Seq<char>) -> Seq<u16>
    decreases text.len(),
{
    if text.len() == 0 {
        Seq::empty()
    } else {
        encode_char(text[0]) + encode_utf16(text.skip(1))
    }
}

/// Number of surrogate pairs that start in front of index `i`.
pub open spec fn pairs_before(words: Seq<u16>, i: int) -> nat
    decreases i,
{
    if i <= 0 {
        0
    } else {
        pairs_before(words, i - 1) + if starts_pair(words, i - 1) {
            1nat
        } else {
            0nat
        }
    }
}

/// Index, in the decoded text, of the character that the code unit at index
/// `i` stands for. The two halves of a pair share one character.
pub open spec fn char_index(words: Seq<u16>, i: int) -> int {
    i - pairs_before(words, i)
}

/// The character that the code unit at index `i` stands for: the character
/// of its pair where it is half of one, else the unit on its own.
pub open spec fn char_of_unit(words: Seq<u16>, i: int) -> char {
    if starts_pair(words, i) {
        pair_char(words[i], words[i + 1])
    } else if starts_pair(words, i - 1) {
        pair_char(words[i - 1], words[i])
    } else {
        unit_char(words[i])
    }
}

/// A surrogate that is not half of a pair.
pub open spec fn is_lone_surrogate(words: Seq<u16>, i: int) -> bool {
    is_surrogate(words[i]) && !starts_pair(words, i) && !starts_pair(words, i - 1)
}

/// Pairs are counted the same way in a sequence and in what is left of it
/// after `k` units.
pub proof fn lemma_pairs_before_skip(words: Seq<u16>, k: int, i: int)
    requires
        0 <= k <= i <= words.len(),
    ensures
        pairs_before(words, i) == pairs_before(words, k) + pairs_before(words.skip(k), i - k),
    decreases i - k,
{
    if i > k {
        lemma_pairs_before_skip(words, k, i - 1);
        assert(starts_pair(words, i - 1) == starts_pair(words.skip(k), i - 1 - k));
    }
}

/// Lossy decoding, unit by unit. Every code unit has its place in the
/// decoded text, and the character at that place is the character of its
/// pair, the unit itself, or the replacement character where the unit is a
/// surrogate without a partner. The text has one character for each unit
/// less one for each pair, so every lone surrogate is replaced by exactly
/// one character.
pub proof fn lemma_decode_by_unit(words: Seq<u16>, i: int)
    requires
        0 <= i < words.len(),
    ensures
        decode_utf16_lossy(words).len() == words.len() - pairs_before(words, words.len() as int),
        0 <= char_index(words, i) < decode_utf16_lossy(words).len(),
        decode_utf16_lossy(words)[char_index(words, i)] == char_of_unit(words, i),
        is_lone_surrogate(words, i) ==> decode_utf16_lossy(words)[char_index(words, i)]
            == replacement(),
    decreases words.len(),
{
    let k: int = if starts_pair(words, 0) {
        2
    } else {
        1
    };
    let rest = words.skip(k);
    assert(pairs_before(words, k) == k - 1) by {
        reveal_with_fuel(pairs_before, 3);
    }
    lemma_pairs_before_skip(words, k, words.len() as int);
    lemma_decode_length(rest);
    if i < k {
        assert(pairs_before(words, i) == i) by {
            reveal_with_fuel(pairs_before, 3);
        }
    } else {
        lemma_pairs_before_skip(words, k, i);
        lemma_decode_by_unit(rest, i - k);
        assert(starts_pair(rest, i - k) == starts_pair(words, i));
        assert(starts_pair(rest, i - k - 1) == starts_pair(words, i - 1));
        assert(char_index(words, i) == char_index(rest, i - k) + 1);
        assert(char_of_unit(rest, i - k) == char_of_unit(words, i));
    }
}

/// The decoded text has one character for each code unit, less one for each
/// surrogate pair.
pub proof fn lemma_decode_length(words: Seq<u16>)
    ensures
        decode_utf16_lossy(words).len() == words.len() - pairs_before(words, words.len() as int),
    decreases words.len(),
{
    if words.len() > 0 {
        let k: int = if starts_pair(words, 0) {
            2
        } else {
            1
        };
        assert(pairs_before(words, k) == k - 1) by {
            reveal_with_fuel(pairs_before, 3);
        }
        lemma_pairs_before_skip(words, k, words.len() as int);
        lemma_decode_length(words.skip(k));
    }
}

/// Code units that are further back stand for characters that are further
/// back; only the two halves of a pair stand for the same character.
pub proof fn lemma_char_index_order(words: Seq<u16>, i: int, j: int)
    requires
        0 <= i < j < words.len(),
    ensures
        char_index(words, i) <= char_index(words, j),
        char_index(words, i) == char_index(words, j) <==> (j == i + 1 && starts_pair(words, i)),
    decreases j - i,
{
    if j == i + 1 {
    } else {
        lemma_char_index_order(words, i, j - 1);
        if starts_pair(words, j - 1) {
            assert(!starts_pair(words, j - 2));
            if i < j - 2 {
                lemma_char_index_order(words, i, j - 2);
            }
        }
    }
}

/// A text whose code units are all surrogates without a partner decodes to
/// as many replacement characters.
pub proof fn lemma_all_lone_surrogates(words: Seq<u16>)
    requires
        forall|i: int| 0 <= i < words.len() ==> is_lone_surrogate(words, i),
    ensures
        decode_utf16_lossy(words) == Seq::new(words.len(), |i: int| replacement()),
{
    assert forall|j: int| 0 <= j < words.len() implies !starts_pair(words, j) by {
        assert(is_lone_surrogate(words, j));
    }
    lemma_decode_length(words);
    lemma_no_pairs(words, words.len() as int);
    assert forall|i: int| 0 <= i < words.len() implies decode_utf16_lossy(words)[i]
        == replacement() by {
        lemma_decode_by_unit(words, i);
        lemma_no_pairs(words, i);
    }
    assert(decode_utf16_lossy(words) =~= Seq::new(words.len(), |i: int| replacement()));
}

/// Where no pair starts in front of `i`, none is counted.
pub proof fn lemma_no_pairs(words: Seq<u16>, i: int)
    requires
        forall|j: int| 0 <= j < i ==> !starts_pair(words, j),
    ensures
        pairs_before(words, i) == 0,
    decreases i,
{
    if i > 0 {
        lemma_no_pairs(words, i - 1);
    }
}

/// Decoding reads the encoding of `c` at the front of a sequence as `c`.
pub proof fn lemma_decode_encoded_char(c: char, rest: Seq<u16>)
    ensures
        decode_utf16_lossy(encode_char(c) + rest) == seq![c] + decode_utf16_lossy(rest),
{
    let units = encode_char(c);
    let all = units + rest;
    if (c as u32) < 0x10000 {
        assert(all[0] == c as u16);
        assert(!is_surrogate(all[0]));
        assert(all.skip(1) =~= rest);
        assert(unit_char(all[0]) == c);
    } else {
        let v = (c as u32 - 0x10000) as int;
        assert(0 <= v < 0x100000);
        assert(all[0] == (0xD800 + v / 0x400) as u16);
        assert(all[1] == (0xDC00 + v % 0x400) as u16);
        assert(starts_pair(all, 0));
        assert(all.skip(2) =~= rest);
        assert(0x10000 + (all[0] - 0xD800) * 0x400 + (all[1] - 0xDC00) == c as u32);
        assert(pair_char(all[0], all[1]) == c);
    }
}

/// Decoding undoes encoding: well-formed UTF-16 comes back as the text it
/// was made from.
pub proof fn lemma_decode_encode(text: Seq<char>)
    ensures
        decode_utf16_lossy(encode_utf16(text)) == text,
    decreases text.len(),
{
    if text.len() > 0 {
        lemma_decode_encoded_char(text[0], encode_utf16(text.skip(1)));
        lemma_decode_encode(text.skip(1));
        assert(seq![text[0]] + text.skip(1) =~= text);
    } else {
        assert(text =~= Seq::<char>::empty());
    }
}

/// The encoding of a character other than NUL holds no zero unit.
pub proof fn lemma_encode_char_no_zero(c: char)
    requires
        c != '\0',
    ensures
        forall|i: int| 0 <= i < encode_char(c).len() ==> encode_char(c)[i] != 0,
{
    assert(c as u32 != 0);
}

/// The encoding of a text without NUL characters holds no zero unit.
pub proof fn lemma_encode_no_zero(text: Seq<char>)
    requires
        forall|i: int| 0 <= i < text.len() ==> text[i] != '\0',
    ensures
        forall|i: int| 0 <= i < encode_utf16(text).len() ==> encode_utf16(text)[i] != 0,
    decreases text.len(),
{
    if text.len() > 0 {
        let rest = text.skip(1);
        assert forall|i: int| 0 <= i < rest.len() implies rest[i] != '\0' by {
            assert(rest[i] == text[i + 1]);
        }
        lemma_encode_no_zero(rest);
        let head = encode_char(text[0]);
        lemma_encode_char_no_zero(text[0]);
        assert(encode_utf16(text) == head + encode_utf16(rest));
        assert forall|i: int| 0 <= i < encode_utf16(text).len() implies encode_utf16(text)[i]
            != 0 by {
            if i < head.len() {
                assert(encode_utf16(text)[i] == head[i]);
            } else {
                assert(encode_utf16(text)[i] == encode_utf16(rest)[i - head.len()]);
            }
        }
    }
}

/// Decodes a single code unit that stands alone.
pub fn decode_unit(w: u16) -> (c: char)
    ensures
        c == unit_char(w),
{
    match char::from_u32(w as u32) {
        Some(c) => c,
        None => '\u{FFFD}',
    }
}

/// Decodes a surrogate pair.
pub fn decode_pair(hi: u16, lo: u16) -> (c: char)
    requires
        is_high_surrogate(hi),
        is_low_surrogate(lo),
    ensures
        c == pair_char(hi, lo),
{
    let scalar: u32 = 0x10000u32 + ((hi - 0xD800u16) as u32) * 0x400u32 + ((lo - 0xDC00u16) as u32);
    match char::from_u32(scalar) {
        Some(c) => c,
        None => '\u{FFFD}',
    }
}

/// Decodes UTF-16 code units into a string. Ill-formed input is never an
/// error: each unit that is not part of a surrogate pair and is a surrogate
/// becomes one replacement character.
pub fn words_to_string_lossy(words: Vec<u16>) -> (s: String)
    ensures
        s@ == decode_utf16_lossy(words@),
{
    let mut s = String::new();
    let mut i: usize = 0;
    proof {
        assert(words@.skip(0) =~= words@);
        assert(s@ + decode_utf16_lossy(words@) =~= decode_utf16_lossy(words@));
    }
    while i < words.len()
        invariant
            i <= words.len(),
            s@ + decode_utf16_lossy(words@.skip(i as int)) == decode_utf16_lossy(words@),
        decreases words.len() - i,
    {
        let ghost rest = words@.skip(i as int);
        let w: u16 = words[i];
        if 0xD800 <= w && w <= 0xDBFF && i + 1 < words.len() && 0xDC00 <= words[i + 1] && words[i + 1]
            <= 0xDFFF {
            let c = decode_pair(w, words[i + 1]);
            proof {
                assert(starts_pair(rest, 0));
                assert(rest.skip(2) == words@.skip(i + 2));
                assert(s@.push(c) + decode_utf16_lossy(rest.skip(2)) =~= s@ + decode_utf16_lossy(
                    rest,
                ));
            }
            s.push(c);
            i = i + 2;
        } else {
            let c = decode_unit(w);
            proof {
                assert(!starts_pair(rest, 0));
                assert(rest.skip(1) == words@.skip(i + 1));
                assert(s@.push(c) + decode_utf16_lossy(rest.skip(1)) =~= s@ + decode_utf16_lossy(
                    rest,
                ));
            }
            s.push(c);
            i = i + 1;
        }
    }
    proof {
        assert(s@ + decode_utf16_lossy(words@.skip(i as int)) =~= s@);
    }
    s
}

} // verus!
