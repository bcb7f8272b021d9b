//! Text payloads: the raw string of a known length and the multi-string list.

use vstd::prelude::*;
use vstd::std_specs::iter::IteratorSpec;
use crate::error::DecodeError;
use crate::trusted::{decodable_len, decode_latin9, decode_utf16le, latin9_decoding, utf16le_decoding};

verus! {

/// `text` without its last character, where that character is NUL.
pub open spec fn strip_nul(text: Seq<char>) -> Seq<char> {
    if text.len() > 0 && text.last() == '\0' {
        text.drop_last()
    } else {
        text
    }
}

/// What one candidate decoding contributes: its text without a trailing NUL
/// where it decoded cleanly, nothing where it had to replace anything.
pub open spec fn accept_decoding(text: Seq<char>, had_errors: bool) -> Option<Seq<char>> {
    if had_errors {
        None
    } else {
        Some(strip_nul(text))
    }
}

/// The text of a raw string payload. An empty payload is the empty text.
/// Any other payload is the first clean decoding in the chain UTF-16LE,
/// ISO-8859-15.
pub open spec fn sz_text(raw: Seq<u8>) -> Option<Seq<char>> {
    let first = utf16le_decoding(raw);
    let second = latin9_decoding(raw);
    if raw.len() == 0 {
        Some(Seq::empty())
    } else if accept_decoding(first.0, first.1) is Some {
        accept_decoding(first.0, first.1)
    } else {
        accept_decoding(second.0, second.1)
    }
}

/// Number of characters in front of the first NUL of `text`; its length
/// where it holds none.
pub open spec fn first_nul(text: Seq<char>) -> nat
    decreases text.len(),
{
    if text.len() == 0 || text[0] == '\0' {
        0
    } else {
        1 + first_nul(text.skip(1))
    }
}

/// The pieces between the NUL characters of `text`, in order. A text with
/// `n` NULs has `n + 1` pieces, some of them possibly empty.
pub open spec fn split_nul(text: Seq<char>) -> Seq<Seq<char>>
    decreases text.len(),
{
    let n = first_nul(text) as int;
    if n >= text.len() {
        seq![text]
    } else {
        seq![text.take(n)] + split_nul(text.skip(n + 1))
    }
}

/// `items` without its last element, where that element is empty.
pub open spec fn drop_trailing_empty(items: Seq<Seq<char>>) -> Seq<Seq<char>> {
    if items.len() > 0 && items.last().len() == 0 {
        items.drop_last()
    } else {
        items
    }
}

/// The strings of a multi-string block, given its decoded text: the pieces
/// between the NULs, less the one or two empty pieces that the terminator
/// of the block leaves at the end.
pub open spec fn multi_sz_strings(text: Seq<char>) -> Seq<Seq<char>> {
    drop_trailing_empty(drop_trailing_empty(split_nul(text)))
}

/// The texts of a list of strings.
pub open spec fn strings_view(items: Seq<String>) -> Seq<Seq<char>> {
    items.map_values(|s: String| s@)
}

/// Removes one trailing NUL character, if there is one.
pub fn strip_trailing_nul(s: String) -> (r: String)
    ensures
        r@ == strip_nul(s@),
{
    let n = s.as_str().unicode_len();
    if n > 0 && s.as_str().get_char(n - 1) == '\0' {
        let kept = s.as_str().substring_char(0, n - 1).to_owned();
        proof {
            assert(s@.subrange(0, n - 1) =~= s@.drop_last());
        }
        kept
    } else {
        s
    }
}

/// Judges one candidate decoding: a clean one is taken, less a trailing NUL;
/// one that had to replace malformed input is turned down.
pub fn accept_decoded(text: String, had_errors: bool) -> (r: Option<String>)
    ensures
        r is Some <==> !had_errors,
        r matches Some(s) ==> accept_decoding(text@, had_errors) == Some(s@),
{
    if had_errors {
        None
    } else {
        Some(strip_trailing_nul(text))
    }
}

/// Decodes a string payload whose length is known. An empty payload is the
/// empty string. Otherwise UTF-16LE is tried first; only where that decoding
/// reports malformed input is ISO-8859-15 tried; where both report malformed
/// input the payload is undecodable. A payload that decodes cleanly as
/// UTF-16LE is never handed to the second decoder.
pub fn parse_reg_sz_raw(raw_string: &[u8]) -> (r: Result<String, DecodeError>)
    requires
        decodable_len(raw_string@.len()),
    ensures
        match r {
            Ok(s) => sz_text(raw_string@) == Some(s@),
            Err(e) => e == DecodeError::UndecodableString && sz_text(raw_string@) is None,
        },
        raw_string@.len() == 0 ==> r is Ok && r->Ok_0@ == Seq::<char>::empty(),
        raw_string@.len() > 0 && !utf16le_decoding(raw_string@).1 ==> r is Ok && r->Ok_0@
            == strip_nul(utf16le_decoding(raw_string@).0),
{
    if raw_string.len() == 0 {
        return Ok(String::new());
    }
    let first = decode_utf16le(raw_string);
    match accept_decoded(first.0, first.1) {
        Some(s) => Ok(s),
        None => {
            let second = decode_latin9(raw_string);
            match accept_decoded(second.0, second.1) {
                Some(s) => Ok(s),
                None => Err(DecodeError::UndecodableString),
            }
        },
    }
}

/// `head` put in front of the first piece of `pieces`.
pub open spec fn prepend_to_first(head: Seq<char>, pieces: Seq<Seq<char>>) -> Seq<Seq<char>> {
    seq![head + pieces[0]] + pieces.skip(1)
}

/// Splitting always gives at least one piece.
pub proof fn lemma_split_nul_nonempty(text: Seq<char>)
    ensures
        split_nul(text).len() >= 1,
    decreases text.len(),
{
    let n = first_nul(text) as int;
    lemma_first_nul_bound(text);
    if n < text.len() {
        lemma_split_nul_nonempty(text.skip(n + 1));
    }
}

/// The first NUL, if any, lies inside the text, nothing in front of it is
/// NUL, and the character at that place is.
pub proof fn lemma_first_nul_bound(text: Seq<char>)
    ensures
        first_nul(text) <= text.len(),
        forall|i: int| 0 <= i < first_nul(text) ==> text[i] != '\0',
        first_nul(text) < text.len() ==> text[first_nul(text) as int] == '\0',
    decreases text.len(),
{
    if text.len() == 0 || text[0] == '\0' {
    } else {
        lemma_first_nul_bound(text.skip(1));
        assert forall|i: int| 0 <= i < first_nul(text) implies text[i] != '\0' by {
            if i > 0 {
                assert(text.skip(1)[i - 1] == text[i]);
            }
        }
        if first_nul(text) < text.len() {
            assert(text.skip(1)[first_nul(text.skip(1)) as int] == text[first_nul(text) as int]);
        }
    }
}

/// How splitting goes on after the first character of a text.
pub proof fn lemma_split_nul_step(text: Seq<char>)
    requires
        text.len() > 0,
    ensures
        text[0] == '\0' ==> split_nul(text) == seq![Seq::<char>::empty()] + split_nul(
            text.skip(1),
        ),
        text[0] != '\0' ==> split_nul(text) == prepend_to_first(
            seq![text[0]],
            split_nul(text.skip(1)),
        ),
{
    let rest = text.skip(1);
    lemma_first_nul_bound(text);
    lemma_first_nul_bound(rest);
    if text[0] == '\0' {
        assert(text.take(0) =~= Seq::<char>::empty());
    } else {
        let n = first_nul(text) as int;
        let m = first_nul(rest) as int;
        assert(n == m + 1);
        if m >= rest.len() {
            assert(seq![text[0]] + rest =~= text);
            assert(split_nul(rest).skip(1) =~= Seq::<Seq<char>>::empty());
            assert(split_nul(text) =~= prepend_to_first(seq![text[0]], split_nul(rest)));
        } else {
            assert(seq![text[0]] + rest.take(m) =~= text.take(n));
            assert(rest.skip(m + 1) =~= text.skip(n + 1));
            assert((seq![rest.take(m)] + split_nul(rest.skip(m + 1))).skip(1) =~= split_nul(
                rest.skip(m + 1),
            ));
            assert(split_nul(text) =~= prepend_to_first(seq![text[0]], split_nul(rest)));
        }
    }
}

/// The pieces put together, with `separator` between each two of them.
pub open spec fn join_with(pieces: Seq<Seq<char>>, separator: Seq<char>) -> Seq<char>
    decreases pieces.len(),
{
    if pieces.len() == 0 {
        Seq::empty()
    } else if pieces.len() == 1 {
        pieces[0]
    } else {
        pieces[0] + separator + join_with(pieces.skip(1), separator)
    }
}

/// The pieces put together again, with one NUL between each two of them.
pub open spec fn join_nul(pieces: Seq<Seq<char>>) -> Seq<char> {
    join_with(pieces, seq!['\0'])
}

/// A text without a NUL character.
pub open spec fn nul_free(text: Seq<char>) -> bool {
    forall|i: int| 0 <= i < text.len() ==> text[i] != '\0'
}

/// A text without NUL is its own length away from its first NUL.
pub proof fn lemma_first_nul_of_prefix(head: Seq<char>, tail: Seq<char>)
    requires
        nul_free(head),
    ensures
        first_nul(head) == head.len(),
        first_nul(head + seq!['\0'] + tail) == head.len(),
    decreases head.len(),
{
    let whole = head + seq!['\0'] + tail;
    if head.len() == 0 {
        assert(whole[0] == '\0');
    } else {
        assert(head[0] != '\0');
        assert(whole[0] == head[0]);
        assert forall|i: int| 0 <= i < head.skip(1).len() implies head.skip(1)[i] != '\0' by {
            assert(head.skip(1)[i] == head[i + 1]);
        }
        lemma_first_nul_of_prefix(head.skip(1), tail);
        assert(whole.skip(1) =~= head.skip(1) + seq!['\0'] + tail);
    }
}

/// Splitting takes a text apart without losing anything: no piece holds a
/// NUL, and the pieces joined by NULs are the text.
pub proof fn lemma_join_of_split(text: Seq<char>)
    ensures
        split_nul(text).len() >= 1,
        forall|k: int| 0 <= k < split_nul(text).len() ==> nul_free(#[trigger] split_nul(text)[k]),
        join_nul(split_nul(text)) == text,
    decreases text.len(),
{
    let n = first_nul(text) as int;
    lemma_first_nul_bound(text);
    if n >= text.len() {
        assert(nul_free(text));
    } else {
        let rest = text.skip(n + 1);
        lemma_join_of_split(rest);
        let pieces = split_nul(text);
        assert(pieces.skip(1) =~= split_nul(rest));
        assert(nul_free(text.take(n)));
        assert forall|k: int| 0 <= k < pieces.len() implies nul_free(#[trigger] pieces[k]) by {
            if k > 0 {
                assert(pieces[k] == split_nul(rest)[k - 1]);
            }
        }
        assert(text.take(n) + seq!['\0'] + rest =~= text);
    }
}

/// Splitting undoes joining: a list of NUL-free pieces, joined by NULs,
/// splits into that list and no other.
pub proof fn lemma_split_of_join(pieces: Seq<Seq<char>>)
    requires
        pieces.len() >= 1,
        forall|k: int| 0 <= k < pieces.len() ==> nul_free(#[trigger] pieces[k]),
    ensures
        split_nul(join_nul(pieces)) == pieces,
    decreases pieces.len(),
{
    let text = join_nul(pieces);
    if pieces.len() == 1 {
        lemma_first_nul_of_prefix(pieces[0], Seq::empty());
        assert(split_nul(text) =~= pieces);
    } else {
        let rest = pieces.skip(1);
        assert forall|k: int| 0 <= k < rest.len() implies nul_free(#[trigger] rest[k]) by {
            assert(rest[k] == pieces[k + 1]);
        }
        lemma_split_of_join(rest);
        lemma_first_nul_of_prefix(pieces[0], join_nul(rest));
        let n = pieces[0].len() as int;
        assert(text.take(n) =~= pieces[0]);
        assert(text.skip(n + 1) =~= join_nul(rest));
        assert(split_nul(text) =~= pieces);
    }
}

/// `count` empty strings.
pub open spec fn empties(count: nat) -> Seq<Seq<char>> {
    Seq::new(count, |i: int| Seq::<char>::empty())
}

/// The strings of a block come back as they went in. The decoded text of a
/// block is its strings, each followed by a NUL, with at most one NUL more:
/// the strings and one or two empty pieces, joined by NULs. Whatever the
/// strings are, as long as none holds a NUL and the last one is not empty,
/// they are what the block decodes to; an empty string further up in the list
/// is kept.
pub proof fn lemma_multi_sz_block(items: Seq<Seq<char>>, extra: nat)
    requires
        forall|k: int| 0 <= k < items.len() ==> nul_free(#[trigger] items[k]),
        items.len() > 0 ==> items.last().len() > 0,
        1 <= extra <= 2,
    ensures
        multi_sz_strings(join_nul(items + empties(extra))) == items,
{
    let pieces = items + empties(extra);
    assert forall|k: int| 0 <= k < pieces.len() implies nul_free(#[trigger] pieces[k]) by {
        if k < items.len() {
            assert(pieces[k] == items[k]);
        }
    }
    lemma_split_of_join(pieces);
    if extra == 1 {
        assert(pieces.drop_last() =~= items);
    } else {
        assert(pieces.drop_last() =~= items + empties(1));
        assert((items + empties(1)).drop_last() =~= items);
    }
}

/// Never more than two: of three or more empty pieces at the end of a text,
/// all but the last two stay in the list.
pub proof fn lemma_multi_sz_keeps_third_empty(items: Seq<Seq<char>>, extra: nat)
    requires
        forall|k: int| 0 <= k < items.len() ==> nul_free(#[trigger] items[k]),
        extra >= 2,
    ensures
        multi_sz_strings(join_nul(items + empties(extra))) == items + empties(
            (extra - 2) as nat,
        ),
{
    let pieces = items + empties(extra);
    assert forall|k: int| 0 <= k < pieces.len() implies nul_free(#[trigger] pieces[k]) by {
        if k < items.len() {
            assert(pieces[k] == items[k]);
        }
    }
    lemma_split_of_join(pieces);
    assert(pieces.drop_last() =~= items + empties((extra - 1) as nat));
    assert((items + empties((extra - 1) as nat)).drop_last() =~= items + empties(
        (extra - 2) as nat,
    ));
}

/// Splits a text at its NUL characters, as `str::split` does: the pieces
/// come in order and the NULs themselves are left out.
pub fn split_on_nul(text: &str) -> (pieces: Vec<String>)
    ensures
        strings_view(pieces@) == split_nul(text@),
{
    broadcast use vstd::string::group_string_axioms;

    let mut pieces: Vec<String> = Vec::new();
    let mut current = String::new();
    let mut chars = text.chars();
    proof {
        lemma_split_nul_nonempty(text@);
        assert(strings_view(pieces@) =~= Seq::<Seq<char>>::empty());
        assert(current@ + split_nul(text@)[0] =~= split_nul(text@)[0]);
        assert(strings_view(pieces@) + prepend_to_first(current@, split_nul(chars.remaining()))
            =~= split_nul(text@));
    }
    loop
        invariant
            chars.decrease() is Some,
            strings_view(pieces@) + prepend_to_first(current@, split_nul(chars.remaining()))
                == split_nul(text@),
        ensures
            chars.remaining().len() == 0,
            strings_view(pieces@) + prepend_to_first(current@, split_nul(chars.remaining()))
                == split_nul(text@),
        decreases chars.decrease()->0,
    {
        let ghost before = chars.remaining();
        let ghost done = strings_view(pieces@);
        let next = chars.next();
        match next {
            None => {
                break ;
            },
            Some(c) => {
                proof {
                    lemma_split_nul_step(before);
                    lemma_split_nul_nonempty(before.skip(1));
                    assert(before.drop_first() =~= before.skip(1));
                }
                let ghost after = split_nul(before.skip(1));
                if c == '\0' {
                    proof {
                        assert(strings_view(pieces@.push(current)) =~= done.push(current@));
                        assert(prepend_to_first(current@, split_nul(before)) =~= seq![current@]
                            + after);
                        assert(Seq::<char>::empty() + after[0] =~= after[0]);
                        assert(prepend_to_first(Seq::<char>::empty(), after) =~= after);
                        assert(done.push(current@) + after =~= done + (seq![current@] + after));
                    }
                    pieces.push(current);
                    current = String::new();
                } else {
                    proof {
                        assert((current@.push(c)) + after[0] =~= current@ + (seq![c] + after[0]));
                        assert(prepend_to_first(seq![c], after).skip(1) =~= after.skip(1));
                        assert(prepend_to_first(current@.push(c), after) =~= prepend_to_first(
                            current@,
                            split_nul(before),
                        ));
                    }
                    current.push(c);
                }
            },
        }
    }
    proof {
        assert(chars.remaining() =~= Seq::<char>::empty());
        assert(split_nul(chars.remaining()) =~= seq![Seq::<char>::empty()]);
        assert(current@ + Seq::<char>::empty() =~= current@);
        assert(prepend_to_first(current@, split_nul(chars.remaining())) =~= seq![current@]);
        assert(strings_view(pieces@.push(current)) =~= strings_view(pieces@) + seq![current@]);
    }
    pieces.push(current);
    pieces
}

/// Removes the last string of the list, where it is empty.
pub fn pop_trailing_empty(items: &mut Vec<String>)
    ensures
        strings_view(final(items)@) == drop_trailing_empty(strings_view(old(items)@)),
{
    let n = items.len();
    if n > 0 && items[n - 1].as_str().is_empty() {
        items.pop();
        proof {
            assert(strings_view(items@) =~= strings_view(old(items)@).drop_last());
        }
    }
}

/// Decodes a multi-string payload: the payload is decoded as one raw string,
/// split at its NULs, and rid of the empty strings that the terminator of
/// the block leaves at the end, at most two of them. Empty strings further
/// up in the list stay.
pub fn parse_reg_multi_sz(raw_string: &[u8]) -> (r: Result<Vec<String>, DecodeError>)
    requires
        decodable_len(raw_string@.len()),
    ensures
        match r {
            Ok(items) => sz_text(raw_string@) matches Some(text) && strings_view(items@)
                == multi_sz_strings(text),
            Err(e) => e == DecodeError::UndecodableString && sz_text(raw_string@) is None,
        },
{
    match parse_reg_sz_raw(raw_string) {
        Ok(text) => {
            let mut items = split_on_nul(text.as_str());
            pop_trailing_empty(&mut items);
            pop_trailing_empty(&mut items);
            Ok(items)
        },
        Err(e) => Err(e),
    }
}

} // verus!
