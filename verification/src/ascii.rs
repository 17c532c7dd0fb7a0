//! Text comparison that ignores the case of ASCII letters.

use vstd::prelude::*;
use vstd::utf8::encode_utf8;

verus! {

/// A byte, as a lower case letter if it is an upper case one.
pub open spec fn lower(byte: u8) -> u8 {
    if 0x41 <= byte <= 0x5a {
        (byte + 0x20) as u8
    } else {
        byte
    }
}

/// Whether bytes are equal up to case.
pub open spec fn same_letters(a: Seq<u8>, b: Seq<u8>) -> bool {
    &&& a.len() == b.len()
    &&& forall|i: int| 0 <= i < a.len() ==> lower(#[trigger] a[i]) == lower(b[i])
}

/// Whether a text is `word` up to case.
pub open spec fn is_word(text: Seq<char>, word: Seq<char>) -> bool {
    same_letters(encode_utf8(text), encode_utf8(word))
}

/// Whether `word` occurs at a place, up to case.
pub open spec fn occurs_at(bytes: Seq<u8>, word: Seq<u8>, at: int) -> bool {
    &&& 0 <= at
    &&& at + word.len() <= bytes.len()
    &&& same_letters(bytes.subrange(at, at + word.len()), word)
}

/// Whether `word` occurs in a text, up to case.
pub open spec fn has_word(text: Seq<char>, word: Seq<char>) -> bool {
    exists|at: int| occurs_at(encode_utf8(text), encode_utf8(word), at)
}

fn to_lower(byte: u8) -> (letter: u8)
    ensures
        letter == lower(byte),
{
    if 0x41 <= byte && byte <= 0x5a {
        byte + 0x20
    } else {
        byte
    }
}

fn occurs(bytes: &[u8], word: &[u8], at: usize) -> (found: bool)
    requires
        at + word@.len() <= bytes@.len(),
    ensures
        found == occurs_at(bytes@, word@, at as int),
{
    let ghost part = bytes@.subrange(at as int, at + word@.len());
    let mut i: usize = 0;
    while i < word.len()
        invariant
            i <= word@.len(),
            at + word@.len() <= bytes.len(),
            part == bytes@.subrange(at as int, at + word@.len()),
            forall|k: int| 0 <= k < i ==> lower(#[trigger] part[k]) == lower(word@[k]),
        decreases word@.len() - i,
    {
        assert(part[i as int] == bytes@[at + i]);
        if to_lower(bytes[at + i]) != to_lower(word[i]) {
            return false;
        }
        i = i + 1;
    }
    true
}

/// Whether a text is `word` up to case.
pub fn eq_ignore_ascii_case(text: &str, word: &str) -> (same: bool)
    ensures
        same == is_word(text@, word@),
{
    let bytes = text.as_bytes();
    let letters = word.as_bytes();
    if bytes.len() != letters.len() {
        return false;
    }
    assert(bytes@.subrange(0, bytes@.len() as int) =~= bytes@);
    occurs(bytes, letters, 0)
}

/// Whether `word` occurs in a text, up to case.
pub fn contains_ignore_ascii_case(text: &str, word: &str) -> (found: bool)
    ensures
        found == has_word(text@, word@),
{
    let bytes = text.as_bytes();
    let letters = word.as_bytes();
    if letters.len() > bytes.len() {
        return false;
    }
    let mut at: usize = 0;
    let last: usize = bytes.len() - letters.len();
    loop
        invariant
            at <= last,
            last == bytes@.len() - letters@.len(),
            bytes@ == encode_utf8(text@),
            letters@ == encode_utf8(word@),
            forall|k: int| 0 <= k < at ==> !#[trigger] occurs_at(bytes@, letters@, k),
        decreases last - at,
    {
        if occurs(bytes, letters, at) {
            return true;
        }
        if at == last {
            return false;
        }
        at = at + 1;
    }
}

/// The bytes of a text, with 32 added to those from 65 to 90.
pub open spec fn lowered(text: Seq<char>) -> Seq<u8> {
    Seq::new(
        encode_utf8(text).len(),
        |i: int|
            if 65 <= encode_utf8(text)[i] <= 90 {
                (encode_utf8(text)[i] + 32) as u8
            } else {
                encode_utf8(text)[i]
            },
    )
}

/// A text is a word up to case if and only if their bytes are the same, or the upper and the lower
/// case of the same letter, one by one.
pub proof fn law_only_case_is_ignored(text: Seq<char>, word: Seq<char>)
    ensures
        is_word(text, word) <==> {
            let (a, b) = (encode_utf8(text), encode_utf8(word));
            &&& a.len() == b.len()
            &&& forall|i: int|
                0 <= i < a.len() ==> {
                    ||| #[trigger] a[i] == b[i]
                    ||| 65 <= a[i] <= 90 && b[i] == a[i] + 32
                    ||| 65 <= b[i] <= 90 && a[i] == b[i] + 32
                }
        },
        is_word(text, word) <==> lowered(text) == lowered(word),
{
    let (a, b) = (encode_utf8(text), encode_utf8(word));
    if is_word(text, word) {
        assert forall|i: int| 0 <= i < a.len() implies {
            ||| #[trigger] a[i] == b[i]
            ||| 65 <= a[i] <= 90 && b[i] == a[i] + 32
            ||| 65 <= b[i] <= 90 && a[i] == b[i] + 32
        } by {
            assert(lower(a[i]) == lower(b[i]));
        }
        assert(lowered(text) =~= lowered(word));
    }
    if lowered(text) == lowered(word) {
        assert(a.len() == lowered(text).len() && b.len() == lowered(word).len());
        assert forall|i: int| 0 <= i < a.len() implies lower(#[trigger] a[i]) == lower(b[i]) by {
            assert(lowered(text)[i] == lowered(word)[i]);
        }
    }
}

/// A text has a word up to case if and only if the bytes of the word, up to case, stand in a row
/// somewhere in those of the text.
pub proof fn law_words_are_found_anywhere(text: Seq<char>, word: Seq<char>)
    ensures
        has_word(text, word) <==> exists|at: int|
            0 <= at && at + lowered(word).len() <= lowered(text).len() && #[trigger] lowered(
                text,
            ).subrange(at, at + lowered(word).len()) == lowered(word),
{
    let (a, b) = (encode_utf8(text), encode_utf8(word));
    let n = b.len();
    assert forall|at: int| #[trigger] occurs_at(a, b, at) <==> 0 <= at && at + n <= a.len() && lowered(
        text,
    ).subrange(at, at + n) == lowered(word) by {
        if 0 <= at && at + n <= a.len() {
            let part = a.subrange(at, at + n);
            let shown = lowered(text).subrange(at, at + n);
            if same_letters(part, b) {
                assert forall|i: int| 0 <= i < n implies shown[i] == lowered(word)[i] by {
                    assert(lower(part[i]) == lower(b[i]));
                }
                assert(shown =~= lowered(word));
            }
            if shown == lowered(word) {
                assert forall|i: int| 0 <= i < n implies lower(#[trigger] part[i]) == lower(b[i]) by {
                    assert(shown[i] == lowered(word)[i]);
                }
            }
        }
    }
    if has_word(text, word) {
        let at = choose|at: int| occurs_at(a, b, at);
        assert(lowered(text).subrange(at, at + lowered(word).len()) == lowered(word));
    }
    if exists|at: int|
        0 <= at && at + lowered(word).len() <= lowered(text).len() && #[trigger] lowered(
            text,
        ).subrange(at, at + lowered(word).len()) == lowered(word) {
        let at = choose|at: int|
            0 <= at && at + lowered(word).len() <= lowered(text).len() && #[trigger] lowered(
                text,
            ).subrange(at, at + lowered(word).len()) == lowered(word);
        assert(occurs_at(a, b, at));
    }
}

}
