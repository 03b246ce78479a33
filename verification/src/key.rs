//! Key names: the identifier grammar that every secret's name must match.
use vstd::prelude::*;
use vstd::string::*;
use crate::error::{StoreError, StoreErrorView};

verus! {

/// A letter of the ASCII alphabet, the only kind of character that may open a key.
pub open spec fn is_key_start(c: char) -> bool {
    ('a' <= c && c <= 'z') || ('A' <= c && c <= 'Z')
}

/// A character that may stand anywhere in a key: an ASCII letter, an ASCII digit or `_`.
pub open spec fn is_key_char(c: char) -> bool {
    is_key_start(c) || ('0' <= c && c <= '9') || c == '_'
}

/// The key grammar `[A-Za-z][A-Za-z0-9_]*` over a sequence of characters.
pub open spec fn valid_key(s: Seq<char>) -> bool {
    &&& s.len() > 0
    &&& is_key_start(s[0])
    &&& forall|i: int| 0 <= i < s.len() ==> is_key_char(#[trigger] s[i])
}

fn key_start(c: char) -> (r: bool)
    ensures
        r == is_key_start(c),
{
    (c >= 'a' && c <= 'z') || (c >= 'A' && c <= 'Z')
}

fn key_char(c: char) -> (r: bool)
    ensures
        r == is_key_char(c),
{
    key_start(c) || (c >= '0' && c <= '9') || c == '_'
}

/// Tells whether `key` matches the key grammar.
pub fn is_valid_key(key: &str) -> (r: bool)
    ensures
        r == valid_key(key@),
{
    let mut first: bool = true;
    for c in it: key.chars()
        invariant
            it.seq() == key@,
            first == (it.index() == 0),
            it.index() > 0 ==> is_key_start(key@[0]),
            forall|i: int| 0 <= i < it.index() ==> is_key_char(#[trigger] key@[i]),
    {
        if first {
            if !key_start(c) {
                return false;
            }
            first = false;
        }
        if !key_char(c) {
            return false;
        }
    }
    !first
}

/// The grammar accepts no text that is empty, that begins with anything but
/// a letter, or that holds a character other than a letter, a digit or `_`;
/// and it accepts every text that begins with a letter and holds such
/// characters only.
pub proof fn grammar_is_exact(s: Seq<char>)
    ensures
        s.len() == 0 ==> !valid_key(s),
        s.len() > 0 && !is_key_start(s[0]) ==> !valid_key(s),
        (exists|i: int| 0 <= i < s.len() && !is_key_char(s[i])) ==> !valid_key(s),
        s.len() > 0 && is_key_start(s[0]) && (forall|i: int|
            0 <= i < s.len() ==> is_key_char(#[trigger] s[i])) ==> valid_key(s),
{
}

/// The first key of `keys` that does not match the key grammar, if there is one.
pub open spec fn first_invalid(keys: Seq<Seq<char>>) -> Option<Seq<char>>
    decreases keys.len(),
{
    if keys.len() == 0 {
        None
    } else if !valid_key(keys[0]) {
        Some(keys[0])
    } else {
        first_invalid(keys.drop_first())
    }
}

/// Every key of `keys` matches the key grammar.
pub open spec fn all_valid(keys: Seq<Seq<char>>) -> bool {
    forall|i: int| 0 <= i < keys.len() ==> valid_key(#[trigger] keys[i])
}

/// No key is reported exactly when all keys are valid, and a reported key is
/// invalid and is preceded by valid keys only.
pub proof fn lemma_first_invalid(keys: Seq<Seq<char>>)
    ensures
        first_invalid(keys) is None <==> all_valid(keys),
        first_invalid(keys) matches Some(k) ==> exists|i: int|
            0 <= i < keys.len() && keys[i] == k && !valid_key(k) && all_valid(keys.take(i)),
    decreases keys.len(),
{
    if keys.len() == 0 {
    } else if !valid_key(keys[0]) {
        assert(all_valid(keys.take(0)));
    } else {
        let tail = keys.drop_first();
        lemma_first_invalid(tail);
        if first_invalid(tail) is None {
            assert forall|i: int| 0 <= i < keys.len() implies valid_key(#[trigger] keys[i]) by {
                if i > 0 {
                    assert(keys[i] == tail[i - 1]);
                }
            }
        } else {
            let k = first_invalid(tail)->Some_0;
            let j = choose|j: int|
                0 <= j < tail.len() && tail[j] == k && !valid_key(k) && all_valid(tail.take(j));
            assert(keys[j + 1] == tail[j]);
            assert forall|i: int| 0 <= i < j + 1 implies valid_key(
                #[trigger] keys.take(j + 1)[i],
            ) by {
                if i > 0 {
                    assert(keys.take(j + 1)[i] == tail.take(j)[i - 1]);
                }
            }
            assert(!all_valid(keys));
        }
    }
}

/// Checks every key against the key grammar and fails on the first that does not match it.
pub fn validate_keys(keys: &[String]) -> (r: Result<(), StoreError>)
    ensures
        match first_invalid(keys.deep_view()) {
            None => r is Ok,
            Some(k) => r matches Err(e) && e@ == StoreErrorView::InvalidKey(k),
        },
{
    let mut i: usize = 0;
    assert(keys.deep_view().skip(0) =~= keys.deep_view());
    while i < keys.len()
        invariant
            i <= keys.len(),
            first_invalid(keys.deep_view()) == first_invalid(keys.deep_view().skip(i as int)),
        decreases keys.len() - i,
    {
        let ghost rest = keys.deep_view().skip(i as int);
        assert(rest[0] == keys[i as int]@);
        assert(rest.drop_first() =~= keys.deep_view().skip(i + 1));
        if !is_valid_key(keys[i].as_str()) {
            return Err(StoreError::InvalidKey(keys[i].clone()));
        }
        i += 1;
    }
    Ok(())
}

} // verus!
