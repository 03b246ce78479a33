//! A model of how a POSIX shell reads a command line into words, and the
//! proof that quoted text comes back from it unchanged.
//!
//! The model covers what quoting needs: blanks separate words, single quotes
//! keep everything up to the next single quote literally, and a backslash
//! outside quotes keeps the next character literally. A line whose meaning
//! would depend on anything else (expansions, operators, double quotes,
//! patterns) is not read at all.
use vstd::prelude::*;
use crate::quote::{escaped, quoted};

verus! {

/// A character that separates words outside quotes.
pub open spec fn is_blank(c: char) -> bool {
    c == ' ' || c == '\t' || c == '\n'
}

/// A character that, unquoted, means more to the shell than itself.
pub open spec fn is_shell_special(c: char) -> bool {
    c == '|' || c == '&' || c == ';' || c == '<' || c == '>' || c == '(' || c == ')' || c == '$'
        || c == '`' || c == '"' || c == '*' || c == '?' || c == '[' || c == ']' || c == '#' || c
        == '~' || c == '^' || c == '!' || c == '{' || c == '}'
}

/// A character that stands for itself in an unquoted word.
pub open spec fn is_plain(c: char) -> bool {
    !is_blank(c) && !is_shell_special(c) && c != '\'' && c != '\\'
}

/// A non-empty text that the shell reads as one word, equal to itself, without any quoting.
pub open spec fn is_plain_word(s: Seq<char>) -> bool {
    s.len() > 0 && forall|i: int| 0 <= i < s.len() ==> is_plain(#[trigger] s[i])
}

/// The word under construction, which starts out empty.
pub open spec fn word_so_far(word: Option<Seq<char>>) -> Seq<char> {
    match word {
        Some(w) => w,
        None => Seq::empty(),
    }
}

/// `words` with `first` put in front, where there are words at all.
pub open spec fn with_first(first: Seq<char>, words: Option<Seq<Seq<char>>>) -> Option<
    Seq<Seq<char>>,
> {
    match words {
        Some(ws) => Some(seq![first] + ws),
        None => None,
    }
}

/// Reads the rest of a line. `in_quote` tells whether a single quote is open
/// and `word` holds the word begun so far, if one has begun. The result is
/// `None` where the line ends inside a quote or after a lone backslash, or
/// holds an unquoted special character.
pub open spec fn read_words(s: Seq<char>, in_quote: bool, word: Option<Seq<char>>) -> Option<
    Seq<Seq<char>>,
>
    decreases s.len(),
{
    if s.len() == 0 {
        if in_quote {
            None
        } else {
            match word {
                Some(w) => Some(seq![w]),
                None => Some(Seq::empty()),
            }
        }
    } else {
        let c = s[0];
        let rest = s.drop_first();
        if in_quote {
            if c == '\'' {
                read_words(rest, false, word)
            } else {
                read_words(rest, true, Some(word_so_far(word).push(c)))
            }
        } else if c == '\'' {
            read_words(rest, true, Some(word_so_far(word)))
        } else if c == '\\' {
            if rest.len() == 0 {
                None
            } else {
                read_words(rest.drop_first(), false, Some(word_so_far(word).push(rest[0])))
            }
        } else if is_blank(c) {
            match word {
                Some(w) => with_first(w, read_words(rest, false, None)),
                None => read_words(rest, false, None),
            }
        } else if is_shell_special(c) {
            None
        } else {
            read_words(rest, false, Some(word_so_far(word).push(c)))
        }
    }
}

/// The words of a command line, as the shell would hand them to a program.
pub open spec fn shell_words(line: Seq<char>) -> Option<Seq<Seq<char>>> {
    read_words(line, false, None)
}

/// The one word that a text stands for, where it stands for exactly one.
pub open spec fn unquoted(text: Seq<char>) -> Option<Seq<char>> {
    match shell_words(text) {
        Some(ws) => if ws.len() == 1 {
            Some(ws[0])
        } else {
            None
        },
        None => None,
    }
}

/// Inside an open quote, the escaped form of `s` followed by the closing
/// quote adds exactly `s` to the word, and reading goes on outside the quote.
pub proof fn lemma_read_escaped(s: Seq<char>, word: Seq<char>, rest: Seq<char>)
    ensures
        read_words(escaped(s) + seq!['\''] + rest, true, Some(word)) == read_words(
            rest,
            false,
            Some(word + s),
        ),
    decreases s.len(),
{
    let line = escaped(s) + seq!['\''] + rest;
    if s.len() == 0 {
        assert(line.drop_first() =~= rest);
        assert(word + s =~= word);
    } else {
        let c = s[0];
        let tail = s.drop_first();
        let after = escaped(tail) + seq!['\''] + rest;
        if c == '\'' {
            let l1 = line.drop_first();
            assert(l1 =~= seq!['\\', '\'', '\''] + after);
            let l2 = l1.drop_first();
            assert(l2 =~= seq!['\'', '\''] + after);
            let l3 = l2.drop_first();
            assert(l3 =~= seq!['\''] + after);
            assert(l3.drop_first() =~= after);
            assert(read_words(line, true, Some(word)) == read_words(l1, false, Some(word)));
            assert(read_words(l1, false, Some(word)) == read_words(
                l3,
                false,
                Some(word.push('\'')),
            ));
            assert(read_words(l3, false, Some(word.push('\''))) == read_words(
                after,
                true,
                Some(word.push('\'')),
            ));
        } else {
            assert(line.drop_first() =~= after);
            assert(read_words(line, true, Some(word)) == read_words(
                after,
                true,
                Some(word.push(c)),
            ));
        }
        lemma_read_escaped(tail, word.push(c), rest);
        assert(word.push(c) + tail =~= word + s);
    }
}

/// Outside quotes, the quoted form of `s` adds exactly `s` to the word begun
/// so far, whatever follows it on the line.
pub proof fn lemma_read_quoted(s: Seq<char>, word: Option<Seq<char>>, rest: Seq<char>)
    ensures
        read_words(quoted(s) + rest, false, word) == read_words(
            rest,
            false,
            Some(word_so_far(word) + s),
        ),
{
    let line = quoted(s) + rest;
    assert(line.drop_first() =~= escaped(s) + seq!['\''] + rest);
    lemma_read_escaped(s, word_so_far(word), rest);
}

/// Outside quotes, plain characters add themselves to the word begun so far.
pub proof fn lemma_read_plain(s: Seq<char>, word: Option<Seq<char>>, rest: Seq<char>)
    requires
        is_plain_word(s),
    ensures
        read_words(s + rest, false, word) == read_words(
            rest,
            false,
            Some(word_so_far(word) + s),
        ),
    decreases s.len(),
{
    let line = s + rest;
    let c = s[0];
    let tail = s.drop_first();
    assert(is_plain(c));
    assert(line.drop_first() =~= tail + rest);
    let begun = Some(word_so_far(word).push(c));
    assert(read_words(line, false, word) == read_words(tail + rest, false, begun));
    if tail.len() == 0 {
        assert(tail + rest =~= rest);
        assert(word_so_far(word).push(c) =~= word_so_far(word) + s);
    } else {
        assert forall|i: int| 0 <= i < tail.len() implies is_plain(#[trigger] tail[i]) by {
            assert(tail[i] == s[i + 1]);
        }
        lemma_read_plain(tail, begun, rest);
        assert(word_so_far(begun) + tail =~= word_so_far(word) + s);
    }
}

/// Outside quotes, one space ends the word begun so far.
pub proof fn lemma_read_space(word: Seq<char>, rest: Seq<char>)
    ensures
        read_words(seq![' '] + rest, false, Some(word)) == with_first(
            word,
            read_words(rest, false, None),
        ),
{
    assert((seq![' '] + rest).drop_first() =~= rest);
}

/// Quoting round-trips: the shell reads the quoted form of any text as
/// exactly one word, and that word is the text itself.
pub proof fn quote_round_trip(s: Seq<char>)
    ensures
        shell_words(quoted(s)) == Some(seq![s]),
        unquoted(quoted(s)) == Some(s),
{
    lemma_read_quoted(s, None, Seq::empty());
    assert(quoted(s) + Seq::<char>::empty() =~= quoted(s));
    assert(Seq::<char>::empty() + s =~= s);
}

} // verus!
