//! Shell quoting: turning any text into one single-quoted POSIX shell word.
use vstd::prelude::*;
use vstd::string::*;

verus! {

/// What one character of the value becomes between the outer quotes: a single
/// quote turns into `'\''` (close, escaped quote, reopen), anything else stays.
pub open spec fn escape_char(c: char) -> Seq<char> {
    if c == '\'' {
        seq!['\'', '\\', '\'', '\'']
    } else {
        seq![c]
    }
}

/// The value with every character escaped, in order.
pub open spec fn escaped(s: Seq<char>) -> Seq<char>
    decreases s.len(),
{
    if s.len() == 0 {
        Seq::empty()
    } else {
        escape_char(s[0]) + escaped(s.drop_first())
    }
}

/// The quoted form of a value: the escaped value between two single quotes.
pub open spec fn quoted(s: Seq<char>) -> Seq<char> {
    seq!['\''] + escaped(s) + seq!['\'']
}

/// Escaping distributes over appending one character.
pub proof fn lemma_escaped_push(s: Seq<char>, c: char)
    ensures
        escaped(s.push(c)) == escaped(s) + escape_char(c),
    decreases s.len(),
{
    if s.len() == 0 {
        assert(s.push(c).drop_first() =~= s);
        assert(escaped(s.push(c)) =~= escape_char(c) + escaped(s));
        assert(escaped(s) =~= Seq::<char>::empty());
    } else {
        assert(s.push(c).drop_first() =~= s.drop_first().push(c));
        lemma_escaped_push(s.drop_first(), c);
        assert(escaped(s.push(c)) =~= escaped(s) + escape_char(c));
    }
}

/// Wraps `value` in single quotes, replacing each single quote inside by `'\''`.
pub fn quote(value: &str) -> (r: String)
    ensures
        r@ == quoted(value@),
{
    let mut out = String::from_str("'");
    proof {
        reveal_strlit("'");
        reveal_strlit("'\\''");
        assert(value@.take(0) =~= Seq::<char>::empty());
        assert(out@ =~= seq!['\''] + escaped(value@.take(0)));
    }
    for c in it: value.chars()
        invariant
            it.seq() == value@,
            out@ == seq!['\''] + escaped(value@.take(it.index())),
            "'\\''"@ == seq!['\'', '\\', '\'', '\''],
    {
        proof {
            let i = it.index();
            assert(value@.take(i + 1) =~= value@.take(i).push(c));
            lemma_escaped_push(value@.take(i), c);
        }
        if c == '\'' {
            out.append("'\\''");
        } else {
            out.push(c);
        }
        assert(out@ =~= seq!['\''] + escaped(value@.take(it.index() + 1)));
    }
    proof {
        assert(value@.take(value@.len() as int) =~= value@);
    }
    out.append("'");
    out
}

} // verus!
