//! How a list of names is written down as JSON, without blanks.

use crate::changes::hex_digit;
use vstd::prelude::*;

verus! {

/// A character inside a string: quotes, backslashes and control characters are
/// escaped.
pub open spec fn json_char(c: char) -> Seq<char> {
    if c == '"' {
        seq!['\\', '"']
    } else if c == '\\' {
        seq!['\\', '\\']
    } else if c == '\u{8}' {
        seq!['\\', 'b']
    } else if c == '\t' {
        seq!['\\', 't']
    } else if c == '\n' {
        seq!['\\', 'n']
    } else if c == '\u{c}' {
        seq!['\\', 'f']
    } else if c == '\r' {
        seq!['\\', 'r']
    } else if ' ' > c {
        seq!['\\', 'u', '0', '0', hex_digit(c as int / 16), hex_digit(c as int % 16)]
    } else {
        seq![c]
    }
}

/// The characters of `text`, one after the other.
pub open spec fn json_chars(text: Seq<char>) -> Seq<char>
    decreases text.len(),
{
    if text.len() == 0 {
        Seq::empty()
    } else {
        json_chars(text.drop_last()) + json_char(text.last())
    }
}

/// A string.
pub open spec fn json_string(text: Seq<char>) -> Seq<char> {
    seq!['"'] + json_chars(text) + seq!['"']
}

/// A string, or `null` in place of none.
pub open spec fn json_optional(text: Option<Seq<char>>) -> Seq<char> {
    match text {
        Some(text) => json_string(text),
        None => "null"@,
    }
}

/// An array of two.
pub open spec fn json_pair(pair: (Seq<char>, Option<Seq<char>>)) -> Seq<char> {
    seq!['['] + json_string(pair.0) + seq![','] + json_optional(pair.1) + seq![']']
}

/// The pairs with commas between them.
pub open spec fn json_pairs(pairs: Seq<(Seq<char>, Option<Seq<char>>)>) -> Seq<char>
    decreases pairs.len(),
{
    if pairs.len() == 0 {
        Seq::empty()
    } else if pairs.len() == 1 {
        json_pair(pairs[0])
    } else {
        json_pairs(pairs.drop_last()) + seq![','] + json_pair(pairs.last())
    }
}

/// An array of pairs.
pub open spec fn json_list(pairs: Seq<(Seq<char>, Option<Seq<char>>)>) -> Seq<char> {
    seq!['['] + json_pairs(pairs) + seq![']']
}

/// Text is written down piece by piece.
pub proof fn lemma_json_chars_in_pieces(a: Seq<char>, b: Seq<char>)
    ensures
        json_chars(a + b) == json_chars(a) + json_chars(b),
    decreases b.len(),
{
    if b.len() == 0 {
        assert(a + b =~= a);
        assert(json_chars(a) + json_chars(b) =~= json_chars(a));
    } else {
        assert((a + b).drop_last() =~= a + b.drop_last());
        lemma_json_chars_in_pieces(a, b.drop_last());
        assert(json_chars(a + b) =~= json_chars(a) + json_chars(b));
    }
}

/// A character that is no quote, no backslash and no control character stands for
/// itself; the others begin with a backslash.
pub proof fn lemma_json_char(c: char)
    ensures
        ({
            let special = c == '"' || c == '\\' || (c as int) <= 0x1f;
            &&& json_chars(seq![c]) == json_char(c)
            &&& !special ==> json_char(c) == seq![c]
            &&& special ==> json_char(c).len() >= 2 && json_char(c)[0] == '\\'
        }),
{
    reveal_with_fuel(json_chars, 2);
    assert(seq![c].drop_last() =~= Seq::empty());
    assert(json_chars(seq![c]) =~= json_char(c));
}

/// A list is in brackets; one pair more stands at its end, after a comma unless it is
/// the first.
pub proof fn lemma_one_more_pair(
    pairs: Seq<(Seq<char>, Option<Seq<char>>)>,
    fname: Seq<char>,
    name: Option<Seq<char>>,
)
    ensures
        json_list(Seq::empty()) == seq!['[', ']'],
        json_list(pairs).len() >= 2,
        ({
            let pair = seq!['[', '"'] + json_chars(fname) + seq!['"', ','] + match name {
                Some(name) => seq!['"'] + json_chars(name) + seq!['"'],
                None => "null"@,
            } + seq![']'];
            json_list(pairs.push((fname, name))) == json_list(pairs).drop_last() + if pairs.len()
                == 0 {
                Seq::empty()
            } else {
                seq![',']
            } + pair + seq![']']
        }),
{
    let added = pairs.push((fname, name));
    let pair = seq!['[', '"'] + json_chars(fname) + seq!['"', ','] + match name {
        Some(name) => seq!['"'] + json_chars(name) + seq!['"'],
        None => "null"@,
    } + seq![']'];
    assert(json_list(Seq::empty()) =~= seq!['[', ']']);
    assert(json_pair((fname, name)) =~= pair);
    assert(added.drop_last() =~= pairs);
    assert(json_list(pairs).drop_last() =~= seq!['['] + json_pairs(pairs));
    if pairs.len() == 0 {
        assert(json_pairs(added) =~= pair);
        assert(json_list(added) =~= json_list(pairs).drop_last() + Seq::empty() + pair + seq![']']);
    } else {
        assert(json_list(added) =~= json_list(pairs).drop_last() + seq![','] + pair + seq![']']);
    }
}

} // verus!
