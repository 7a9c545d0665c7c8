//! Character sequences: repetition, joining with a separator, and counting.

use vstd::prelude::*;

verus! {

/// `unit` written `n` times in a row.
pub open spec fn repeated(unit: Seq<char>, n: nat) -> Seq<char>
    decreases n,
{
    if n == 0 {
        Seq::empty()
    } else {
        repeated(unit, (n - 1) as nat) + unit
    }
}

/// One character written `n` times is the text of length `n` that holds the
/// character at every place.
pub proof fn lemma_repeated_char(c: char, n: nat)
    ensures
        repeated(seq![c], n) == Seq::new(n, |i: int| c),
    decreases n,
{
    if n > 0 {
        lemma_repeated_char(c, (n - 1) as nat);
    }
    assert(repeated(seq![c], n) =~= Seq::new(n, |i: int| c));
}

/// The parts in order, with `sep` between each two neighbours and nowhere else.
pub open spec fn joined(parts: Seq<Seq<char>>, sep: Seq<char>) -> Seq<char>
    decreases parts.len(),
{
    if parts.len() == 0 {
        Seq::empty()
    } else if parts.len() == 1 {
        parts[0]
    } else {
        joined(parts.drop_last(), sep) + sep + parts.last()
    }
}

/// Whether `part` stands in `whole` from position `start` on.
pub open spec fn stands_at(whole: Seq<char>, start: int, part: Seq<char>) -> bool {
    &&& 0 <= start
    &&& start + part.len() <= whole.len()
    &&& whole.subrange(start, start + part.len()) == part
}

/// How often `c` stands in `text`.
pub open spec fn occurrences(text: Seq<char>, c: char) -> nat
    decreases text.len(),
{
    if text.len() == 0 {
        0
    } else {
        occurrences(text.drop_last(), c) + if text.last() == c {
            1nat
        } else {
            0nat
        }
    }
}

/// A character stands in two texts written one after the other as often as
/// in both of them together.
pub proof fn lemma_occurrences_concat(first: Seq<char>, second: Seq<char>, c: char)
    ensures
        occurrences(first + second, c) == occurrences(first, c) + occurrences(second, c),
    decreases second.len(),
{
    if second.len() > 0 {
        lemma_occurrences_concat(first, second.drop_last(), c);
        assert((first + second).drop_last() =~= first + second.drop_last());
    }
}

/// A character that stands nowhere in a text occurs in it zero times, and
/// the other way round.
pub proof fn lemma_occurrences_none(text: Seq<char>, c: char)
    ensures
        occurrences(text, c) == 0 <==> !text.contains(c),
    decreases text.len(),
{
    if text.len() > 0 {
        lemma_occurrences_none(text.drop_last(), c);
        if text.last() != c && text.contains(c) {
            let i = choose|i: int| 0 <= i < text.len() && text[i] == c;
            assert(text.drop_last()[i] == c);
        }
    }
}

/// A character that does not stand in `unit` does not stand in any number
/// of repetitions of it.
pub proof fn lemma_occurrences_repeated_none(unit: Seq<char>, n: nat, c: char)
    requires
        occurrences(unit, c) == 0,
    ensures
        occurrences(repeated(unit, n), c) == 0,
    decreases n,
{
    if n > 0 {
        lemma_occurrences_repeated_none(unit, (n - 1) as nat, c);
        lemma_occurrences_concat(repeated(unit, (n - 1) as nat), unit, c);
    }
}

/// Stated of std's `String::push` and not proved here: the call puts `c` at
/// the end of the string and leaves what was there before as it was.
pub assume_specification[ String::push ](s: &mut String, c: char)
    ensures
        final(s)@ == old(s)@.push(c),
;

/// Builds the string that holds `unit` `n` times in a row.
pub fn repeat_str(unit: &str, n: usize) -> (out: String)
    ensures
        out@ == repeated(unit@, n as nat),
{
    let mut out = String::new();
    let mut i: usize = 0;
    while i < n
        invariant
            i <= n,
            out@ == repeated(unit@, i as nat),
        decreases n - i,
    {
        out.append(unit);
        i = i + 1;
    }
    out
}

/// Builds the string that holds the parts in order with `sep` between them.
pub fn join_strings(parts: &Vec<String>, sep: &str) -> (out: String)
    ensures
        out@ == joined(parts.deep_view(), sep@),
{
    let ghost texts = parts.deep_view();
    let mut out = String::new();
    let mut i: usize = 0;
    while i < parts.len()
        invariant
            i <= parts.len(),
            texts == parts.deep_view(),
            out@ == joined(texts.take(i as int), sep@),
        decreases parts.len() - i,
    {
        if i > 0 {
            out.append(sep);
        }
        out.append(parts[i].as_str());
        proof {
            assert(texts.take(i + 1).drop_last() == texts.take(i as int));
        }
        i = i + 1;
    }
    proof {
        assert(texts.take(i as int) == texts);
    }
    out
}

} // verus!
