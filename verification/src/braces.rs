//! Counting braces: the text holds one opening and one closing brace for each
//! block, besides those that the lines, headers and indentation bring along.

use vstd::prelude::*;

use crate::block::{entries_text, CodeView};
use crate::text::{
    lemma_occurrences_concat, lemma_occurrences_none, lemma_occurrences_repeated_none, occurrences,
    repeated,
};

verus! {

/// How many blocks the entries hold, nested ones included.
pub open spec fn blocks_in_entries(codes: Seq<CodeView>) -> nat
    decreases codes,
{
    if codes.len() == 0 {
        0
    } else {
        blocks_in_entries(codes.drop_last()) + blocks_in_entry(codes.last())
    }
}

/// How many blocks the entry holds: none for a line, and for a block itself
/// and those inside it.
pub open spec fn blocks_in_entry(code: CodeView) -> nat
    decreases code,
{
    match code {
        CodeView::EmptyLine => 0,
        CodeView::Line(_) => 0,
        CodeView::Block(block) => 1 + blocks_in_entries(block.codes),
    }
}

/// How often `c` is written for the entries apart from the braces of their
/// blocks: in indentation, in headers and in lines.
pub open spec fn loose_in_entries(codes: Seq<CodeView>, level: nat, unit: Seq<char>, c: char) -> nat
    decreases codes,
{
    if codes.len() == 0 {
        0
    } else {
        loose_in_entries(codes.drop_last(), level, unit, c) + loose_in_entry(
            codes.last(),
            level,
            unit,
            c,
        )
    }
}

/// How often `c` is written for one entry apart from the braces of blocks.
pub open spec fn loose_in_entry(code: CodeView, level: nat, unit: Seq<char>, c: char) -> nat
    decreases code,
{
    match code {
        CodeView::EmptyLine => 0,
        CodeView::Line(line) => occurrences(repeated(unit, level), c) + occurrences(line, c),
        CodeView::Block(block) => {
            occurrences(repeated(unit, level), c) + occurrences(block.header(), c)
                + loose_in_entries(block.codes, level + 1, unit, c)
                + occurrences(repeated(unit, level), c)
        },
    }
}

/// What the fixed pieces of the text hold of a brace `c`: a line break holds
/// none, and the two brace lines end in one opening and one closing brace.
proof fn lemma_fixed_pieces(c: char)
    requires
        c == '{' || c == '}',
    ensures
        occurrences("\n"@, c) == 0,
        occurrences("{\n"@, c) == if c == '{' {
            1nat
        } else {
            0nat
        },
        occurrences("}\n"@, c) == if c == '}' {
            1nat
        } else {
            0nat
        },
{
    reveal_strlit("\n");
    reveal_strlit("{\n");
    reveal_strlit("}\n");
    reveal_with_fuel(occurrences, 3);
}

/// A brace stands in the text of the entries once for each block, and as
/// often again as lines, headers and indentation hold it.
pub proof fn lemma_brace_occurrences(codes: Seq<CodeView>, level: nat, unit: Seq<char>, c: char)
    requires
        c == '{' || c == '}',
    ensures
        occurrences(entries_text(codes, level, unit), c) == blocks_in_entries(codes)
            + loose_in_entries(codes, level, unit, c),
    decreases codes,
{
    if codes.len() > 0 {
        lemma_brace_occurrences(codes.drop_last(), level, unit, c);
        lemma_brace_occurrences_entry(codes.last(), level, unit, c);
        lemma_occurrences_concat(
            entries_text(codes.drop_last(), level, unit),
            codes.last().text(level, unit),
            c,
        );
    }
}

/// A brace stands in the text of one entry once for each block that the
/// entry holds, and as often again as lines, headers and indentation hold it.
pub proof fn lemma_brace_occurrences_entry(code: CodeView, level: nat, unit: Seq<char>, c: char)
    requires
        c == '{' || c == '}',
    ensures
        occurrences(code.text(level, unit), c) == blocks_in_entry(code) + loose_in_entry(
            code,
            level,
            unit,
            c,
        ),
    decreases code,
{
    lemma_fixed_pieces(c);
    let indent = repeated(unit, level);
    match code {
        CodeView::EmptyLine => {},
        CodeView::Line(line) => {
            lemma_occurrences_concat(indent, line, c);
            lemma_occurrences_concat(indent + line, "\n"@, c);
        },
        CodeView::Block(block) => {
            let inner = entries_text(block.codes, level + 1, unit);
            lemma_brace_occurrences(block.codes, level + 1, unit, c);
            lemma_occurrences_concat(indent, block.header(), c);
            lemma_occurrences_concat(indent + block.header(), "{\n"@, c);
            lemma_occurrences_concat(indent, "}\n"@, c);
            lemma_occurrences_concat(block.opening(level, unit), inner, c);
            lemma_occurrences_concat(
                block.opening(level, unit) + inner,
                block.closing(level, unit),
                c,
            );
        },
    }
}

/// The text holds as many opening braces as closing braces exactly where
/// lines, headers and indentation bring along as many of the one as of the
/// other.
pub proof fn lemma_braces_balanced(codes: Seq<CodeView>, level: nat, unit: Seq<char>)
    ensures
        occurrences(entries_text(codes, level, unit), '{') == occurrences(
            entries_text(codes, level, unit),
            '}',
        ) <==> loose_in_entries(codes, level, unit, '{') == loose_in_entries(
            codes,
            level,
            unit,
            '}',
        ),
{
    lemma_brace_occurrences(codes, level, unit, '{');
    lemma_brace_occurrences(codes, level, unit, '}');
}

/// Whether the text holds neither an opening nor a closing brace.
pub open spec fn brace_free(text: Seq<char>) -> bool {
    !text.contains('{') && !text.contains('}')
}

/// Whether no line and no header of the entries holds a brace, at any depth.
pub open spec fn entries_brace_free(codes: Seq<CodeView>) -> bool
    decreases codes,
{
    forall|i: int| 0 <= i < codes.len() ==> entry_brace_free(#[trigger] codes[i])
}

/// Whether no line and no header of the entry holds a brace, at any depth.
pub open spec fn entry_brace_free(code: CodeView) -> bool
    decreases code,
{
    match code {
        CodeView::EmptyLine => true,
        CodeView::Line(line) => brace_free(line),
        CodeView::Block(block) => brace_free(block.header()) && entries_brace_free(block.codes),
    }
}

/// Where neither the unit of indentation nor any line or header holds a
/// brace, nothing but the blocks brings braces along.
proof fn lemma_loose_none(codes: Seq<CodeView>, level: nat, unit: Seq<char>, c: char)
    requires
        c == '{' || c == '}',
        brace_free(unit),
        entries_brace_free(codes),
    ensures
        loose_in_entries(codes, level, unit, c) == 0,
    decreases codes,
{
    if codes.len() > 0 {
        assert(entries_brace_free(codes.drop_last())) by {
            assert forall|i: int| 0 <= i < codes.drop_last().len() implies entry_brace_free(
                #[trigger] codes.drop_last()[i],
            ) by {
                assert(codes.drop_last()[i] == codes[i]);
            }
        }
        lemma_loose_none(codes.drop_last(), level, unit, c);
        lemma_occurrences_none(unit, c);
        lemma_occurrences_repeated_none(unit, level, c);
        match codes.last() {
            CodeView::EmptyLine => {},
            CodeView::Line(line) => {
                lemma_occurrences_none(line, c);
            },
            CodeView::Block(block) => {
                lemma_occurrences_none(block.header(), c);
                lemma_loose_none(block.codes, level + 1, unit, c);
            },
        }
        assert(loose_in_entry(codes.last(), level, unit, c) == 0);
    }
}

/// Where neither the unit of indentation nor any line or header holds a
/// brace, the text holds one opening and one closing brace for each block and
/// no others.
pub proof fn lemma_braces_of_blocks_only(codes: Seq<CodeView>, level: nat, unit: Seq<char>)
    requires
        brace_free(unit),
        entries_brace_free(codes),
    ensures
        occurrences(entries_text(codes, level, unit), '{') == blocks_in_entries(codes),
        occurrences(entries_text(codes, level, unit), '}') == blocks_in_entries(codes),
{
    lemma_brace_occurrences(codes, level, unit, '{');
    lemma_brace_occurrences(codes, level, unit, '}');
    lemma_loose_none(codes, level, unit, '{');
    lemma_loose_none(codes, level, unit, '}');
}

} // verus!
