//! Where each entry stands in the text: entries keep their order, every line
//! stands behind one unit of indentation for each block around it, and the
//! two braces of a block stand behind the same indentation.

use vstd::prelude::*;

use crate::block::{entries_text, BlockView, CodeView};
use crate::text::{repeated, stands_at};

verus! {

/// Where there are no entries there is no text, and a block without header
/// and entries is its two brace lines: at depth 0 an opening brace, a line
/// break, a closing brace and a line break, whatever the unit of indentation.
pub proof fn lemma_empty_texts(depth: nat, unit: Seq<char>)
    ensures
        entries_text(Seq::empty(), depth, unit) == Seq::<char>::empty(),
        BlockView::empty().text(depth, unit) == repeated(unit, depth) + "{\n"@ + repeated(
            unit,
            depth,
        ) + "}\n"@,
        BlockView::empty().text(0, unit) == "{\n}\n"@,
{
    reveal_strlit("{\n");
    reveal_strlit("}\n");
    reveal_strlit("{\n}\n");
    assert(BlockView::empty().text(depth, unit) =~= repeated(unit, depth) + "{\n"@ + repeated(
        unit,
        depth,
    ) + "}\n"@);
    assert(BlockView::empty().text(0, unit) =~= "{\n}\n"@);
}

/// The text of two runs of entries, one after the other, is the text of the
/// first run followed by the text of the second.
pub proof fn lemma_entries_text_concat(
    first: Seq<CodeView>,
    second: Seq<CodeView>,
    level: nat,
    unit: Seq<char>,
)
    ensures
        entries_text(first + second, level, unit) == entries_text(first, level, unit)
            + entries_text(second, level, unit),
    decreases second.len(),
{
    if second.len() == 0 {
        assert(first + second =~= first);
    } else {
        lemma_entries_text_concat(first, second.drop_last(), level, unit);
        assert((first + second).drop_last() =~= first + second.drop_last());
    }
}

/// An entry that is put after the last entry is written after all the text
/// that was there, and that text stays as it was.
pub proof fn lemma_inserted_entry_comes_last(
    codes: Seq<CodeView>,
    code: CodeView,
    level: nat,
    unit: Seq<char>,
)
    ensures
        entries_text(codes.push(code), level, unit) == entries_text(codes, level, unit)
            + code.text(level, unit),
{
    assert(codes.push(code).drop_last() =~= codes);
}

/// Where the text of entry `i` starts: behind the text of the entries before
/// it.
pub open spec fn entry_start(codes: Seq<CodeView>, i: int, level: nat, unit: Seq<char>) -> int {
    entries_text(codes.take(i), level, unit).len() as int
}

/// Entries are written in the order in which they stand: the text is the
/// text of the entries before entry `i`, then the text of entry `i`, then the
/// text of the entries after it.
pub proof fn lemma_entries_in_order(codes: Seq<CodeView>, i: int, level: nat, unit: Seq<char>)
    requires
        0 <= i < codes.len(),
    ensures
        entries_text(codes, level, unit) == entries_text(codes.take(i), level, unit)
            + codes[i].text(level, unit) + entries_text(codes.skip(i + 1), level, unit),
        stands_at(
            entries_text(codes, level, unit),
            entry_start(codes, i, level, unit),
            codes[i].text(level, unit),
        ),
        entry_start(codes, i + 1, level, unit) == entry_start(codes, i, level, unit)
            + codes[i].text(level, unit).len(),
{
    let upto = codes.take(i + 1);
    let after = codes.skip(i + 1);
    assert(upto.drop_last() =~= codes.take(i));
    assert(upto + after =~= codes);
    lemma_entries_text_concat(upto, after, level, unit);
    let start = entry_start(codes, i, level, unit);
    let own = codes[i].text(level, unit);
    assert(entries_text(codes, level, unit).subrange(start, start + own.len()) =~= own);
}

/// An entry that stands earlier is written earlier: its text ends before the
/// text of any later entry starts.
pub proof fn lemma_entry_starts_ordered(
    codes: Seq<CodeView>,
    i: int,
    j: int,
    level: nat,
    unit: Seq<char>,
)
    requires
        0 <= i < j <= codes.len(),
    ensures
        entry_start(codes, i, level, unit) + codes[i].text(level, unit).len() <= entry_start(
            codes,
            j,
            level,
            unit,
        ),
    decreases j - i,
{
    lemma_entries_in_order(codes, i, level, unit);
    if i + 1 < j {
        lemma_entry_starts_ordered(codes, i + 1, j, level, unit);
    }
}

/// Whether `path` leads to an entry: its first index picks one of `codes`,
/// and each further index picks an entry of the block that the indices before
/// it lead to.
pub open spec fn leads_to_entry(codes: Seq<CodeView>, path: Seq<int>) -> bool
    decreases path.len(),
{
    &&& path.len() > 0
    &&& 0 <= path[0] < codes.len()
    &&& path.len() > 1 ==> {
        &&& codes[path[0]] is Block
        &&& leads_to_entry(codes[path[0]]->Block_0.codes, path.drop_first())
    }
}

/// The entry that `path` leads to.
pub open spec fn entry_at(codes: Seq<CodeView>, path: Seq<int>) -> CodeView
    recommends
        leads_to_entry(codes, path),
    decreases path.len(),
{
    if path.len() <= 1 {
        codes[path[0]]
    } else {
        entry_at(codes[path[0]]->Block_0.codes, path.drop_first())
    }
}

/// How many blocks stand around the entry that `path` leads to, where
/// `level` blocks stand around `codes`: one more for each index of `path` but
/// the first.
pub open spec fn blocks_around(path: Seq<int>, level: nat) -> nat
    recommends
        path.len() > 0,
{
    (level + path.len() - 1) as nat
}

/// Where the text of the entry that `path` leads to starts in the text of
/// `codes`.
pub open spec fn start_at(codes: Seq<CodeView>, path: Seq<int>, level: nat, unit: Seq<char>) -> int
    recommends
        leads_to_entry(codes, path),
    decreases path.len(),
{
    if path.len() <= 1 {
        entry_start(codes, path[0], level, unit)
    } else {
        let block = codes[path[0]]->Block_0;
        entry_start(codes, path[0], level, unit) + block.opening(level, unit).len() + start_at(
            block.codes,
            path.drop_first(),
            level + 1,
            unit,
        )
    }
}

/// However deep an entry stands, its text is found in the whole text as it
/// is, written for the number of blocks that stand around it.
pub proof fn lemma_entry_text_in_place(
    codes: Seq<CodeView>,
    path: Seq<int>,
    level: nat,
    unit: Seq<char>,
)
    requires
        leads_to_entry(codes, path),
    ensures
        stands_at(
            entries_text(codes, level, unit),
            start_at(codes, path, level, unit),
            entry_at(codes, path).text(blocks_around(path, level), unit),
        ),
    decreases path.len(),
{
    let i = path[0];
    let whole = entries_text(codes, level, unit);
    let before = entry_start(codes, i, level, unit);
    let own = codes[i].text(level, unit);
    lemma_entries_in_order(codes, i, level, unit);
    if path.len() > 1 {
        let block = codes[i]->Block_0;
        let rest = path.drop_first();
        let inner = entries_text(block.codes, level + 1, unit);
        let start = start_at(block.codes, rest, level + 1, unit);
        let part = entry_at(codes, path).text(blocks_around(path, level), unit);
        lemma_entry_text_in_place(block.codes, rest, level + 1, unit);
        assert(blocks_around(rest, level + 1) == blocks_around(path, level));
        assert(stands_at(inner, start, part));
        assert(own == block.opening(level, unit) + inner + block.closing(level, unit));
        let shift = before + block.opening(level, unit).len();
        assert(whole.subrange(shift + start, shift + start + part.len()) =~= inner.subrange(
            start,
            start + part.len(),
        ));
    }
}

/// A line stands behind one unit of indentation for each block around it, and
/// behind nothing else: where `path` leads to a line, the text holds, from
/// the place where the entry starts, the unit once for each block around the
/// line, then the line as it is, then a line break.
pub proof fn lemma_line_indentation(
    codes: Seq<CodeView>,
    path: Seq<int>,
    level: nat,
    unit: Seq<char>,
)
    requires
        leads_to_entry(codes, path),
        entry_at(codes, path) is Line,
    ensures
        stands_at(
            entries_text(codes, level, unit),
            start_at(codes, path, level, unit),
            repeated(unit, blocks_around(path, level)) + entry_at(codes, path)->Line_0 + "\n"@,
        ),
{
    lemma_entry_text_in_place(codes, path, level, unit);
}

/// A line with no block around it is written without indentation.
pub proof fn lemma_line_without_blocks(line: Seq<char>, unit: Seq<char>)
    ensures
        CodeView::Line(line).text(0, unit) == line + "\n"@,
{
    assert(repeated(unit, 0) + line =~= line);
}

/// Inside a block at depth `depth`, a line stands behind the indentation of
/// the block's braces and one unit more.
pub proof fn lemma_line_one_unit_deeper(block: BlockView, i: int, depth: nat, unit: Seq<char>)
    requires
        0 <= i < block.codes.len(),
        block.codes[i] is Line,
    ensures
        stands_at(
            block.text(depth, unit),
            block.opening(depth, unit).len() + entry_start(block.codes, i, depth + 1, unit),
            repeated(unit, depth) + unit + block.codes[i]->Line_0 + "\n"@,
        ),
{
    let inner = entries_text(block.codes, depth + 1, unit);
    let start = entry_start(block.codes, i, depth + 1, unit);
    let written = block.codes[i].text(depth + 1, unit);
    lemma_entries_in_order(block.codes, i, depth + 1, unit);
    assert(stands_at(inner, start, written));
    let shift = block.opening(depth, unit).len() as int;
    assert(block.text(depth, unit).subrange(shift + start, shift + start + written.len())
        =~= inner.subrange(start, start + written.len()));
}

/// The two braces of a block stand behind the same indentation: where `path`
/// leads to a block with `depth` blocks around it, the text holds, from the
/// place where the entry starts, `unit` written `depth` times, the header and
/// the opening brace; and behind the entries of the block, `unit` written
/// `depth` times and the closing brace.
pub proof fn lemma_braces_aligned(
    codes: Seq<CodeView>,
    path: Seq<int>,
    level: nat,
    unit: Seq<char>,
)
    requires
        leads_to_entry(codes, path),
        entry_at(codes, path) is Block,
    ensures
        ({
            let whole = entries_text(codes, level, unit);
            let start = start_at(codes, path, level, unit);
            let depth = blocks_around(path, level);
            let block = entry_at(codes, path)->Block_0;
            let opening = repeated(unit, depth) + block.header() + "{\n"@;
            let inner = entries_text(block.codes, depth + 1, unit);
            let closing = repeated(unit, depth) + "}\n"@;
            &&& stands_at(whole, start, opening)
            &&& stands_at(whole, start + opening.len() + inner.len(), closing)
        }),
{
    let whole = entries_text(codes, level, unit);
    let start = start_at(codes, path, level, unit);
    let depth = blocks_around(path, level);
    let block = entry_at(codes, path)->Block_0;
    let opening = block.opening(depth, unit);
    let inner = entries_text(block.codes, depth + 1, unit);
    let closing = block.closing(depth, unit);
    let written = block.text(depth, unit);
    lemma_entry_text_in_place(codes, path, level, unit);
    assert(stands_at(whole, start, written));
    assert(written.subrange(0, opening.len() as int) =~= opening);
    assert(whole.subrange(start, start + opening.len()) =~= written.subrange(
        0,
        opening.len() as int,
    ));
    let shift = (opening.len() + inner.len()) as int;
    assert(written.subrange(shift, shift + closing.len()) =~= closing);
    assert(whole.subrange(start + shift, start + shift + closing.len()) =~= written.subrange(
        shift,
        shift + closing.len(),
    ));
}

} // verus!
