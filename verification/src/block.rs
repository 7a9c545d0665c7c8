//! Lines, blank lines and nested blocks, and the text they stand for.

use vstd::prelude::*;

use crate::signature::{signature_view, BlockSignature, SignatureView};
use crate::text::{repeat_str, repeated};

verus! {

/// One entry of a block or of a code space.
#[derive(Debug)]
pub enum Code {
    /// A line with nothing on it.
    EmptyLine,
    /// A line of text, written as it is.
    Line(String),
    /// A nested block.
    Block(Block),
}

/// A scope in braces: an optional header and the entries between the braces.
#[derive(Debug)]
pub struct Block {
    signature: Option<BlockSignature>,
    codes: Vec<Code>,
}

/// What a [`Code`] holds.
pub enum CodeView {
    EmptyLine,
    Line(Seq<char>),
    Block(BlockView),
}

/// What a [`Block`] holds: its header and its entries in the order in which
/// they were inserted.
pub struct BlockView {
    pub signature: Option<SignatureView>,
    pub codes: Seq<CodeView>,
}

impl View for Code {
    type V = CodeView;

    open spec fn view(&self) -> CodeView
        decreases self,
    {
        match self {
            Code::EmptyLine => CodeView::EmptyLine,
            Code::Line(text) => CodeView::Line(text@),
            Code::Block(block) => CodeView::Block(block@),
        }
    }
}

/// The views of the entries, in the same order.
pub(crate) open spec fn code_views(codes: Seq<Code>) -> Seq<CodeView>
    decreases codes,
{
    Seq::new(
        codes.len(),
        |i: int|
            if 0 <= i < codes.len() {
                codes[i]@
            } else {
                CodeView::EmptyLine
            },
    )
}

impl View for Block {
    type V = BlockView;

    closed spec fn view(&self) -> BlockView
        decreases self,
    {
        BlockView { signature: signature_view(self.signature), codes: code_views(self.codes@) }
    }
}

/// Adding an entry at the end adds its view at the end.
pub(crate) proof fn lemma_code_views_push(codes: Seq<Code>, code: Code)
    ensures
        code_views(codes.push(code)) == code_views(codes).push(code@),
{
}

/// `count` blank lines.
pub open spec fn blank_lines(count: nat) -> Seq<CodeView> {
    Seq::new(count, |i: int| CodeView::EmptyLine)
}

/// The text of the entries one after the other, each as it is written with
/// `level` blocks around it.
pub open spec fn entries_text(codes: Seq<CodeView>, level: nat, unit: Seq<char>) -> Seq<char>
    decreases codes,
{
    if codes.len() == 0 {
        Seq::empty()
    } else {
        entries_text(codes.drop_last(), level, unit) + codes.last().text(level, unit)
    }
}

impl CodeView {
    /// The text of one entry that has `level` blocks around it. A blank line
    /// is a line break and nothing else. A line is `unit` once for each block
    /// around it, then its text as it is, then a line break. A block is
    /// written at depth `level`.
    pub open spec fn text(self, level: nat, unit: Seq<char>) -> Seq<char>
        decreases self,
    {
        match self {
            CodeView::EmptyLine => "\n"@,
            CodeView::Line(line) => repeated(unit, level) + line + "\n"@,
            CodeView::Block(block) => block.text(level, unit),
        }
    }
}

impl BlockView {
    /// The block without a header and without entries.
    pub open spec fn empty() -> BlockView {
        BlockView { signature: None, codes: Seq::empty() }
    }

    /// The same block with `code` after its last entry.
    pub open spec fn with(self, code: CodeView) -> BlockView {
        BlockView { signature: self.signature, codes: self.codes.push(code) }
    }

    /// The same block with `codes` after its last entry, in their order.
    pub open spec fn with_all(self, codes: Seq<CodeView>) -> BlockView {
        BlockView { signature: self.signature, codes: self.codes + codes }
    }

    /// What stands between the indentation and the opening brace: the header
    /// and one space, or nothing for a block without a header.
    pub open spec fn header(self) -> Seq<char> {
        match self.signature {
            Some(signature) => signature.text() + " "@,
            None => Seq::empty(),
        }
    }

    /// The line with the opening brace of a block at depth `depth`: `unit`
    /// written `depth` times, the header, the brace and a line break.
    pub open spec fn opening(self, depth: nat, unit: Seq<char>) -> Seq<char> {
        repeated(unit, depth) + self.header() + "{\n"@
    }

    /// The line with the closing brace of a block at depth `depth`: `unit`
    /// written `depth` times, the brace and a line break.
    pub open spec fn closing(self, depth: nat, unit: Seq<char>) -> Seq<char> {
        repeated(unit, depth) + "}\n"@
    }

    /// The text of the block at depth `depth`: the line with the opening
    /// brace, the entries with one block more around them, and the line with
    /// the closing brace.
    pub open spec fn text(self, depth: nat, unit: Seq<char>) -> Seq<char>
        decreases self,
    {
        self.opening(depth, unit) + entries_text(self.codes, depth + 1, unit) + self.closing(
            depth,
            unit,
        )
    }
}

/// Puts the text of the entries at the end of `out`. `prefix` is what
/// stands before a line that has `level` blocks around it.
pub(crate) fn write_entries(
    codes: &Vec<Code>,
    prefix: &str,
    indent: &str,
    level: Ghost<nat>,
    out: &mut String,
)
    requires
        prefix@ == repeated(indent@, level@),
    ensures
        final(out)@ == old(out)@ + entries_text(code_views(codes@), level@, indent@),
    decreases codes,
{
    let ghost start = out@;
    let ghost views = code_views(codes@);
    let mut i: usize = 0;
    while i < codes.len()
        invariant
            i <= codes.len(),
            views == code_views(codes@),
            prefix@ == repeated(indent@, level@),
            out@ == start + entries_text(views.take(i as int), level@, indent@),
        decreases codes.len() - i,
    {
        let ghost before = out@;
        match &codes[i] {
            Code::EmptyLine => {
                out.push('\n');
            },
            Code::Line(line) => {
                out.append(prefix);
                out.append(line.as_str());
                out.push('\n');
            },
            Code::Block(block) => {
                block.write_at(prefix, indent, level, out);
            },
        }
        proof {
            reveal_strlit("\n");
            assert(out@ == before + views[i as int].text(level@, indent@));
            assert(views.take(i + 1).drop_last() == views.take(i as int));
        }
        i = i + 1;
    }
    proof {
        assert(views.take(i as int) == views);
    }
}

impl Default for Block {
    /// The block without a header and without entries.
    fn default() -> (block: Self)
        ensures
            block@ == BlockView::empty(),
    {
        let block = Block { signature: None, codes: Vec::new() };
        proof {
            assert(block@.codes =~= Seq::empty());
        }
        block
    }
}

impl Block {
    /// Creates the block without a header and without entries.
    pub fn new() -> (block: Self)
        ensures
            block@ == BlockView::empty(),
    {
        Block::default()
    }

    /// Sets the header of the block, or takes it away with `None`. The
    /// entries stay as they are.
    pub fn set_signature(self, signature: Option<BlockSignature>) -> (block: Self)
        ensures
            block@ == (BlockView { signature: signature_view(signature), codes: self@.codes }),
    {
        let mut block = self;
        block.signature = signature;
        block
    }

    /// Puts a line with the text `content` after the last entry.
    pub fn insert_line(self, content: &str) -> (block: Self)
        ensures
            block@ == self@.with(CodeView::Line(content@)),
    {
        let mut block = self;
        let code = Code::Line(content.to_string());
        proof {
            lemma_code_views_push(block.codes@, code);
        }
        block.codes.push(code);
        block
    }

    /// Puts a line with the text `content` after the last entry where `cond`
    /// holds, and hands the block back as it is where it does not.
    pub fn insert_line_if(self, cond: bool, content: &str) -> (block: Self)
        ensures
            cond ==> block@ == self@.with(CodeView::Line(content@)),
            !cond ==> block@ == self@,
    {
        if cond {
            self.insert_line(content)
        } else {
            self
        }
    }

    /// Puts the block `content` after the last entry.
    pub fn insert_block(self, content: Block) -> (block: Self)
        ensures
            block@ == self@.with(CodeView::Block(content@)),
    {
        let mut block = self;
        let code = Code::Block(content);
        proof {
            lemma_code_views_push(block.codes@, code);
        }
        block.codes.push(code);
        block
    }

    /// Puts a blank line after the last entry.
    pub fn insert_new_line(self) -> (block: Self)
        ensures
            block@ == self@.with(CodeView::EmptyLine),
    {
        let mut block = self;
        proof {
            lemma_code_views_push(block.codes@, Code::EmptyLine);
        }
        block.codes.push(Code::EmptyLine);
        block
    }

    /// Puts `count` blank lines after the last entry.
    pub fn insert_new_lines(self, count: usize) -> (block: Self)
        ensures
            block@ == self@.with_all(blank_lines(count as nat)),
    {
        let mut block = self;
        let mut i: usize = 0;
        while i < count
            invariant
                i <= count,
                block@ == self@.with_all(blank_lines(i as nat)),
            decreases count - i,
        {
            block = block.insert_new_line();
            proof {
                assert(self@.codes + blank_lines((i + 1) as nat) =~= (self@.codes + blank_lines(
                    i as nat,
                )).push(CodeView::EmptyLine));
            }
            i = i + 1;
        }
        block
    }

    /// Puts the text of the block at the end of `out`. `current_indent` is
    /// what stands before the braces of a block at depth `depth`. The
    /// indentation is handed down as text and grows by one unit for each
    /// level, so the depth is never counted in a machine integer and a block
    /// may be nested as deep as memory allows.
    fn write_at(&self, current_indent: &str, indent: &str, depth: Ghost<nat>, out: &mut String)
        requires
            current_indent@ == repeated(indent@, depth@),
        ensures
            final(out)@ == old(out)@ + self@.text(depth@, indent@),
        decreases self,
    {
        out.append(current_indent);
        if let Some(signature) = &self.signature {
            out.append(signature.to_string().as_str());
            out.push(' ');
            proof {
                reveal_strlit(" ");
            }
        }
        out.append("{\n");
        let mut deeper = String::new();
        deeper.append(current_indent);
        deeper.append(indent);
        write_entries(&self.codes, deeper.as_str(), indent, Ghost(depth@ + 1), out);
        out.append(current_indent);
        out.append("}\n");
    }

    /// Writes the block at depth `depth`, with `indent` as the unit of
    /// indentation.
    fn to_string_with_indent(&self, depth: usize, indent: &str) -> (out: String)
        ensures
            out@ == self@.text(depth as nat, indent@),
    {
        let current_indent = repeat_str(indent, depth);
        let mut result = String::new();
        self.write_at(current_indent.as_str(), indent, Ghost(depth as nat), &mut result);
        result
    }
}

impl ToString for Block {
    /// Writes the block on its own: at depth 0, with two spaces as the unit
    /// of indentation. Every call on the same block gives the same string.
    fn to_string(&self) -> (out: String)
        ensures
            out@ == self@.text(0, "  "@),
    {
        self.to_string_with_indent(0, "  ")
    }
}

} // verus!
