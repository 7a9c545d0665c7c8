//! The root of a text: entries at the top level and the unit of indentation.

use vstd::prelude::*;

use crate::block::{
    blank_lines, code_views, entries_text, lemma_code_views_push, write_entries, Block, Code,
    CodeView,
};
use crate::text::{repeat_str, repeated};

verus! {

/// The root of a text. It holds the entries of the top level in the order in
/// which they were inserted, and says how blocks are indented: one level is
/// `indent_char` written `indent_depth` times.
#[derive(Debug)]
pub struct CodeSpace {
    /// The character that indentation is made of.
    pub indent_char: char,
    /// How many of them make one level.
    pub indent_depth: usize,
    codes: Vec<Code>,
}

/// What a [`CodeSpace`] holds.
pub struct CodeSpaceView {
    pub indent_char: char,
    pub indent_depth: nat,
    pub codes: Seq<CodeView>,
}

impl CodeSpaceView {
    /// The same code space with `code` after its last entry.
    pub open spec fn with(self, code: CodeView) -> CodeSpaceView {
        CodeSpaceView { codes: self.codes.push(code), ..self }
    }

    /// The same code space with `codes` after its last entry, in their order.
    pub open spec fn with_all(self, codes: Seq<CodeView>) -> CodeSpaceView {
        CodeSpaceView { codes: self.codes + codes, ..self }
    }

    /// One level of indentation: `indent_char` written `indent_depth` times.
    pub open spec fn unit(self) -> Seq<char> {
        repeated(seq![self.indent_char], self.indent_depth)
    }

    /// The whole text: the entries in order, with no block around them.
    pub open spec fn text(self) -> Seq<char> {
        entries_text(self.codes, 0, self.unit())
    }
}

impl View for CodeSpace {
    type V = CodeSpaceView;

    closed spec fn view(&self) -> CodeSpaceView {
        CodeSpaceView {
            indent_char: self.indent_char,
            indent_depth: self.indent_depth as nat,
            codes: code_views(self.codes@),
        }
    }
}

impl CodeSpace {
    /// Creates a code space without entries that indents by two spaces.
    pub fn new() -> (space: Self)
        ensures
            space@ == (CodeSpaceView { indent_char: ' ', indent_depth: 2, codes: Seq::empty() }),
    {
        let space = CodeSpace { indent_char: ' ', indent_depth: 2, codes: Vec::new() };
        proof {
            assert(space@.codes =~= Seq::empty());
        }
        space
    }

    /// Puts a line with the text `content` after the last entry.
    pub fn insert_line(self, content: &str) -> (space: Self)
        ensures
            space@ == self@.with(CodeView::Line(content@)),
    {
        let mut space = self;
        let code = Code::Line(content.to_string());
        proof {
            lemma_code_views_push(space.codes@, code);
        }
        space.codes.push(code);
        space
    }

    /// Puts a line with the text `content` after the last entry where `cond`
    /// holds, and hands the code space back as it is where it does not.
    pub fn insert_line_if(self, cond: bool, content: &str) -> (space: Self)
        ensures
            cond ==> space@ == self@.with(CodeView::Line(content@)),
            !cond ==> space@ == self@,
    {
        if cond {
            self.insert_line(content)
        } else {
            self
        }
    }

    /// Puts the block `content` after the last entry.
    pub fn insert_block(self, content: Block) -> (space: Self)
        ensures
            space@ == self@.with(CodeView::Block(content@)),
    {
        let mut space = self;
        let code = Code::Block(content);
        proof {
            lemma_code_views_push(space.codes@, code);
        }
        space.codes.push(code);
        space
    }

    /// Puts a blank line after the last entry.
    pub fn insert_new_line(self) -> (space: Self)
        ensures
            space@ == self@.with(CodeView::EmptyLine),
    {
        let mut space = self;
        proof {
            lemma_code_views_push(space.codes@, Code::EmptyLine);
        }
        space.codes.push(Code::EmptyLine);
        space
    }

    /// Puts `count` blank lines after the last entry.
    pub fn insert_new_lines(self, count: usize) -> (space: Self)
        ensures
            space@ == self@.with_all(blank_lines(count as nat)),
    {
        let mut space = self;
        let mut i: usize = 0;
        while i < count
            invariant
                i <= count,
                space@ == self@.with_all(blank_lines(i as nat)),
            decreases count - i,
        {
            space = space.insert_new_line();
            proof {
                assert(self@.codes + blank_lines((i + 1) as nat) =~= (self@.codes + blank_lines(
                    i as nat,
                )).push(CodeView::EmptyLine));
            }
            i = i + 1;
        }
        space
    }
}

impl ToString for CodeSpace {
    /// Writes the whole text: every entry in the order of insertion, lines of
    /// the top level without indentation, blocks at depth 0. The text depends
    /// on nothing but what the code space holds, so every call on the same
    /// code space gives the same string.
    fn to_string(&self) -> (out: String)
        ensures
            out@ == self@.text(),
    {
        let mut one = String::new();
        one.push(self.indent_char);
        let indent = repeat_str(one.as_str(), self.indent_depth);
        let mut result = String::new();
        proof {
            reveal_strlit("");
            assert(""@ =~= repeated(indent@, 0));
        }
        write_entries(&self.codes, "", indent.as_str(), Ghost(0), &mut result);
        result
    }
}

} // verus!
