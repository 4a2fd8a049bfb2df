//! Display aliases: the strings that stand for dots, lines and word gaps
//! in the rendered output.

use vstd::prelude::*;

verus! {

/// The three alias strings used when rendering a document.  Aliases are
/// purely presentational: changing them never touches stored symbol data.
#[derive(Debug, Clone)]
pub struct DisplayChars {
    pub dot: String,
    pub line: String,
    pub whitespace: String,
}

/// Mathematical image of [`DisplayChars`]: each alias as a character sequence.
pub struct DisplayView {
    pub dot: Seq<char>,
    pub line: Seq<char>,
    pub whitespace: Seq<char>,
}

impl View for DisplayChars {
    type V = DisplayView;

    open spec fn view(&self) -> DisplayView {
        DisplayView { dot: self.dot@, line: self.line@, whitespace: self.whitespace@ }
    }
}

/// The default aliases: `.` for a dot, `⚊` for a line, a single space for a
/// word gap.
pub open spec fn default_display() -> DisplayView {
    DisplayView { dot: seq!['.'], line: seq!['⚊'], whitespace: seq![' '] }
}

impl Default for DisplayChars {
    /// Aliases as conventionally written: dot, long mark, space.
    fn default() -> (r: DisplayChars)
        ensures
            r@ == default_display(),
    {
        proof {
            reveal_strlit(".");
            reveal_strlit("⚊");
            reveal_strlit(" ");
        }
        let r = DisplayChars {
            dot: ".".to_owned(),
            line: "⚊".to_owned(),
            whitespace: " ".to_owned(),
        };
        proof {
            assert(r@.dot =~= default_display().dot);
            assert(r@.line =~= default_display().line);
            assert(r@.whitespace =~= default_display().whitespace);
        }
        r
    }
}

} // verus!
