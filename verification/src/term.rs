//! What the library takes from the terminal crates: parsing of ANSI-styled
//! text into lines of spans, and display widths of text.
use vstd::prelude::*;
use ansi_to_tui::IntoText;
use crate::text::strings_view;

verus! {

/// The error type of `ansi_to_tui`.
#[verifier::external_type_specification]
#[verifier::external_body]
pub struct ExAnsiError(ansi_to_tui::Error);

/// The plain contents of the spans of each line that `ansi_to_tui` reads
/// from an ANSI-styled string: escape sequences removed, one entry per line.
pub uninterp spec fn ansi_plain_spans(s: Seq<char>) -> Seq<Seq<Seq<char>>>;

/// Display width that ratatui gives a span holding `s` (`Span::width`).
pub uninterp spec fn span_width_of(s: Seq<char>) -> nat;

/// Display width that ratatui gives a line made from `s` (`Line::width`).
pub uninterp spec fn line_width_of(s: Seq<char>) -> nat;

/// Views of lines of spans.
pub open spec fn lines_view(lines: Seq<Vec<String>>) -> Seq<Seq<Seq<char>>> {
    lines.map_values(|l: Vec<String>| strings_view(l@))
}

/// Parses an ANSI-styled string with `ansi_to_tui`'s `IntoText::into_text`
/// and hands out the plain contents of each span, line by line.  The parser
/// never fails (it skips what it cannot read), so the result is always `Ok`.
#[verifier::external_body]
pub(crate) fn ansi_spans(s: &String) -> (r: Result<Vec<Vec<String>>, ansi_to_tui::Error>)
    ensures
        r is Ok,
        r matches Ok(lines) ==> lines_view(lines@) == ansi_plain_spans(s@),
{
    match s.into_text() {
        Ok(text) => Ok(
            text.lines.iter().map(|line| line.spans.iter().map(|span| span.content.to_string()).collect()).collect(),
        ),
        Err(e) => Err(e),
    }
}

/// Display width of a span holding `s`, by ratatui's `Span::width`.
#[verifier::external_body]
pub(crate) fn span_width(s: &str) -> (r: usize)
    ensures
        r == span_width_of(s@),
{
    ratatui::text::Span::raw(s).width()
}

/// Display width of a line made from `s`, by ratatui's `Line::width`.
#[verifier::external_body]
pub(crate) fn line_width(s: &str) -> (r: usize)
    ensures
        r == line_width_of(s@),
{
    ratatui::text::Line::from(s).width()
}

} // verus!
