//! Colors of highlights, as the terminal toolkit defines them.
use vstd::prelude::*;

verus! {

#[verifier::external_type_specification]
pub struct ExColor(ratatui::style::Color);

/// The color that the terminal toolkit reads from a color name or code.
pub uninterp spec fn parsed_color(s: Seq<char>) -> Option<ratatui::style::Color>;

/// Relies on `<ratatui::style::Color as FromStr>::from_str`: the outcome depends
/// on the text alone, and the empty text names no color.
#[verifier::external_body]
pub(crate) fn parse_color(s: &str) -> (r: Option<ratatui::style::Color>)
    ensures
        r == parsed_color(s@),
        s@.len() == 0 ==> r.is_none(),
{
    <ratatui::style::Color as std::str::FromStr>::from_str(s).ok()
}

} // verus!
