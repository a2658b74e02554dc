//! Defaults of the JavaScript API's optional arguments.

use vstd::prelude::*;

verus! {

/// How `search` matches its pattern.
#[derive(Debug, Clone, Copy, PartialEq, Eq, Structural)]
pub struct SearchSettings {
    /// Treat the pattern as a regular expression.
    pub regex: bool,
    /// Match letter case exactly.
    pub case_sensitive: bool,
}

/// The search settings for `search(pattern, regex?, case?)`: an omitted flag
/// is `true`.
pub fn search_settings(regex: Option<bool>, case: Option<bool>) -> (res: SearchSettings)
    ensures
        res.regex == (match regex {
            Some(r) => r,
            None => true,
        }),
        res.case_sensitive == (match case {
            Some(c) => c,
            None => true,
        }),
{
    SearchSettings { regex: regex.unwrap_or(true), case_sensitive: case.unwrap_or(true) }
}

/// Whether `extractText(layout?)` keeps the page layout: an omitted flag is `false`.
pub fn text_layout(layout: Option<bool>) -> (res: bool)
    ensures
        res == (match layout {
            Some(l) => l,
            None => false,
        }),
{
    layout.unwrap_or(false)
}

} // verus!
