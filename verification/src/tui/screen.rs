//! What a view shows, as text.

use vstd::prelude::*;

use crate::text::Page;

verus! {

/// A screen: lines on top, the list with the line under the cursor, key hints below, and the
/// question of a modal where one is open.
#[derive(Debug)]
pub struct Screen {
    pub top: Page,
    pub lines: Page,
    pub selected: Option<usize>,
    pub footer: &'static str,
    pub question: Option<String>,
}

} // verus!
