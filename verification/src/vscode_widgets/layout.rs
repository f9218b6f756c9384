//! Collapsible sections and split panes.

use vstd::prelude::*;

verus! {

/// The settings of a collapsible section.
#[derive(Clone, Copy, Debug)]
pub struct CollapsibleProps<'a> {
    pub title: &'a str,
    pub description: Option<&'a str>,
    pub disabled: bool,
}

impl<'a> CollapsibleProps<'a> {
    /// An enabled section with a title only.
    pub fn new(title: &'a str) -> (r: Self)
        ensures
            r == (CollapsibleProps { title, description: None, disabled: false }),
    {
        CollapsibleProps { title, description: None, disabled: false }
    }

    pub fn description(self, text: &'a str) -> (r: Self)
        ensures
            r == (CollapsibleProps { description: Some(text), ..self }),
    {
        CollapsibleProps { description: Some(text), ..self }
    }

    pub fn disabled(self) -> (r: Self)
        ensures
            r == (CollapsibleProps { disabled: true, ..self }),
    {
        CollapsibleProps { disabled: true, ..self }
    }
}

/// How a split layout places its two panes.
#[derive(Clone, Copy, Debug, PartialEq, Eq, Structural)]
pub enum SplitOrientation {
    /// Side by side, separated by a vertical sash.
    Vertical,
    /// Stacked, separated by a horizontal sash.
    Horizontal,
}

impl Default for SplitOrientation {
    fn default() -> (r: Self)
        ensures
            r == SplitOrientation::Vertical,
    {
        SplitOrientation::Vertical
    }
}

/// One frame of a collapsible section's header: a click on an enabled
/// header opens or closes the section; says whether it did. The body is
/// shown while the section is open.
pub fn collapsible(disabled: bool, open: &mut bool, clicked: bool) -> (toggled: bool)
    ensures
        toggled == (clicked && !disabled),
        *final(open) == (if toggled {
            !*old(open)
        } else {
            *old(open)
        }),
{
    if clicked && !disabled {
        *open = !*open;
        true
    } else {
        false
    }
}

} // verus!
