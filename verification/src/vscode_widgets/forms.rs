//! Checkboxes and radio buttons.

use vstd::prelude::*;

verus! {

/// The state of a checkbox.
#[derive(Clone, Copy, Debug, PartialEq, Eq, Structural)]
pub enum CheckboxState {
    Unchecked,
    Checked,
    Indeterminate,
}

impl Default for CheckboxState {
    fn default() -> (r: Self)
        ensures
            r == CheckboxState::Unchecked,
    {
        CheckboxState::Unchecked
    }
}

/// The settings of a checkbox.
#[derive(Clone, Copy, Debug)]
pub struct CheckboxProps<'a> {
    /// An optional label to the right of the box.
    pub label: Option<&'a str>,
    pub disabled: bool,
    pub focused: bool,
}

impl<'a> Default for CheckboxProps<'a> {
    fn default() -> (r: Self)
        ensures
            r.label is None && !r.disabled && !r.focused,
    {
        CheckboxProps { label: None, disabled: false, focused: false }
    }
}

impl<'a> CheckboxProps<'a> {
    /// No label, enabled, not focused.
    pub fn new() -> (r: Self)
        ensures
            r.label is None && !r.disabled && !r.focused,
    {
        CheckboxProps::default()
    }

    pub fn label(self, text: &'a str) -> (r: Self)
        ensures
            r == (CheckboxProps { label: Some(text), ..self }),
    {
        CheckboxProps { label: Some(text), ..self }
    }

    pub fn disabled(self) -> (r: Self)
        ensures
            r == (CheckboxProps { disabled: true, ..self }),
    {
        CheckboxProps { disabled: true, ..self }
    }

    pub fn focused(self) -> (r: Self)
        ensures
            r == (CheckboxProps { focused: true, ..self }),
    {
        CheckboxProps { focused: true, ..self }
    }
}

/// The settings of a radio button.
#[derive(Clone, Copy, Debug)]
pub struct RadioProps<'a> {
    pub label: Option<&'a str>,
    pub disabled: bool,
    pub focused: bool,
}

impl<'a> Default for RadioProps<'a> {
    fn default() -> (r: Self)
        ensures
            r.label is None && !r.disabled && !r.focused,
    {
        RadioProps { label: None, disabled: false, focused: false }
    }
}

impl<'a> RadioProps<'a> {
    /// No label, enabled, not focused.
    pub fn new() -> (r: Self)
        ensures
            r.label is None && !r.disabled && !r.focused,
    {
        RadioProps::default()
    }

    pub fn label(self, text: &'a str) -> (r: Self)
        ensures
            r == (RadioProps { label: Some(text), ..self }),
    {
        RadioProps { label: Some(text), ..self }
    }

    pub fn disabled(self) -> (r: Self)
        ensures
            r == (RadioProps { disabled: true, ..self }),
    {
        RadioProps { disabled: true, ..self }
    }

    pub fn focused(self) -> (r: Self)
        ensures
            r == (RadioProps { focused: true, ..self }),
    {
        RadioProps { focused: true, ..self }
    }
}

/// The state of a checkbox after a click: an unchecked or indeterminate box
/// becomes checked, a checked one unchecked.
pub open spec fn after_click(s: CheckboxState) -> CheckboxState {
    match s {
        CheckboxState::Checked => CheckboxState::Unchecked,
        _ => CheckboxState::Checked,
    }
}

/// One frame of a checkbox: a click on an enabled box changes its state;
/// says whether it did.
pub fn checkbox(disabled: bool, state: &mut CheckboxState, clicked: bool) -> (r: bool)
    ensures
        r == (clicked && !disabled),
        *final(state) == (if r {
            after_click(*old(state))
        } else {
            *old(state)
        }),
{
    if clicked && !disabled {
        *state = match *state {
            CheckboxState::Checked => CheckboxState::Unchecked,
            _ => CheckboxState::Checked,
        };
        true
    } else {
        false
    }
}

/// Two clicks on a checked or unchecked box leave it as it was, and a
/// clicked box is never indeterminate.
pub proof fn law_checkbox_two_clicks(s: CheckboxState)
    ensures
        after_click(s) != CheckboxState::Indeterminate,
        s != CheckboxState::Indeterminate ==> after_click(after_click(s)) == s,
{
}

/// One frame of a radio button: a click on an enabled one selects it;
/// says whether it was clicked.
pub fn radio(disabled: bool, selected: &mut bool, clicked: bool) -> (r: bool)
    ensures
        r == (clicked && !disabled),
        *final(selected) == (r || *old(selected)),
{
    if clicked && !disabled {
        *selected = true;
        true
    } else {
        false
    }
}

} // verus!
