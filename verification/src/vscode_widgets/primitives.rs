//! Badges, buttons, dividers and labels.

use vstd::prelude::*;

verus! {

/// The shape of a badge.
#[derive(Clone, Copy, Debug, PartialEq, Eq, Structural)]
pub enum BadgeVariant {
    /// A pill (rounded ends).
    Default,
    /// A rectangular counter.
    Counter,
    /// The activity bar's counter.
    ActivityBar,
    /// A tab header's counter.
    TabHeader,
}

impl Default for BadgeVariant {
    fn default() -> (r: Self)
        ensures
            r == BadgeVariant::Default,
    {
        BadgeVariant::Default
    }
}

/// The settings of a badge.
#[derive(Clone, Copy, Debug)]
pub struct BadgeProps<'a> {
    pub text: &'a str,
    pub variant: BadgeVariant,
}

impl<'a> BadgeProps<'a> {
    pub fn new(text: &'a str) -> (r: Self)
        ensures
            r == (BadgeProps { text, variant: BadgeVariant::Default }),
    {
        BadgeProps { text, variant: BadgeVariant::Default }
    }

    pub fn counter(text: &'a str) -> (r: Self)
        ensures
            r == (BadgeProps { text, variant: BadgeVariant::Counter }),
    {
        BadgeProps { text, variant: BadgeVariant::Counter }
    }

    pub fn activity_bar(text: &'a str) -> (r: Self)
        ensures
            r == (BadgeProps { text, variant: BadgeVariant::ActivityBar }),
    {
        BadgeProps { text, variant: BadgeVariant::ActivityBar }
    }

    pub fn tab_header(text: &'a str) -> (r: Self)
        ensures
            r == (BadgeProps { text, variant: BadgeVariant::TabHeader }),
    {
        BadgeProps { text, variant: BadgeVariant::TabHeader }
    }
}

/// The colour scheme of a button.
#[derive(Clone, Copy, Debug, PartialEq, Eq, Structural)]
pub enum ButtonVariant {
    Primary,
    Secondary,
}

impl Default for ButtonVariant {
    fn default() -> (r: Self)
        ensures
            r == ButtonVariant::Primary,
    {
        ButtonVariant::Primary
    }
}

/// The font and padding scale of a button.
#[derive(Clone, Copy, Debug, PartialEq, Eq, Structural)]
pub enum ButtonSize {
    Regular,
    Small,
}

impl Default for ButtonSize {
    fn default() -> (r: Self)
        ensures
            r == ButtonSize::Regular,
    {
        ButtonSize::Regular
    }
}

/// The settings of a button.
#[derive(Clone, Copy, Debug)]
pub struct ButtonProps<'a> {
    pub label: &'a str,
    pub variant: ButtonVariant,
    pub disabled: bool,
    /// Draw the focus ring even without keyboard focus.
    pub focused: bool,
    /// A glyph before the label.
    pub icon: Option<char>,
    /// A glyph after the label.
    pub icon_after: Option<char>,
    /// Fill the available width.
    pub block: bool,
    pub size: ButtonSize,
}

impl<'a> ButtonProps<'a> {
    /// A regular primary button with a label only.
    pub fn new(label: &'a str) -> (r: Self)
        ensures
            r == (ButtonProps {
                label,
                variant: ButtonVariant::Primary,
                disabled: false,
                focused: false,
                icon: None,
                icon_after: None,
                block: false,
                size: ButtonSize::Regular,
            }),
    {
        ButtonProps {
            label,
            variant: ButtonVariant::Primary,
            disabled: false,
            focused: false,
            icon: None,
            icon_after: None,
            block: false,
            size: ButtonSize::Regular,
        }
    }

    pub fn secondary(self) -> (r: Self)
        ensures
            r == (ButtonProps { variant: ButtonVariant::Secondary, ..self }),
    {
        ButtonProps { variant: ButtonVariant::Secondary, ..self }
    }

    pub fn disabled(self) -> (r: Self)
        ensures
            r == (ButtonProps { disabled: true, ..self }),
    {
        ButtonProps { disabled: true, ..self }
    }

    pub fn focused(self) -> (r: Self)
        ensures
            r == (ButtonProps { focused: true, ..self }),
    {
        ButtonProps { focused: true, ..self }
    }

    pub fn icon(self, glyph: char) -> (r: Self)
        ensures
            r == (ButtonProps { icon: Some(glyph), ..self }),
    {
        ButtonProps { icon: Some(glyph), ..self }
    }

    pub fn icon_after(self, glyph: char) -> (r: Self)
        ensures
            r == (ButtonProps { icon_after: Some(glyph), ..self }),
    {
        ButtonProps { icon_after: Some(glyph), ..self }
    }

    pub fn block(self) -> (r: Self)
        ensures
            r == (ButtonProps { block: true, ..self }),
    {
        ButtonProps { block: true, ..self }
    }

    pub fn small(self) -> (r: Self)
        ensures
            r == (ButtonProps { size: ButtonSize::Small, ..self }),
    {
        ButtonProps { size: ButtonSize::Small, ..self }
    }
}

/// The direction of a divider line.
#[derive(Clone, Copy, Debug, PartialEq, Eq, Structural)]
pub enum DividerOrientation {
    Horizontal,
    Vertical,
}

impl Default for DividerOrientation {
    fn default() -> (r: Self)
        ensures
            r == DividerOrientation::Horizontal,
    {
        DividerOrientation::Horizontal
    }
}

/// The weight of a form label.
#[derive(Clone, Copy, Debug, PartialEq, Eq, Structural)]
pub enum LabelEmphasis {
    /// Bold.
    Strong,
    /// Plain weight.
    Normal,
}

impl Default for LabelEmphasis {
    fn default() -> (r: Self)
        ensures
            r == LabelEmphasis::Strong,
    {
        LabelEmphasis::Strong
    }
}

} // verus!
