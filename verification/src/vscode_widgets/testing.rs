//! The widget catalogue's categories.

use vstd::prelude::*;

verus! {

/// The group a widget story is listed under.
#[derive(Clone, Copy, Debug, PartialEq, Eq, Structural)]
pub enum Category {
    Primitives,
    Forms,
    Layout,
    Composite,
}

pub open spec fn category_name(c: Category) -> Seq<char> {
    match c {
        Category::Primitives => "Primitives"@,
        Category::Forms => "Forms"@,
        Category::Layout => "Layout"@,
        Category::Composite => "Composite"@,
    }
}

impl Category {
    /// The category's display name.
    pub fn as_str(self) -> (r: &'static str)
        ensures
            r@ == category_name(self),
    {
        match self {
            Category::Primitives => "Primitives",
            Category::Forms => "Forms",
            Category::Layout => "Layout",
            Category::Composite => "Composite",
        }
    }
}

} // verus!
