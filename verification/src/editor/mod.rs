pub mod fold;
pub mod buffer;
pub mod highlight;
pub mod find;
pub mod view;
pub mod diff_view;
