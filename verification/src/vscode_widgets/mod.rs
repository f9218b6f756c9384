//! The settings of the workbench's widgets (menus, tabs, trees, selects,
//! tables, form controls, badges, buttons), the answers the widgets give
//! back, and what one frame of pointer input does to each widget's state:
//! every widget function here takes that frame's clicks as plain values.
//! The painting itself is left to the user interface.

pub mod composite;
pub mod forms;
pub mod layout;
pub mod primitives;
pub mod testing;
