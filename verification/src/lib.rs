//! Maintenance of translation files: fixing blank lines, combining template
//! keys, regrouping translations by functionality and merging new keys.
pub mod text;
pub mod fix;
pub mod merge;
pub mod templates;
pub mod functionality;
pub mod reorder;
pub mod reorder_laws;
pub mod template_laws;
pub mod move_laws;
pub mod reorder_twice;
pub mod functionality_laws;
