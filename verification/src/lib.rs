//! Timeline DSL rendering and Wikidata helpers with verified contracts.

pub mod arith;
pub mod text;
pub mod ir;
pub mod format;
pub mod table;
pub mod color;
pub mod calendar;
pub mod layout;
pub mod axis;
pub mod pagination;
pub mod time_range;
pub mod wikidata;
pub mod svg;
pub mod html;
pub mod pdf;
pub mod stacking;
