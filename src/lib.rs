use vstd::prelude::*;

pub mod codec;
pub mod display;
pub mod json;
pub mod navigator;
pub mod sheet;
pub mod style;

pub use codec::{decode_sheet, encode_sheet, validate_sheet_json, DecodeError};
pub use display::format_sheet;
pub use json::JsonValue;
pub use navigator::{Key, TreeSheetsApp};
pub use sheet::{Cell, CellType, Color, GridLayout, Sheet};
pub use style::StyleBits;

verus! {

} // verus!
