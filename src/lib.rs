//! Label sheets for an inventory: scannable codes that point at a record,
//! composited with the record's name and tiled onto printable pages.
//!
//! `symbol` encodes a locator as a code, `label` composites a code with a
//! rendered name, `layout` tiles labels onto pages, and `sheet` runs the
//! three for a list of records.
pub mod label;
pub mod layout;
pub mod records;
pub mod sheet;
pub mod symbol;

pub use label::{compose, text_scale_x, Bitmap, LIGHT};
pub use layout::{
    layout, page_count, page_size, reading_order, ConfigError, Document, Page, Placement,
    SheetConfig, MAX_COLUMNS, MAX_LENGTH,
};
pub use records::{index, rocket, AppState, Container, Item, ItemLocation, PutContainer, Site};
pub use sheet::{
    a4_sheet, generate_qr_code, generate_qr_label, plan_qr_sheet, scan_target_bytes, Sheet,
    LABEL_DPI, LABEL_HEIGHT, LABEL_WIDTH, QR_CODE_DIMENSION,
};
pub use symbol::{encode, EccLevel, EncodeError, MAX_SYMBOL_DIM, MIN_SYMBOL_DIM};
