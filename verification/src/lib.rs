//! Parsing primitives for USB HID report descriptors.
//!
//! Parsing happens in two layers: [`ItemIter`] splits bytes into raw HID items,
//! then [`DescriptorBuilder`] applies the stateful HID rules to typed items.
pub mod hidraw;
pub mod item;
pub mod parser;
pub mod semantic;
pub mod usage;

pub use hidraw::sort_hidraw_names;
pub use item::{
    GlobalItem, GlobalTag, Item, ItemType, LocalItem, LocalTag, LongItem, MainDataFlags, MainItem,
    MainTag, RawItem, ShortItem,
};
pub use parser::{ItemIter, ParseError};
pub use semantic::{DescriptorBuilder, GlobalState, LocalState, SemanticError};
pub use usage::Usage;
