//! HID item representations and tag decoding.
use vstd::prelude::*;

verus! {

/// The two type bits in a short-item prefix.
#[derive(Debug, Clone, Copy, PartialEq, Eq, Structural)]
pub enum ItemType {
    Main,
    Global,
    Local,
    Reserved,
}

/// The item type that bits 2 and 3 of a short-item prefix select.
pub open spec fn item_type_of(prefix: u8) -> ItemType {
    let code = (prefix / 4) % 4;
    if code == 0 {
        ItemType::Main
    } else if code == 1 {
        ItemType::Global
    } else if code == 2 {
        ItemType::Local
    } else {
        ItemType::Reserved
    }
}

/// The tag number that the upper four bits of a short-item prefix carry.
pub open spec fn tag_of(prefix: u8) -> u8 {
    prefix / 16
}

impl ItemType {
    pub(crate) fn from_prefix(prefix: u8) -> (r: Self)
        ensures
            r == item_type_of(prefix),
    {
        let code = (prefix >> 2) & 0b11;
        assert(code == (prefix / 4) % 4) by (bit_vector)
            requires
                code == (prefix >> 2) & 0b11,
        ;
        match code {
            0 => ItemType::Main,
            1 => ItemType::Global,
            2 => ItemType::Local,
            _ => ItemType::Reserved,
        }
    }
}

/// A short item whose payload borrows from the original descriptor.
#[derive(Debug, Clone, Copy, PartialEq, Eq)]
pub struct ShortItem<'a> {
    pub prefix: u8,
    pub item_type: ItemType,
    pub tag: u8,
    pub data: &'a [u8],
}

/// The uncommon long-item format, retained without interpreting its tag.
#[derive(Debug, Clone, Copy, PartialEq, Eq)]
pub struct LongItem<'a> {
    pub tag: u8,
    pub data: &'a [u8],
}

/// An item split from the byte stream, before its type-specific tag is decoded.
#[derive(Debug, Clone, Copy, PartialEq, Eq)]
pub enum RawItem<'a> {
    Short(ShortItem<'a>),
    Long(LongItem<'a>),
}

/// What a raw item holds, with its payload taken as a sequence of bytes.
pub enum RawItemView {
    Short { prefix: u8, item_type: ItemType, tag: u8, data: Seq<u8> },
    Long { tag: u8, data: Seq<u8> },
}

impl<'a> View for RawItem<'a> {
    type V = RawItemView;

    open spec fn view(&self) -> RawItemView {
        match *self {
            RawItem::Short(s) => RawItemView::Short {
                prefix: s.prefix,
                item_type: s.item_type,
                tag: s.tag,
                data: s.data@,
            },
            RawItem::Long(l) => RawItemView::Long { tag: l.tag, data: l.data@ },
        }
    }
}

#[derive(Debug, Clone, Copy, PartialEq, Eq, Structural)]
pub enum MainTag {
    Input,
    Output,
    Collection,
    Feature,
    EndCollection,
    Unknown(u8),
}

impl From<u8> for MainTag {
    fn from(tag: u8) -> (r: Self) {
        match tag {
            0x8 => MainTag::Input,
            0x9 => MainTag::Output,
            0xA => MainTag::Collection,
            0xB => MainTag::Feature,
            0xC => MainTag::EndCollection,
            other => MainTag::Unknown(other),
        }
    }
}

impl vstd::std_specs::convert::FromSpecImpl<u8> for MainTag {
    open spec fn obeys_from_spec() -> bool {
        true
    }

    open spec fn from_spec(tag: u8) -> MainTag {
        if tag == 0x8 {
            MainTag::Input
        } else if tag == 0x9 {
            MainTag::Output
        } else if tag == 0xA {
            MainTag::Collection
        } else if tag == 0xB {
            MainTag::Feature
        } else if tag == 0xC {
            MainTag::EndCollection
        } else {
            MainTag::Unknown(tag)
        }
    }
}

#[derive(Debug, Clone, Copy, PartialEq, Eq, Structural)]
pub enum GlobalTag {
    UsagePage,
    LogicalMinimum,
    LogicalMaximum,
    PhysicalMinimum,
    PhysicalMaximum,
    UnitExponent,
    Unit,
    ReportSize,
    ReportId,
    ReportCount,
    Push,
    Pop,
    Unknown(u8),
}

impl From<u8> for GlobalTag {
    fn from(tag: u8) -> (r: Self) {
        match tag {
            0x0 => GlobalTag::UsagePage,
            0x1 => GlobalTag::LogicalMinimum,
            0x2 => GlobalTag::LogicalMaximum,
            0x3 => GlobalTag::PhysicalMinimum,
            0x4 => GlobalTag::PhysicalMaximum,
            0x5 => GlobalTag::UnitExponent,
            0x6 => GlobalTag::Unit,
            0x7 => GlobalTag::ReportSize,
            0x8 => GlobalTag::ReportId,
            0x9 => GlobalTag::ReportCount,
            0xA => GlobalTag::Push,
            0xB => GlobalTag::Pop,
            other => GlobalTag::Unknown(other),
        }
    }
}

impl vstd::std_specs::convert::FromSpecImpl<u8> for GlobalTag {
    open spec fn obeys_from_spec() -> bool {
        true
    }

    open spec fn from_spec(tag: u8) -> GlobalTag {
        if tag == 0x0 {
            GlobalTag::UsagePage
        } else if tag == 0x1 {
            GlobalTag::LogicalMinimum
        } else if tag == 0x2 {
            GlobalTag::LogicalMaximum
        } else if tag == 0x3 {
            GlobalTag::PhysicalMinimum
        } else if tag == 0x4 {
            GlobalTag::PhysicalMaximum
        } else if tag == 0x5 {
            GlobalTag::UnitExponent
        } else if tag == 0x6 {
            GlobalTag::Unit
        } else if tag == 0x7 {
            GlobalTag::ReportSize
        } else if tag == 0x8 {
            GlobalTag::ReportId
        } else if tag == 0x9 {
            GlobalTag::ReportCount
        } else if tag == 0xA {
            GlobalTag::Push
        } else if tag == 0xB {
            GlobalTag::Pop
        } else {
            GlobalTag::Unknown(tag)
        }
    }
}

#[derive(Debug, Clone, Copy, PartialEq, Eq, Structural)]
pub enum LocalTag {
    Usage,
    UsageMinimum,
    UsageMaximum,
    DesignatorIndex,
    DesignatorMinimum,
    DesignatorMaximum,
    StringIndex,
    StringMinimum,
    StringMaximum,
    Delimiter,
    Unknown(u8),
}

impl From<u8> for LocalTag {
    fn from(tag: u8) -> (r: Self) {
        match tag {
            0x0 => LocalTag::Usage,
            0x1 => LocalTag::UsageMinimum,
            0x2 => LocalTag::UsageMaximum,
            0x3 => LocalTag::DesignatorIndex,
            0x4 => LocalTag::DesignatorMinimum,
            0x5 => LocalTag::DesignatorMaximum,
            0x7 => LocalTag::StringIndex,
            0x8 => LocalTag::StringMinimum,
            0x9 => LocalTag::StringMaximum,
            0xA => LocalTag::Delimiter,
            other => LocalTag::Unknown(other),
        }
    }
}

impl vstd::std_specs::convert::FromSpecImpl<u8> for LocalTag {
    open spec fn obeys_from_spec() -> bool {
        true
    }

    /// Tag 6 is not assigned a local meaning and stays `Unknown(6)`.
    open spec fn from_spec(tag: u8) -> LocalTag {
        if tag == 0x0 {
            LocalTag::Usage
        } else if tag == 0x1 {
            LocalTag::UsageMinimum
        } else if tag == 0x2 {
            LocalTag::UsageMaximum
        } else if tag == 0x3 {
            LocalTag::DesignatorIndex
        } else if tag == 0x4 {
            LocalTag::DesignatorMinimum
        } else if tag == 0x5 {
            LocalTag::DesignatorMaximum
        } else if tag == 0x7 {
            LocalTag::StringIndex
        } else if tag == 0x8 {
            LocalTag::StringMinimum
        } else if tag == 0x9 {
            LocalTag::StringMaximum
        } else if tag == 0xA {
            LocalTag::Delimiter
        } else {
            LocalTag::Unknown(tag)
        }
    }
}

#[derive(Debug, Clone, Copy, PartialEq, Eq)]
pub struct MainItem<'a> {
    pub tag: MainTag,
    pub data: &'a [u8],
}

#[derive(Debug, Clone, Copy, PartialEq, Eq)]
pub struct GlobalItem<'a> {
    pub tag: GlobalTag,
    pub data: &'a [u8],
}

#[derive(Debug, Clone, Copy, PartialEq, Eq)]
pub struct LocalItem<'a> {
    pub tag: LocalTag,
    pub data: &'a [u8],
}

/// A short item with a tag decoded in the context of its item type.
#[derive(Debug, Clone, Copy, PartialEq, Eq)]
pub enum Item<'a> {
    Main(MainItem<'a>),
    Global(GlobalItem<'a>),
    Local(LocalItem<'a>),
    Reserved(ShortItem<'a>),
    Long(LongItem<'a>),
}

impl<'a> From<RawItem<'a>> for Item<'a> {
    fn from(raw: RawItem<'a>) -> (r: Self) {
        match raw {
            RawItem::Long(item) => Item::Long(item),
            RawItem::Short(item) => match item.item_type {
                ItemType::Main => Item::Main(MainItem { tag: MainTag::from(item.tag), data: item.data }),
                ItemType::Global => Item::Global(
                    GlobalItem { tag: GlobalTag::from(item.tag), data: item.data },
                ),
                ItemType::Local => Item::Local(LocalItem { tag: LocalTag::from(item.tag), data: item.data }),
                ItemType::Reserved => Item::Reserved(item),
            },
        }
    }
}

impl<'a> vstd::std_specs::convert::FromSpecImpl<RawItem<'a>> for Item<'a> {
    open spec fn obeys_from_spec() -> bool {
        true
    }

    /// Long items pass through; a short item's tag is read in the context of
    /// its item type, and a reserved type keeps the short item as it is.
    open spec fn from_spec(raw: RawItem<'a>) -> Item<'a> {
        match raw {
            RawItem::Long(item) => Item::Long(item),
            RawItem::Short(item) => match item.item_type {
                ItemType::Main => Item::Main(
                    MainItem { tag: <MainTag as vstd::std_specs::convert::FromSpec<u8>>::from_spec(item.tag), data: item.data },
                ),
                ItemType::Global => Item::Global(
                    GlobalItem { tag: <GlobalTag as vstd::std_specs::convert::FromSpec<u8>>::from_spec(item.tag), data: item.data },
                ),
                ItemType::Local => Item::Local(
                    LocalItem { tag: <LocalTag as vstd::std_specs::convert::FromSpec<u8>>::from_spec(item.tag), data: item.data },
                ),
                ItemType::Reserved => Item::Reserved(item),
            },
        }
    }
}

/// The main tag numbers of HID: 8 is Input, 9 Output, 10 Collection, 11 Feature
/// and 12 End Collection; every other number is kept as `Unknown` of itself.
pub proof fn lemma_main_tag_numbers(tag: u8)
    ensures
        (<MainTag as vstd::std_specs::convert::FromSpec<u8>>::from_spec(tag) == MainTag::Input) <==> tag == 8,
        (<MainTag as vstd::std_specs::convert::FromSpec<u8>>::from_spec(tag) == MainTag::Output) <==> tag == 9,
        (<MainTag as vstd::std_specs::convert::FromSpec<u8>>::from_spec(tag) == MainTag::Collection) <==> tag == 10,
        (<MainTag as vstd::std_specs::convert::FromSpec<u8>>::from_spec(tag) == MainTag::Feature) <==> tag == 11,
        (<MainTag as vstd::std_specs::convert::FromSpec<u8>>::from_spec(tag) == MainTag::EndCollection) <==> tag == 12,
        (<MainTag as vstd::std_specs::convert::FromSpec<u8>>::from_spec(tag) == MainTag::Unknown(tag)) <==> !(8 <= tag <= 12),
        <MainTag as vstd::std_specs::convert::FromSpec<u8>>::from_spec(tag) is Unknown ==> <MainTag as vstd::std_specs::convert::FromSpec<u8>>::from_spec(tag) == MainTag::Unknown(tag),
{
}

/// The global tag numbers of HID: 0 Usage Page, 1 Logical Minimum, 2 Logical
/// Maximum, 3 Physical Minimum, 4 Physical Maximum, 5 Unit Exponent, 6 Unit,
/// 7 Report Size, 8 Report ID, 9 Report Count, 10 Push, 11 Pop; every other
/// number is kept as `Unknown` of itself.
pub proof fn lemma_global_tag_numbers(tag: u8)
    ensures
        (<GlobalTag as vstd::std_specs::convert::FromSpec<u8>>::from_spec(tag) == GlobalTag::UsagePage) <==> tag == 0,
        (<GlobalTag as vstd::std_specs::convert::FromSpec<u8>>::from_spec(tag) == GlobalTag::LogicalMinimum) <==> tag == 1,
        (<GlobalTag as vstd::std_specs::convert::FromSpec<u8>>::from_spec(tag) == GlobalTag::LogicalMaximum) <==> tag == 2,
        (<GlobalTag as vstd::std_specs::convert::FromSpec<u8>>::from_spec(tag) == GlobalTag::PhysicalMinimum) <==> tag == 3,
        (<GlobalTag as vstd::std_specs::convert::FromSpec<u8>>::from_spec(tag) == GlobalTag::PhysicalMaximum) <==> tag == 4,
        (<GlobalTag as vstd::std_specs::convert::FromSpec<u8>>::from_spec(tag) == GlobalTag::UnitExponent) <==> tag == 5,
        (<GlobalTag as vstd::std_specs::convert::FromSpec<u8>>::from_spec(tag) == GlobalTag::Unit) <==> tag == 6,
        (<GlobalTag as vstd::std_specs::convert::FromSpec<u8>>::from_spec(tag) == GlobalTag::ReportSize) <==> tag == 7,
        (<GlobalTag as vstd::std_specs::convert::FromSpec<u8>>::from_spec(tag) == GlobalTag::ReportId) <==> tag == 8,
        (<GlobalTag as vstd::std_specs::convert::FromSpec<u8>>::from_spec(tag) == GlobalTag::ReportCount) <==> tag == 9,
        (<GlobalTag as vstd::std_specs::convert::FromSpec<u8>>::from_spec(tag) == GlobalTag::Push) <==> tag == 10,
        (<GlobalTag as vstd::std_specs::convert::FromSpec<u8>>::from_spec(tag) == GlobalTag::Pop) <==> tag == 11,
        (<GlobalTag as vstd::std_specs::convert::FromSpec<u8>>::from_spec(tag) == GlobalTag::Unknown(tag)) <==> tag > 11,
        <GlobalTag as vstd::std_specs::convert::FromSpec<u8>>::from_spec(tag) is Unknown ==> <GlobalTag as vstd::std_specs::convert::FromSpec<u8>>::from_spec(tag) == GlobalTag::Unknown(tag),
{
}

/// The local tag numbers of HID: 0 Usage, 1 Usage Minimum, 2 Usage Maximum,
/// 3 Designator Index, 4 Designator Minimum, 5 Designator Maximum, 7 String
/// Index, 8 String Minimum, 9 String Maximum, 10 Delimiter; 6 and every number
/// above 10 are kept as `Unknown` of themselves.
pub proof fn lemma_local_tag_numbers(tag: u8)
    ensures
        (<LocalTag as vstd::std_specs::convert::FromSpec<u8>>::from_spec(tag) == LocalTag::Usage) <==> tag == 0,
        (<LocalTag as vstd::std_specs::convert::FromSpec<u8>>::from_spec(tag) == LocalTag::UsageMinimum) <==> tag == 1,
        (<LocalTag as vstd::std_specs::convert::FromSpec<u8>>::from_spec(tag) == LocalTag::UsageMaximum) <==> tag == 2,
        (<LocalTag as vstd::std_specs::convert::FromSpec<u8>>::from_spec(tag) == LocalTag::DesignatorIndex) <==> tag == 3,
        (<LocalTag as vstd::std_specs::convert::FromSpec<u8>>::from_spec(tag) == LocalTag::DesignatorMinimum) <==> tag == 4,
        (<LocalTag as vstd::std_specs::convert::FromSpec<u8>>::from_spec(tag) == LocalTag::DesignatorMaximum) <==> tag == 5,
        (<LocalTag as vstd::std_specs::convert::FromSpec<u8>>::from_spec(tag) == LocalTag::StringIndex) <==> tag == 7,
        (<LocalTag as vstd::std_specs::convert::FromSpec<u8>>::from_spec(tag) == LocalTag::StringMinimum) <==> tag == 8,
        (<LocalTag as vstd::std_specs::convert::FromSpec<u8>>::from_spec(tag) == LocalTag::StringMaximum) <==> tag == 9,
        (<LocalTag as vstd::std_specs::convert::FromSpec<u8>>::from_spec(tag) == LocalTag::Delimiter) <==> tag == 10,
        (<LocalTag as vstd::std_specs::convert::FromSpec<u8>>::from_spec(tag) == LocalTag::Unknown(tag)) <==> (tag == 6 || tag > 10),
        <LocalTag as vstd::std_specs::convert::FromSpec<u8>>::from_spec(tag) is Unknown ==> <LocalTag as vstd::std_specs::convert::FromSpec<u8>>::from_spec(tag) == LocalTag::Unknown(tag),
{
}

/// A short item is decoded by its type: its tag number is read as a main,
/// global or local tag, its payload is kept as it is, and a reserved type keeps
/// the short item whole; a long item passes through.
pub proof fn lemma_item_from_raw(raw: RawItem)
    ensures
        ({
            let item = <Item as vstd::std_specs::convert::FromSpec<RawItem>>::from_spec(raw);
            match raw {
                RawItem::Long(l) => item == Item::Long(l),
                RawItem::Short(s) => match s.item_type {
                    ItemType::Main => item matches Item::Main(m) && m.data == s.data && m.tag
                        == <MainTag as vstd::std_specs::convert::FromSpec<u8>>::from_spec(s.tag),
                    ItemType::Global => item matches Item::Global(g) && g.data == s.data && g.tag
                        == <GlobalTag as vstd::std_specs::convert::FromSpec<u8>>::from_spec(s.tag),
                    ItemType::Local => item matches Item::Local(l) && l.data == s.data && l.tag
                        == <LocalTag as vstd::std_specs::convert::FromSpec<u8>>::from_spec(s.tag),
                    ItemType::Reserved => item == Item::Reserved(s),
                },
            }
        }),
{
}

/// Bit flags carried by Input, Output, and Feature main items.
#[derive(Debug, Clone, Copy, PartialEq, Eq)]
pub struct MainDataFlags(u32);

impl View for MainDataFlags {
    type V = u32;

    closed spec fn view(&self) -> u32 {
        self.0
    }
}

impl MainDataFlags {
    pub fn from_bits(bits: u32) -> (r: Self)
        ensures
            r@ == bits,
    {
        MainDataFlags(bits)
    }

    pub fn bits(self) -> (r: u32)
        ensures
            r == self@,
    {
        self.0
    }

    /// Bit 0: Constant (1) or Data (0).
    pub fn is_constant(self) -> (r: bool)
        ensures
            r == (self@ % 2 == 1),
    {
        let b = self.0;
        assert((b & 1 != 0) == (b % 2 == 1)) by (bit_vector);
        b & 0b001 != 0
    }

    /// Bit 1: Variable (1) or Array (0).
    pub fn is_variable(self) -> (r: bool)
        ensures
            r == ((self@ / 2) % 2 == 1),
    {
        let b = self.0;
        assert((b & 2 != 0) == ((b / 2) % 2 == 1)) by (bit_vector);
        b & 0b010 != 0
    }

    /// Bit 2: Relative (1) or Absolute (0).
    pub fn is_relative(self) -> (r: bool)
        ensures
            r == ((self@ / 4) % 2 == 1),
    {
        let b = self.0;
        assert((b & 4 != 0) == ((b / 4) % 2 == 1)) by (bit_vector);
        b & 0b100 != 0
    }

    /// Absolute is the clear state of the Relative bit.
    pub fn is_absolute(self) -> (r: bool)
        ensures
            r == ((self@ / 4) % 2 == 0),
            r == !self.spec_is_relative(),
    {
        !self.is_relative()
    }

    pub open spec fn spec_is_relative(self) -> bool {
        (self@ / 4) % 2 == 1
    }
}

} // verus!
