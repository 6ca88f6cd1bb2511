//! Stateful interpretation of typed HID items.
use vstd::prelude::*;

use crate::item::{GlobalItem, GlobalTag, Item, LocalItem, LocalTag, RawItem};
use crate::parser::encodable;
use crate::usage::Usage;

verus! {

/// Global values persist across main items and can be saved with Push.
#[derive(Debug, Clone, Copy, PartialEq, Eq, Structural)]
pub struct GlobalState {
    pub usage_page: Option<u32>,
    pub logical_minimum: Option<i32>,
    pub logical_maximum: Option<i32>,
    pub physical_minimum: Option<i32>,
    pub physical_maximum: Option<i32>,
    pub unit_exponent: Option<i32>,
    pub unit: Option<u32>,
    pub report_size: Option<u32>,
    pub report_id: Option<u8>,
    pub report_count: Option<u32>,
}

/// The global state before any global item: every value unset.
pub open spec fn empty_global() -> GlobalState {
    GlobalState {
        usage_page: None,
        logical_minimum: None,
        logical_maximum: None,
        physical_minimum: None,
        physical_maximum: None,
        unit_exponent: None,
        unit: None,
        report_size: None,
        report_id: None,
        report_count: None,
    }
}

impl Default for GlobalState {
    fn default() -> (r: Self)
        ensures
            r == empty_global(),
    {
        GlobalState {
            usage_page: None,
            logical_minimum: None,
            logical_maximum: None,
            physical_minimum: None,
            physical_maximum: None,
            unit_exponent: None,
            unit: None,
            report_size: None,
            report_id: None,
            report_count: None,
        }
    }
}

/// Local values describe only the next main item and are then cleared.
#[derive(Debug, Clone, PartialEq, Eq)]
pub struct LocalState {
    pub usages: Vec<Usage>,
    pub usage_minimum: Option<Usage>,
    pub usage_maximum: Option<Usage>,
}

/// What a local state holds, with its usages as a sequence.
pub struct LocalView {
    pub usages: Seq<Usage>,
    pub usage_minimum: Option<Usage>,
    pub usage_maximum: Option<Usage>,
}

/// The local state that no local item has touched.
pub open spec fn empty_local() -> LocalView {
    LocalView { usages: Seq::empty(), usage_minimum: None, usage_maximum: None }
}

impl View for LocalState {
    type V = LocalView;

    open spec fn view(&self) -> LocalView {
        LocalView {
            usages: self.usages@,
            usage_minimum: self.usage_minimum,
            usage_maximum: self.usage_maximum,
        }
    }
}

impl Default for LocalState {
    fn default() -> (r: Self)
        ensures
            r@ == empty_local(),
    {
        LocalState { usages: Vec::new(), usage_minimum: None, usage_maximum: None }
    }
}

#[derive(Debug, PartialEq, Eq, Structural)]
pub enum SemanticError {
    /// A global Pop has no matching Push.
    GlobalStackUnderflow,
    /// A Report ID must be in the range 1..=255.
    InvalidReportId,
}

/// Applies HID's global and local scoping rules.
///
/// Field emission and collection construction belong to the following parser
/// sections, so this builder deliberately stops at state application.
#[derive(Debug)]
pub struct DescriptorBuilder {
    global: GlobalState,
    global_stack: Vec<GlobalState>,
    local: LocalState,
}

/// What a builder holds: the current global state, the states saved by Push
/// (the last one on top), and the local state.
pub struct BuilderView {
    pub global: GlobalState,
    pub stack: Seq<GlobalState>,
    pub local: LocalView,
}

/// The builder state before any item.
pub open spec fn empty_builder() -> BuilderView {
    BuilderView { global: empty_global(), stack: Seq::empty(), local: empty_local() }
}

impl View for DescriptorBuilder {
    type V = BuilderView;

    closed spec fn view(&self) -> BuilderView {
        BuilderView { global: self.global, stack: self.global_stack@, local: self.local@ }
    }
}

/// The little-endian value of a payload: its first byte is the least significant.
pub open spec fn le_value(data: Seq<u8>) -> nat
    decreases data.len(),
{
    if data.len() == 0 {
        0
    } else {
        data[0] as nat + 256 * le_value(data.drop_first())
    }
}

/// Payload widths that a signed value can have: HID short items carry 0, 1, 2
/// or 4 bytes.
pub open spec fn is_signed_width(len: nat) -> bool {
    len == 0 || len == 1 || len == 2 || len == 4
}

/// An unsigned payload of at most four bytes as a `u32`.
pub open spec fn unsigned_payload(data: Seq<u8>) -> u32 {
    le_value(data) as u32
}

/// A payload read as a two's-complement number of its own width, so that its
/// top bit is the sign; the empty payload is 0.
pub open spec fn signed_payload(data: Seq<u8>) -> i32 {
    let u = le_value(data) as int;
    let n = data.len();
    (if n == 1 {
        if u < 0x80 { u } else { u - 0x100 }
    } else if n == 2 {
        if u < 0x8000 { u } else { u - 0x1_0000 }
    } else if n == 4 {
        if u < 0x8000_0000 { u } else { u - 0x1_0000_0000 }
    } else {
        0
    }) as i32
}

/// The `i32` with the same 32 bits as `u`.
pub open spec fn bits_as_i32(u: u32) -> i32 {
    (if u < 0x8000_0000 { u as int } else { u - 0x1_0000_0000 }) as i32
}

/// Whether a minimum is set and negative, which makes its maximum signed.
pub open spec fn negative(min: Option<i32>) -> bool {
    match min {
        Some(v) => v < 0,
        None => false,
    }
}

/// A maximum: signed when its minimum is negative, else the unsigned payload
/// with its bits taken as an `i32`.
pub open spec fn maximum_payload(min: Option<i32>, data: Seq<u8>) -> i32 {
    if negative(min) {
        signed_payload(data)
    } else {
        bits_as_i32(unsigned_payload(data))
    }
}

/// Whether `item` carries a payload that applying it can read: at most four
/// bytes where it is read unsigned, and 0, 1, 2 or 4 where it is read signed.
pub open spec fn payload_readable(global: GlobalState, item: Item) -> bool {
    match item {
        Item::Global(g) => {
            let n = g.data@.len();
            match g.tag {
                GlobalTag::LogicalMinimum | GlobalTag::PhysicalMinimum | GlobalTag::UnitExponent =>
                    is_signed_width(n),
                GlobalTag::LogicalMaximum => if negative(global.logical_minimum) {
                    is_signed_width(n)
                } else {
                    n <= 4
                },
                GlobalTag::PhysicalMaximum => if negative(global.physical_minimum) {
                    is_signed_width(n)
                } else {
                    n <= 4
                },
                GlobalTag::Push | GlobalTag::Pop | GlobalTag::Unknown(_) => true,
                _ => n <= 4,
            }
        },
        Item::Local(l) => match l.tag {
            LocalTag::Usage | LocalTag::UsageMinimum | LocalTag::UsageMaximum => l.data@.len() <= 4,
            _ => true,
        },
        _ => true,
    }
}

/// The builder state after a global item, or the error it is refused with.
pub open spec fn apply_global_spec(m: BuilderView, item: GlobalItem) -> Result<BuilderView, SemanticError> {
    let g = m.global;
    let d = item.data@;
    match item.tag {
        GlobalTag::UsagePage => Ok(
            BuilderView { global: GlobalState { usage_page: Some(unsigned_payload(d)), ..g }, ..m },
        ),
        GlobalTag::LogicalMinimum => Ok(
            BuilderView { global: GlobalState { logical_minimum: Some(signed_payload(d)), ..g }, ..m },
        ),
        GlobalTag::LogicalMaximum => Ok(
            BuilderView {
                global: GlobalState {
                    logical_maximum: Some(maximum_payload(g.logical_minimum, d)),
                    ..g
                },
                ..m
            },
        ),
        GlobalTag::PhysicalMinimum => Ok(
            BuilderView { global: GlobalState { physical_minimum: Some(signed_payload(d)), ..g }, ..m },
        ),
        GlobalTag::PhysicalMaximum => Ok(
            BuilderView {
                global: GlobalState {
                    physical_maximum: Some(maximum_payload(g.physical_minimum, d)),
                    ..g
                },
                ..m
            },
        ),
        GlobalTag::UnitExponent => Ok(
            BuilderView { global: GlobalState { unit_exponent: Some(signed_payload(d)), ..g }, ..m },
        ),
        GlobalTag::Unit => Ok(
            BuilderView { global: GlobalState { unit: Some(unsigned_payload(d)), ..g }, ..m },
        ),
        GlobalTag::ReportSize => Ok(
            BuilderView { global: GlobalState { report_size: Some(unsigned_payload(d)), ..g }, ..m },
        ),
        GlobalTag::ReportId => {
            let id = le_value(d);
            if 1 <= id <= 255 {
                Ok(BuilderView { global: GlobalState { report_id: Some(id as u8), ..g }, ..m })
            } else {
                Err(SemanticError::InvalidReportId)
            }
        },
        GlobalTag::ReportCount => Ok(
            BuilderView { global: GlobalState { report_count: Some(unsigned_payload(d)), ..g }, ..m },
        ),
        GlobalTag::Push => Ok(BuilderView { stack: m.stack.push(g), ..m }),
        GlobalTag::Pop => if m.stack.len() == 0 {
            Err(SemanticError::GlobalStackUnderflow)
        } else {
            Ok(BuilderView { global: m.stack.last(), stack: m.stack.drop_last(), ..m })
        },
        GlobalTag::Unknown(_) => Ok(m),
    }
}

/// The usage page in effect: the global one, or 0 where none is set.
pub open spec fn current_page(g: GlobalState) -> u32 {
    match g.usage_page {
        Some(p) => p,
        None => 0,
    }
}

/// The builder state after a local item.
pub open spec fn apply_local_spec(m: BuilderView, item: LocalItem) -> BuilderView {
    let usage = Usage { page: current_page(m.global), id: unsigned_payload(item.data@) };
    let l = m.local;
    match item.tag {
        LocalTag::Usage => BuilderView { local: LocalView { usages: l.usages.push(usage), ..l }, ..m },
        LocalTag::UsageMinimum => BuilderView {
            local: LocalView { usage_minimum: Some(usage), ..l },
            ..m
        },
        LocalTag::UsageMaximum => BuilderView {
            local: LocalView { usage_maximum: Some(usage), ..l },
            ..m
        },
        _ => m,
    }
}

/// The builder state after any item, or the error it is refused with. A main
/// item clears the local state; reserved and long items change nothing.
pub open spec fn apply_spec(m: BuilderView, item: Item) -> Result<BuilderView, SemanticError> {
    match item {
        Item::Global(g) => apply_global_spec(m, g),
        Item::Local(l) => Ok(apply_local_spec(m, l)),
        Item::Main(_) => Ok(BuilderView { local: empty_local(), ..m }),
        Item::Reserved(_) | Item::Long(_) => Ok(m),
    }
}

/// The builder state after applying `items` in order, or the error of the
/// first one that is refused.
pub open spec fn apply_all(m: BuilderView, items: Seq<Item>) -> Result<BuilderView, SemanticError>
    decreases items.len(),
{
    if items.len() == 0 {
        Ok(m)
    } else {
        match apply_spec(m, items[0]) {
            Ok(next) => apply_all(next, items.drop_first()),
            Err(e) => Err(e),
        }
    }
}

/// Applying two runs of items one after the other is applying their
/// concatenation.
pub proof fn lemma_apply_all_concat(m: BuilderView, a: Seq<Item>, b: Seq<Item>)
    ensures
        apply_all(m, a + b) == (match apply_all(m, a) {
            Ok(x) => apply_all(x, b),
            Err(e) => Err(e),
        }),
    decreases a.len(),
{
    if a.len() == 0 {
        assert(a + b =~= b);
    } else {
        assert((a + b).drop_first() =~= a.drop_first() + b);
        if let Ok(next) = apply_spec(m, a[0]) {
            lemma_apply_all_concat(next, a.drop_first(), b);
        }
    }
}

/// How many global states an item saves (1 for Push), restores (-1 for Pop) or
/// neither (0).
pub open spec fn stack_effect(item: Item) -> int {
    match item {
        Item::Global(g) => if g.tag is Push {
            1
        } else if g.tag is Pop {
            -1
        } else {
            0
        },
        _ => 0,
    }
}

/// Pushes minus Pops over a run of items.
pub open spec fn stack_depth(items: Seq<Item>) -> int
    decreases items.len(),
{
    if items.len() == 0 {
        0
    } else {
        stack_depth(items.drop_last()) + stack_effect(items.last())
    }
}

/// Whether every Pop in a run of items is matched by an earlier Push of the
/// same run: no prefix pops more than it pushed.
pub open spec fn pops_matched(items: Seq<Item>) -> bool {
    forall|k: int| 0 <= k <= items.len() ==> stack_depth(#[trigger] items.take(k)) >= 0
}

/// Whether a run of items is balanced: every Pop is matched by an earlier Push
/// of the run, and every Push by a later Pop.
pub open spec fn balanced(items: Seq<Item>) -> bool {
    pops_matched(items) && stack_depth(items) == 0
}

/// A run whose Pops are all matched by its own Pushes leaves the saved states
/// that it started with in place, with as many more on top as it pushed net.
pub proof fn lemma_matched_run_keeps_stack_bottom(m: BuilderView, items: Seq<Item>)
    requires
        pops_matched(items),
    ensures
        apply_all(m, items) matches Ok(x) ==> (x.stack.len() == m.stack.len() + stack_depth(items)
            && x.stack.subrange(0, m.stack.len() as int) == m.stack),
    decreases items.len(),
{
    if items.len() > 0 {
        let init = items.drop_last();
        let last = items.last();
        assert forall|k: int| 0 <= k <= init.len() implies stack_depth(#[trigger] init.take(k)) >= 0 by {
            assert(init.take(k) =~= items.take(k));
        }
        lemma_matched_run_keeps_stack_bottom(m, init);
        assert(items =~= init + seq![last]);
        lemma_apply_all_concat(m, init, seq![last]);
        assert(items.take(items.len() as int) =~= items);
        if let Ok(y) = apply_all(m, init) {
            let one = seq![last];
            assert(one[0] == last);
            assert(one.drop_first() =~= Seq::<Item>::empty());
            if let Ok(x) = apply_spec(y, last) {
                assert(apply_all(y, one) == apply_all(x, Seq::<Item>::empty()));
                assert(x.stack.subrange(0, m.stack.len() as int) =~= m.stack);
            }
        }
    }
}

/// Push saves the global state and the matching Pop restores it: after Push,
/// any balanced run of accepted items (Pushes and Pops nested inside it
/// included), then Pop, the Pop is accepted and the global state and the saved
/// states are as before the Push.
pub proof fn lemma_push_pop_restores_global(
    m: BuilderView,
    push: GlobalItem,
    items: Seq<Item>,
    pop: GlobalItem,
)
    requires
        push.tag is Push,
        pop.tag is Pop,
        balanced(items),
    ensures
        apply_all(m, seq![Item::Global(push)] + items) is Ok ==> (apply_all(
            m,
            seq![Item::Global(push)] + items + seq![Item::Global(pop)],
        ) matches Ok(after) && after.global == m.global && after.stack == m.stack),
{
    let first = seq![Item::Global(push)];
    let last = seq![Item::Global(pop)];
    let pushed = BuilderView { stack: m.stack.push(m.global), ..m };
    assert(apply_spec(m, Item::Global(push)) == Ok::<BuilderView, SemanticError>(pushed));
    lemma_apply_all_concat(m, first, items);
    lemma_apply_all_concat(m, first + items, last);
    assert(first[0] == Item::Global(push));
    assert(first.drop_first() =~= Seq::<Item>::empty());
    assert(apply_all(m, first) == apply_all(pushed, Seq::<Item>::empty()));
    assert(apply_all(m, first) == Ok::<BuilderView, SemanticError>(pushed));
    assert(apply_all(m, first + items) == apply_all(pushed, items));
    lemma_matched_run_keeps_stack_bottom(pushed, items);
    if let Ok(x) = apply_all(pushed, items) {
        assert(x.stack =~= pushed.stack);
        let after = BuilderView { global: x.stack.last(), stack: x.stack.drop_last(), ..x };
        assert(x.stack.drop_last() =~= m.stack);
        assert(apply_spec(x, Item::Global(pop)) == Ok::<BuilderView, SemanticError>(after));
        assert(last[0] == Item::Global(pop));
        assert(last.drop_first() =~= Seq::<Item>::empty());
        assert(apply_all(x, last) == apply_all(after, Seq::<Item>::empty()));
        assert(apply_all(m, first + items + last) == Ok::<BuilderView, SemanticError>(after));
    }
}

/// Byte `i` of a payload, or 0 past its end.
pub open spec fn payload_byte(d: Seq<u8>, i: int) -> int {
    if 0 <= i < d.len() {
        d[i] as int
    } else {
        0
    }
}

/// The number that a payload of up to four bytes spells when its first byte is
/// the least significant.
pub open spec fn spelled_number(d: Seq<u8>) -> int {
    payload_byte(d, 0) + 0x100 * payload_byte(d, 1) + 0x1_0000 * payload_byte(d, 2) + 0x100_0000
        * payload_byte(d, 3)
}

/// The two's-complement value of the `n`-byte number `u`: `u` itself while its
/// top bit is clear, `u - 2^(8n)` when it is set; 0 for no bytes.
pub open spec fn twos_complement(u: int, n: nat) -> int {
    let span: int = if n == 1 {
        0x100
    } else if n == 2 {
        0x1_0000
    } else {
        0x1_0000_0000
    };
    if n == 0 {
        0
    } else if u < span / 2 {
        u
    } else {
        u - span
    }
}

/// A payload's little-endian value is the number its bytes spell.
pub proof fn lemma_le_value_spells(d: Seq<u8>)
    requires
        d.len() <= 4,
    ensures
        le_value(d) == spelled_number(d),
        0 <= spelled_number(d) < 0x1_0000_0000,
        d.len() <= 1 ==> spelled_number(d) < 0x100,
        d.len() <= 2 ==> spelled_number(d) < 0x1_0000,
{
    reveal_with_fuel(le_value, 5);
    if d.len() >= 1 {
        assert(d.drop_first() =~= d.subrange(1, d.len() as int));
    }
    if d.len() >= 2 {
        assert(d.drop_first().drop_first() =~= d.subrange(2, d.len() as int));
    }
    if d.len() >= 3 {
        assert(d.drop_first().drop_first().drop_first() =~= d.subrange(3, d.len() as int));
    }
    if d.len() >= 4 {
        assert(d.drop_first().drop_first().drop_first().drop_first() =~= d.subrange(4, d.len() as int));
    }
}

/// Usage Page, Unit, Report Size and Report Count take the number their payload
/// spells, little-endian, and change nothing else.
pub proof fn lemma_unsigned_global_values(m: BuilderView, item: GlobalItem)
    requires
        item.data@.len() <= 4,
    ensures
        ({
            let u = spelled_number(item.data@) as u32;
            let g = m.global;
            let r = apply_spec(m, Item::Global(item));
            &&& item.tag is UsagePage ==> r == Ok::<BuilderView, SemanticError>(
                BuilderView { global: GlobalState { usage_page: Some(u), ..g }, ..m },
            )
            &&& item.tag is Unit ==> r == Ok::<BuilderView, SemanticError>(
                BuilderView { global: GlobalState { unit: Some(u), ..g }, ..m },
            )
            &&& item.tag is ReportSize ==> r == Ok::<BuilderView, SemanticError>(
                BuilderView { global: GlobalState { report_size: Some(u), ..g }, ..m },
            )
            &&& item.tag is ReportCount ==> r == Ok::<BuilderView, SemanticError>(
                BuilderView { global: GlobalState { report_count: Some(u), ..g }, ..m },
            )
            &&& item.tag is ReportId ==> (if 1 <= spelled_number(item.data@) <= 255 {
                r == Ok::<BuilderView, SemanticError>(
                    BuilderView {
                        global: GlobalState { report_id: Some(spelled_number(item.data@) as u8), ..g },
                        ..m
                    },
                )
            } else {
                r == Err::<BuilderView, SemanticError>(SemanticError::InvalidReportId)
            })
        }),
{
    lemma_le_value_spells(item.data@);
}

/// Logical Minimum, Physical Minimum and Unit Exponent take the two's-complement
/// value of their payload at its own width (0 for an empty payload), and change
/// nothing else.
pub proof fn lemma_signed_global_values(m: BuilderView, item: GlobalItem)
    requires
        item.data@.len() == 0 || item.data@.len() == 1 || item.data@.len() == 2 || item.data@.len() == 4,
    ensures
        ({
            let v = twos_complement(spelled_number(item.data@), item.data@.len()) as i32;
            let g = m.global;
            let r = apply_spec(m, Item::Global(item));
            &&& item.tag is LogicalMinimum ==> r == Ok::<BuilderView, SemanticError>(
                BuilderView { global: GlobalState { logical_minimum: Some(v), ..g }, ..m },
            )
            &&& item.tag is PhysicalMinimum ==> r == Ok::<BuilderView, SemanticError>(
                BuilderView { global: GlobalState { physical_minimum: Some(v), ..g }, ..m },
            )
            &&& item.tag is UnitExponent ==> r == Ok::<BuilderView, SemanticError>(
                BuilderView { global: GlobalState { unit_exponent: Some(v), ..g }, ..m },
            )
        }),
        -0x8000_0000 <= twos_complement(spelled_number(item.data@), item.data@.len()) < 0x8000_0000,
{
    lemma_le_value_spells(item.data@);
}

/// A Logical (Physical) Maximum is read as a two's-complement value of its own
/// width exactly when the current Logical (Physical) Minimum is set and
/// negative; otherwise the number its payload spells is taken with its 32 bits
/// as an `i32`. Nothing else changes.
pub proof fn lemma_maximum_global_values(m: BuilderView, item: GlobalItem)
    requires
        payload_readable(m.global, Item::Global(item)),
        item.tag is LogicalMaximum || item.tag is PhysicalMaximum,
    ensures
        ({
            let u = spelled_number(item.data@);
            let n = item.data@.len();
            let g = m.global;
            let r = apply_spec(m, Item::Global(item));
            let min_negative = if item.tag is LogicalMaximum {
                g.logical_minimum matches Some(v) && v < 0
            } else {
                g.physical_minimum matches Some(v) && v < 0
            };
            let v = (if min_negative {
                twos_complement(u, n)
            } else {
                twos_complement(u, 4)
            }) as i32;
            &&& item.tag is LogicalMaximum ==> r == Ok::<BuilderView, SemanticError>(
                BuilderView { global: GlobalState { logical_maximum: Some(v), ..g }, ..m },
            )
            &&& item.tag is PhysicalMaximum ==> r == Ok::<BuilderView, SemanticError>(
                BuilderView { global: GlobalState { physical_maximum: Some(v), ..g }, ..m },
            )
        }),
{
    lemma_le_value_spells(item.data@);
}

/// Usage, Usage Minimum and Usage Maximum name the usage whose page is the
/// current Usage Page (0 where none is set) and whose id is the whole number
/// their payload spells: Usage appends it to the usages, Usage Minimum and
/// Usage Maximum set it. Nothing else changes.
pub proof fn lemma_usage_values(m: BuilderView, item: LocalItem)
    requires
        item.data@.len() <= 4,
    ensures
        ({
            let page = match m.global.usage_page {
                Some(p) => p,
                None => 0,
            };
            let u = Usage { page, id: spelled_number(item.data@) as u32 };
            let l = m.local;
            let r = apply_spec(m, Item::Local(item));
            &&& item.tag is Usage ==> r == Ok::<BuilderView, SemanticError>(
                BuilderView { local: LocalView { usages: l.usages.push(u), ..l }, ..m },
            )
            &&& item.tag is UsageMinimum ==> r == Ok::<BuilderView, SemanticError>(
                BuilderView { local: LocalView { usage_minimum: Some(u), ..l }, ..m },
            )
            &&& item.tag is UsageMaximum ==> r == Ok::<BuilderView, SemanticError>(
                BuilderView { local: LocalView { usage_maximum: Some(u), ..l }, ..m },
            )
        }),
{
    lemma_le_value_spells(item.data@);
}

/// A main item clears the local state and keeps the global state and the saved
/// global states.
pub proof fn lemma_main_item_clears_local(m: BuilderView, item: crate::item::MainItem)
    ensures
        apply_spec(m, Item::Main(item)) == Ok::<BuilderView, SemanticError>(
            BuilderView { local: empty_local(), ..m },
        ),
{
}

/// Global items never change the local state; local items never change the
/// global state or the saved global states.
pub proof fn lemma_scopes_are_separate(m: BuilderView, item: Item)
    ensures
        item is Global ==> (apply_spec(m, item) matches Ok(x) ==> x.local == m.local),
        item is Local ==> (apply_spec(m, item) matches Ok(x) && x.global == m.global && x.stack
            == m.stack),
{
}

/// Reserved items, long items, unknown global tags and local tags other than
/// Usage, Usage Minimum and Usage Maximum are accepted and change nothing.
pub proof fn lemma_uninterpreted_items_change_nothing(m: BuilderView, item: Item)
    requires
        item is Reserved || item is Long || (item matches Item::Global(g) && g.tag is Unknown) || (
        item matches Item::Local(l) && !(l.tag is Usage || l.tag is UsageMinimum
            || l.tag is UsageMaximum)),
    ensures
        apply_spec(m, item) == Ok::<BuilderView, SemanticError>(m),
{
}

/// An item is refused exactly when it is a Pop with no saved state, or a
/// Report ID whose value is 0 or above 255.
pub proof fn lemma_refusals(m: BuilderView, item: Item)
    ensures
        apply_spec(m, item) == Err::<BuilderView, SemanticError>(SemanticError::GlobalStackUnderflow)
            <==> (item matches Item::Global(g) && g.tag is Pop && m.stack.len() == 0),
        apply_spec(m, item) == Err::<BuilderView, SemanticError>(SemanticError::InvalidReportId)
            <==> (item matches Item::Global(g) && g.tag is ReportId && !(1 <= le_value(g.data@)
            <= 255)),
{
}

/// Every item the parser can read from bytes (see `next_item`) is one whose
/// payload `apply` can read, whatever the state of the builder.
pub proof fn lemma_read_items_are_applicable(global: GlobalState, raw: RawItem)
    requires
        encodable(raw@),
    ensures
        payload_readable(global, <Item as vstd::std_specs::convert::FromSpec<RawItem>>::from_spec(raw)),
{
}

impl Default for DescriptorBuilder {
    fn default() -> (r: Self)
        ensures
            r@ == empty_builder(),
    {
        DescriptorBuilder {
            global: GlobalState::default(),
            global_stack: Vec::new(),
            local: LocalState::default(),
        }
    }
}

impl DescriptorBuilder {
    pub fn new() -> (r: Self)
        ensures
            r@ == empty_builder(),
    {
        Self::default()
    }

    pub fn global(&self) -> (r: &GlobalState)
        ensures
            *r == self@.global,
    {
        &self.global
    }

    pub fn local(&self) -> (r: &LocalState)
        ensures
            r@ == self@.local,
    {
        &self.local
    }

    /// Apply one typed item. Unknown and long items are retained by the syntax
    /// layer but do not mutate the state understood at this milestone.
    pub fn apply(&mut self, item: Item<'_>) -> (res: Result<(), SemanticError>)
        requires
            payload_readable(old(self)@.global, item),
        ensures
            match apply_spec(old(self)@, item) {
                Ok(m) => res is Ok && final(self)@ == m,
                Err(e) => res == Err::<(), SemanticError>(e) && final(self)@ == old(self)@,
            },
    {
        match item {
            Item::Global(item) => self.apply_global(item),
            Item::Local(item) => {
                self.apply_local(item);
                Ok(())
            },
            Item::Main(_) => {
                // Every main item consumes the local state, including an
                // unfamiliar main tag that this parser cannot interpret yet.
                self.local = LocalState::default();
                Ok(())
            },
            Item::Reserved(_) | Item::Long(_) => Ok(()),
        }
    }

    fn apply_global(&mut self, item: GlobalItem<'_>) -> (res: Result<(), SemanticError>)
        requires
            payload_readable(old(self)@.global, Item::Global(item)),
        ensures
            match apply_global_spec(old(self)@, item) {
                Ok(m) => res is Ok && final(self)@ == m,
                Err(e) => res == Err::<(), SemanticError>(e) && final(self)@ == old(self)@,
            },
    {
        match item.tag {
            GlobalTag::UsagePage => self.global.usage_page = Some(unsigned_value(item.data)),
            GlobalTag::LogicalMinimum => {
                self.global.logical_minimum = Some(signed_value(item.data))
            },
            GlobalTag::LogicalMaximum => {
                // HID maxima are signed only when their corresponding minimum is negative.
                let negative_min = match self.global.logical_minimum {
                    Some(v) => v < 0,
                    None => false,
                };
                self.global.logical_maximum = Some(
                    if negative_min {
                        signed_value(item.data)
                    } else {
                        bits_to_i32(unsigned_value(item.data))
                    },
                );
            },
            GlobalTag::PhysicalMinimum => {
                self.global.physical_minimum = Some(signed_value(item.data))
            },
            GlobalTag::PhysicalMaximum => {
                let negative_min = match self.global.physical_minimum {
                    Some(v) => v < 0,
                    None => false,
                };
                self.global.physical_maximum = Some(
                    if negative_min {
                        signed_value(item.data)
                    } else {
                        bits_to_i32(unsigned_value(item.data))
                    },
                );
            },
            GlobalTag::UnitExponent => self.global.unit_exponent = Some(signed_value(item.data)),
            GlobalTag::Unit => self.global.unit = Some(unsigned_value(item.data)),
            GlobalTag::ReportSize => self.global.report_size = Some(unsigned_value(item.data)),
            GlobalTag::ReportId => {
                let id = unsigned_value(item.data);
                if 1 <= id && id <= 255 {
                    self.global.report_id = Some(id as u8);
                } else {
                    return Err(SemanticError::InvalidReportId);
                }
            },
            GlobalTag::ReportCount => self.global.report_count = Some(unsigned_value(item.data)),
            GlobalTag::Push => self.global_stack.push(self.global),
            GlobalTag::Pop => {
                match self.global_stack.pop() {
                    Some(saved) => self.global = saved,
                    None => return Err(SemanticError::GlobalStackUnderflow),
                }
            },
            GlobalTag::Unknown(_) => {},
        }
        Ok(())
    }

    fn apply_local(&mut self, item: LocalItem<'_>)
        requires
            payload_readable(old(self)@.global, Item::Local(item)),
        ensures
            final(self)@ == apply_local_spec(old(self)@, item),
    {
        let page = match self.global.usage_page {
            Some(p) => p,
            None => 0,
        };
        match item.tag {
            LocalTag::Usage => {
                let usage = Usage { page, id: unsigned_value(item.data) };
                self.local.usages.push(usage);
            },
            LocalTag::UsageMinimum => {
                self.local.usage_minimum = Some(Usage { page, id: unsigned_value(item.data) });
            },
            LocalTag::UsageMaximum => {
                self.local.usage_maximum = Some(Usage { page, id: unsigned_value(item.data) });
            },
            _ => {},
        }
    }
}

/// HID scalar payloads are little-endian and at most four bytes wide.
fn unsigned_value(data: &[u8]) -> (r: u32)
    requires
        data@.len() <= 4,
    ensures
        r == le_value(data@),
        r == unsigned_payload(data@),
        data@.len() <= 1 ==> r < 0x100,
        data@.len() <= 2 ==> r < 0x1_0000,
{
    let ghost d = data@;
    proof {
        reveal_with_fuel(le_value, 5);
        if d.len() >= 1 {
            assert(d.drop_first() =~= d.subrange(1, d.len() as int));
        }
        if d.len() >= 2 {
            assert(d.drop_first().drop_first() =~= d.subrange(2, d.len() as int));
        }
        if d.len() >= 3 {
            assert(d.drop_first().drop_first().drop_first() =~= d.subrange(3, d.len() as int));
        }
        if d.len() >= 4 {
            assert(d.drop_first().drop_first().drop_first().drop_first() =~= d.subrange(4, d.len() as int));
        }
    }
    let n = data.len();
    if n == 0 {
        0
    } else if n == 1 {
        data[0] as u32
    } else if n == 2 {
        data[0] as u32 + data[1] as u32 * 0x100
    } else if n == 3 {
        data[0] as u32 + data[1] as u32 * 0x100 + data[2] as u32 * 0x1_0000
    } else {
        data[0] as u32 + data[1] as u32 * 0x100 + data[2] as u32 * 0x1_0000 + data[3] as u32
            * 0x100_0000
    }
}

/// Interpret the payload at its encoded width so the sign bit is extended.
fn signed_value(data: &[u8]) -> (r: i32)
    requires
        is_signed_width(data@.len()),
    ensures
        r == signed_payload(data@),
{
    let n = data.len();
    if n == 0 {
        0
    } else if n == 1 {
        let u = unsigned_value(data);
        if u < 0x80 {
            u as i32
        } else {
            u as i32 - 0x100
        }
    } else if n == 2 {
        let u = unsigned_value(data);
        if u < 0x8000 {
            u as i32
        } else {
            u as i32 - 0x1_0000
        }
    } else {
        bits_to_i32(unsigned_value(data))
    }
}

/// The `i32` with the same 32 bits as `u`.
fn bits_to_i32(u: u32) -> (r: i32)
    ensures
        r == bits_as_i32(u),
{
    if u < 0x8000_0000 {
        u as i32
    } else {
        (u - 0x8000_0000) as i32 - 0x7fff_ffff - 1
    }
}

} // verus!
