//! Minimal HID report descriptor parser.
//!
//! Only what discovery needs: which reports (input/output/feature, report ID,
//! byte length) exist inside which top-level application collection
//! (usage page + usage). Used to pick the vendor control interface.

use vstd::prelude::*;

verus! {

#[derive(Debug, Clone, Copy, PartialEq, Eq, Structural, Hash)]
pub enum ReportKind {
    Input,
    Output,
    Feature,
}

#[derive(Debug, Clone, Copy, PartialEq, Eq, Structural)]
pub struct ReportInfo {
    pub kind: ReportKind,
    /// 0 when the descriptor does not use report IDs.
    pub report_id: u8,
    /// Payload length in bytes, excluding the report ID byte.
    pub size_bytes: usize,
    /// Usage page of the enclosing top-level collection.
    pub usage_page: u16,
    /// Usage of the enclosing top-level collection.
    pub usage: u16,
}

/// Global item state: it stays in force until it is changed or popped.
#[derive(Clone, Copy)]
pub struct Globals {
    pub usage_page: u16,
    pub report_size: u32,
    pub report_count: u32,
    pub report_id: u8,
}

/// What identifies a report: fields with the same key share one report.
#[derive(Clone, Copy, PartialEq, Eq, Structural)]
pub struct ReportKey {
    pub kind: ReportKind,
    pub report_id: u8,
    pub usage_page: u16,
    pub usage: u16,
}

/// Bits declared so far for one report.
#[derive(Clone, Copy)]
pub struct Total {
    pub key: ReportKey,
    pub bits: u32,
}

/// One short item of a descriptor.
#[derive(Clone, Copy)]
pub struct Item {
    /// 0 main, 1 global, 2 local, 3 reserved.
    pub item_type: u8,
    pub tag: u8,
    /// Number of data bytes: 0, 1, 2 or 4.
    pub size: usize,
    /// The data bytes as a little-endian number.
    pub value: u32,
}

/// Everything the items read so far have established.
pub struct ParseState {
    pub totals: Seq<Total>,
    pub globals: Globals,
    pub stack: Seq<Globals>,
    /// First Usage of the pending main item, and whether it was an extended
    /// (4 byte) usage that carries its own usage page.
    pub usage: Option<(u32, bool)>,
    pub depth: nat,
    /// Usage page and usage of the current top-level collection.
    pub top: (u16, u16),
}

/// Little-endian value of `data`.
pub open spec fn le_value(data: Seq<u8>) -> nat
    decreases data.len(),
{
    if data.len() == 0 {
        0
    } else {
        data[0] as nat + 256 * le_value(data.skip(1))
    }
}

/// Number of data bytes that a short item's prefix announces.
pub open spec fn data_size(prefix: u8) -> nat {
    if prefix % 4 == 3 {
        4
    } else {
        (prefix % 4) as nat
    }
}

/// The short item at the front of `desc`.
pub open spec fn first_item(desc: Seq<u8>) -> Item {
    Item {
        item_type: (desc[0] / 4) % 4,
        tag: desc[0] / 16,
        size: data_size(desc[0]) as usize,
        value: le_value(desc.subrange(1, 1 + data_size(desc[0]) as int)) as u32,
    }
}

/// Bytes that a long item (prefix 0xFE, size, tag, data) at the front takes.
pub open spec fn long_item_len(desc: Seq<u8>) -> nat {
    3 + if desc.len() > 1 {
        desc[1] as nat
    } else {
        0
    }
}

/// The short items of a descriptor in order. Long items are skipped, and a
/// truncated item ends the descriptor.
pub open spec fn items(desc: Seq<u8>) -> Seq<Item>
    decreases desc.len(),
{
    if desc.len() == 0 {
        seq![]
    } else if desc[0] == 0xFE {
        if long_item_len(desc) >= desc.len() {
            seq![]
        } else {
            items(desc.skip(long_item_len(desc) as int))
        }
    } else if 1 + data_size(desc[0]) > desc.len() {
        seq![]
    } else {
        seq![first_item(desc)] + items(desc.skip(1 + data_size(desc[0]) as int))
    }
}

pub open spec fn initial_globals() -> Globals {
    Globals { usage_page: 0, report_size: 0, report_count: 0, report_id: 0 }
}

pub open spec fn initial_state() -> ParseState {
    ParseState {
        totals: seq![],
        globals: initial_globals(),
        stack: seq![],
        usage: None,
        depth: 0,
        top: (0, 0),
    }
}

/// Index of the first total with `key` at or after `from`; the length if
/// there is none.
pub open spec fn slot(totals: Seq<Total>, key: ReportKey, from: nat) -> nat
    decreases totals.len() - from,
{
    if from >= totals.len() {
        totals.len()
    } else if totals[from as int].key == key {
        from
    } else {
        slot(totals, key, from + 1)
    }
}

pub open spec fn saturated(n: int) -> u32 {
    if n > u32::MAX {
        u32::MAX
    } else {
        n as u32
    }
}

/// `bits` more bits for the report `key`, which is entered if it is new.
pub open spec fn with_bits(totals: Seq<Total>, key: ReportKey, bits: u32) -> Seq<Total> {
    let at = slot(totals, key, 0) as int;
    if at < totals.len() {
        totals.update(at, Total { key, bits: saturated(totals[at].bits + bits) })
    } else {
        totals.push(Total { key, bits })
    }
}

/// The report kind that a main item's tag declares.
pub open spec fn kind_of_tag(tag: u8) -> Option<ReportKind> {
    if tag == 0x8 {
        Some(ReportKind::Input)
    } else if tag == 0x9 {
        Some(ReportKind::Output)
    } else if tag == 0xB {
        Some(ReportKind::Feature)
    } else {
        None
    }
}

/// Usage page and usage of a top-level collection that opens in `s`: the
/// pending usage, on its own page if it is extended.
pub open spec fn opened_collection(s: ParseState) -> (u16, u16) {
    match s.usage {
        None => (s.globals.usage_page, 0),
        Some((usage, extended)) => (
            if extended {
                (usage / 0x1_0000) as u16
            } else {
                s.globals.usage_page
            },
            (usage % 0x1_0000) as u16,
        ),
    }
}

/// The report that a main item of `kind` adds to in state `s`.
pub open spec fn current_key(s: ParseState, kind: ReportKind) -> ReportKey {
    ReportKey {
        kind,
        report_id: s.globals.report_id,
        usage_page: s.top.0,
        usage: s.top.1,
    }
}

pub open spec fn main_item(s: ParseState, tag: u8) -> ParseState {
    let after = if tag == 0xA {
        ParseState {
            top: if s.depth == 0 {
                opened_collection(s)
            } else {
                s.top
            },
            depth: s.depth + 1,
            ..s
        }
    } else if tag == 0xC {
        ParseState {
            depth: if s.depth == 0 {
                0
            } else {
                (s.depth - 1) as nat
            },
            ..s
        }
    } else {
        match kind_of_tag(tag) {
            Some(kind) => ParseState {
                totals: with_bits(
                    s.totals,
                    current_key(s, kind),
                    saturated(s.globals.report_size * s.globals.report_count),
                ),
                ..s
            },
            None => s,
        }
    };
    // Local items only apply to the next main item.
    ParseState { usage: None, ..after }
}

pub open spec fn global_item(s: ParseState, tag: u8, value: u32) -> ParseState {
    if tag == 0x0 {
        ParseState {
            globals: Globals { usage_page: (value % 0x1_0000) as u16, ..s.globals },
            ..s
        }
    } else if tag == 0x7 {
        ParseState { globals: Globals { report_size: value, ..s.globals }, ..s }
    } else if tag == 0x8 {
        ParseState { globals: Globals { report_id: (value % 0x100) as u8, ..s.globals }, ..s }
    } else if tag == 0x9 {
        ParseState { globals: Globals { report_count: value, ..s.globals }, ..s }
    } else if tag == 0xA {
        ParseState { stack: s.stack.push(s.globals), ..s }
    } else if tag == 0xB && s.stack.len() > 0 {
        ParseState { globals: s.stack.last(), stack: s.stack.drop_last(), ..s }
    } else {
        s
    }
}

/// The effect of one item.
pub open spec fn apply_item(s: ParseState, item: Item) -> ParseState {
    if item.item_type == 0 {
        main_item(s, item.tag)
    } else if item.item_type == 1 {
        global_item(s, item.tag, item.value)
    } else if item.item_type == 2 && item.tag == 0 && s.usage is None {
        ParseState { usage: Some((item.value, item.size == 4)), ..s }
    } else {
        s
    }
}

pub open spec fn apply_items(s: ParseState, todo: Seq<Item>) -> ParseState
    decreases todo.len(),
{
    if todo.len() == 0 {
        s
    } else {
        apply_items(apply_item(s, todo[0]), todo.skip(1))
    }
}

/// A finished report: its total in whole bytes, rounded up.
pub open spec fn finished(total: Total) -> ReportInfo {
    ReportInfo {
        kind: total.key.kind,
        report_id: total.key.report_id,
        size_bytes: ((total.bits + 7) / 8) as usize,
        usage_page: total.key.usage_page,
        usage: total.key.usage,
    }
}

/// The reports that `desc` declares, in the order of their first field.
pub open spec fn declared_reports(desc: Seq<u8>) -> Seq<ReportInfo> {
    apply_items(initial_state(), items(desc)).totals.map_values(|t: Total| finished(t))
}

/// Does `r` match what [`find_report`] is asked for?
pub open spec fn report_matches(r: ReportInfo, usage_page: u16, kind: ReportKind, report_id: u8) -> bool {
    r.usage_page == usage_page && r.kind == kind && r.report_id == report_id
}

/// Two fields belong to the same report exactly if their keys agree.
pub open spec fn same_report(a: ReportInfo, b: ReportInfo) -> bool {
    a.kind == b.kind && a.report_id == b.report_id && a.usage_page == b.usage_page && a.usage == b.usage
}

spec fn distinct_keys(totals: Seq<Total>) -> bool {
    forall|i: int, j: int| 0 <= i < j < totals.len() ==> totals[i].key != totals[j].key
}

proof fn slot_bounds(totals: Seq<Total>, key: ReportKey, from: nat)
    requires
        from <= totals.len(),
    ensures
        from <= slot(totals, key, from) <= totals.len(),
        slot(totals, key, from) < totals.len() ==> totals[slot(totals, key, from) as int].key == key,
        forall|i: int| from <= i < slot(totals, key, from) ==> totals[i].key != key,
    decreases totals.len() - from,
{
    if from < totals.len() && totals[from as int].key != key {
        slot_bounds(totals, key, from + 1);
    }
}

proof fn items_keep_keys_distinct(s: ParseState, todo: Seq<Item>)
    requires
        distinct_keys(s.totals),
    ensures
        distinct_keys(apply_items(s, todo).totals),
    decreases todo.len(),
{
    if todo.len() > 0 {
        let next = apply_item(s, todo[0]);
        if todo[0].item_type == 0 {
            match kind_of_tag(todo[0].tag) {
                Some(kind) => slot_bounds(s.totals, current_key(s, kind), 0),
                None => {},
            }
        }
        assert(distinct_keys(next.totals));
        items_keep_keys_distinct(next, todo.skip(1));
    }
}

/// Bytes that the item at the front of `desc` takes.
pub open spec fn item_len(desc: Seq<u8>) -> nat {
    if desc[0] == 0xFE {
        long_item_len(desc)
    } else {
        1 + data_size(desc[0])
    }
}

/// Does `desc` end with a whole item, or hold none at all?
pub open spec fn whole(desc: Seq<u8>) -> bool
    decreases desc.len(),
{
    desc.len() == 0 || item_len(desc) <= desc.len() && whole(desc.skip(item_len(desc) as int))
}

/// Is `tail` the beginning of one item, without its end?
pub open spec fn cut_off(tail: Seq<u8>) -> bool {
    0 < tail.len() < item_len(tail)
}

proof fn cut_off_items_do_not_count(desc: Seq<u8>, tail: Seq<u8>)
    requires
        whole(desc),
        cut_off(tail),
    ensures
        items(desc + tail) == items(desc),
    decreases desc.len(),
{
    let all = desc + tail;
    if desc.len() == 0 {
        assert(all =~= tail);
    } else {
        let n = item_len(desc) as int;
        assert(item_len(all) == n);
        assert(all.skip(n) =~= desc.skip(n) + tail);
        cut_off_items_do_not_count(desc.skip(n), tail);
        if desc[0] != 0xFE {
            assert(all.subrange(1, n) =~= desc.subrange(1, n));
        } else if n == desc.len() {
            assert(desc.skip(n).len() == 0);
        }
    }
}

/// A descriptor whose last item is cut off declares the same reports as
/// without that item.
pub proof fn cut_off_items_declare_nothing(desc: Seq<u8>, tail: Seq<u8>)
    requires
        whole(desc),
        cut_off(tail),
    ensures
        declared_reports(desc + tail) == declared_reports(desc),
{
    cut_off_items_do_not_count(desc, tail);
}

/// Fields are merged per (collection, kind, report ID): no report is listed
/// twice.
pub proof fn reports_are_merged(desc: Seq<u8>)
    ensures
        forall|i: int, j: int|
            #![trigger declared_reports(desc)[i], declared_reports(desc)[j]]
            0 <= i < j < declared_reports(desc).len() ==> !same_report(
                declared_reports(desc)[i],
                declared_reports(desc)[j],
            ),
{
    items_keep_keys_distinct(initial_state(), items(desc));
    let totals = apply_items(initial_state(), items(desc)).totals;
    assert forall|i: int, j: int|
        #![trigger declared_reports(desc)[i], declared_reports(desc)[j]]
        0 <= i < j < declared_reports(desc).len() implies !same_report(
        declared_reports(desc)[i],
        declared_reports(desc)[j],
    ) by {
        assert(totals[i].key != totals[j].key);
    }
}

/// A descriptor that declares one report: usage page, usage, an application
/// collection, and in it a report number, a field size, a field count and the
/// field itself, which `main` tells as input, output or feature.
pub open spec fn one_report(page: u16, usage: u8, report_id: u8, size: u8, count: u8, main: u8) -> Seq<u8> {
    seq![
        0x06u8,
        (page % 256) as u8,
        (page / 256) as u8,
        0x09u8,
        usage,
        0xA1u8,
        0x01u8,
        0x85u8,
        report_id,
        0x75u8,
        size,
        0x95u8,
        count,
        main,
        0x02u8,
        0xC0u8,
    ]
}

/// An item announces no data, one byte, two or four, and what it carries is a
/// little-endian number.
pub proof fn items_carry_numbers(prefix: u8, a: u8, b: u8, c: u8, d: u8, rest: Seq<u8>)
    ensures
        prefix % 4 == 0 ==> data_size(prefix) == 0 && first_item(seq![prefix] + rest).value == 0,
        prefix % 4 == 1 ==> data_size(prefix) == 1 && first_item(seq![prefix, a] + rest).value == a,
        prefix % 4 == 2 ==> data_size(prefix) == 2 && first_item(seq![prefix, a, b] + rest).value == a + 0x100 * b,
        prefix % 4 == 3 ==> data_size(prefix) == 4 && first_item(seq![prefix, a, b, c, d] + rest).value == a + 0x100 * b
            + 0x1_0000 * c + 0x100_0000 * d,
        first_item(seq![prefix] + rest).tag == prefix / 16,
        first_item(seq![prefix] + rest).item_type == prefix / 4 % 4,
{
    le_value_bound((seq![prefix] + rest).subrange(1, 1));
    le_value_bound((seq![prefix, a] + rest).subrange(1, 2));
    le_value_bound((seq![prefix, a, b] + rest).subrange(1, 3));
    le_value_bound((seq![prefix, a, b, c, d] + rest).subrange(1, 5));
}

/// A long item is passed over as a whole, whatever it holds.
pub proof fn long_items_are_passed_over(size: u8, tag: u8, data: Seq<u8>, rest: Seq<u8>)
    requires
        data.len() == size,
    ensures
        items(seq![0xFEu8, size, tag] + data + rest) == items(rest),
{
    let desc = seq![0xFEu8, size, tag] + data + rest;
    if rest.len() > 0 {
        assert(desc.skip(3 + size) =~= rest);
    } else {
        assert(items(rest) =~= seq![]);
    }
}

/// An item with one byte of data at `at` and what it leaves of `desc`.
proof fn short_item(desc: Seq<u8>, at: int)
    requires
        0 <= at,
        at + 2 <= desc.len(),
        desc[at] % 4 == 1,
        desc[at] != 0xFE,
    ensures
        items(desc.skip(at)) == seq![
            Item { item_type: (desc[at] / 4) % 4, tag: desc[at] / 16, size: 1, value: desc[at + 1] as u32 },
        ] + items(desc.skip(at + 2)),
{
    let rest = desc.skip(at);
    le_value_bound(rest.subrange(1, 2));
    assert(rest.skip(2) =~= desc.skip(at + 2));
}

/// The effect of the first of several items.
proof fn next_item(s: ParseState, item: Item, rest: Seq<Item>)
    ensures
        apply_items(s, seq![item] + rest) == apply_items(apply_item(s, item), rest),
{
    assert((seq![item] + rest).skip(1) =~= rest);
}

/// A report is found where a descriptor declares it: with its kind, its number,
/// the page and usage of its collection, and as many bytes as its fields need.
pub proof fn declared_reports_are_found(page: u16, usage: u8, report_id: u8, size: u8, count: u8, main: u8)
    requires
        main == 0x81 || main == 0x91 || main == 0xB1,
    ensures
        ({
            let found = declared_reports(one_report(page, usage, report_id, size, count, main));
            &&& found.len() == 1
            &&& found[0].report_id == report_id
            &&& found[0].usage_page == page && found[0].usage == usage
            &&& main == 0x81 ==> found[0].kind is Input
            &&& main == 0x91 ==> found[0].kind is Output
            &&& main == 0xB1 ==> found[0].kind is Feature
            &&& size * count <= 8 * found[0].size_bytes < size * count + 8
        }),
{
    let desc = one_report(page, usage, report_id, size, count, main);
    let s0 = initial_state();
    le_value_bound(desc.subrange(1, 3));
    assert(le_value(desc.subrange(1, 3)) == page);
    let i0 = Item { item_type: 1, tag: 0, size: 2, value: page as u32 };
    assert(first_item(desc) == i0);
    short_item(desc, 3);
    short_item(desc, 5);
    short_item(desc, 7);
    short_item(desc, 9);
    short_item(desc, 11);
    short_item(desc, 13);
    let i1 = Item { item_type: 2, tag: 0, size: 1, value: usage as u32 };
    let i2 = Item { item_type: 0, tag: 0xA, size: 1, value: 1 };
    let i3 = Item { item_type: 1, tag: 8, size: 1, value: report_id as u32 };
    let i4 = Item { item_type: 1, tag: 7, size: 1, value: size as u32 };
    let i5 = Item { item_type: 1, tag: 9, size: 1, value: count as u32 };
    let i6 = Item { item_type: 0, tag: main / 16, size: 1, value: 2 };
    let i7 = Item { item_type: 0, tag: 0xC, size: 0, value: 0 };
    let last = desc.skip(15);
    le_value_bound(last.subrange(1, 1));
    assert(last.skip(1) =~= seq![]);
    assert(items(last.skip(1)) =~= seq![]);
    assert(items(last) =~= seq![i7]);
    let rest: Seq<Item> = seq![];
    assert(seq![i7] =~= seq![i7] + rest);
    let s1 = apply_item(s0, i0);
    next_item(s0, i0, items(desc.skip(3)));
    let s2 = apply_item(s1, i1);
    next_item(s1, i1, items(desc.skip(5)));
    let s3 = apply_item(s2, i2);
    next_item(s2, i2, items(desc.skip(7)));
    let s4 = apply_item(s3, i3);
    next_item(s3, i3, items(desc.skip(9)));
    let s5 = apply_item(s4, i4);
    next_item(s4, i4, items(desc.skip(11)));
    let s6 = apply_item(s5, i5);
    next_item(s5, i5, items(desc.skip(13)));
    let s7 = apply_item(s6, i6);
    next_item(s6, i6, items(last));
    next_item(s7, i7, rest);
    assert(s3.top == (page, usage as u16));
    assert(size * count <= 255 * 255) by (nonlinear_arith)
        requires
            0 <= size <= 255,
            0 <= count <= 255,
    ;
    assert(s7.totals.len() == 1);
    assert(apply_items(s0, items(desc)).totals == s7.totals);
}

/// Fields of the same report add up, and fields of another leave it alone.
pub proof fn fields_add_up(totals: Seq<Total>, key: ReportKey, bits: u32, i: int)
    requires
        0 <= i < totals.len(),
        forall|j: int| 0 <= j < i ==> (#[trigger] totals[j]).key != totals[i].key,
    ensures
        totals[i].key == key && totals[i].bits + bits <= u32::MAX ==> with_bits(totals, key, bits)[i].bits
            == totals[i].bits + bits && with_bits(totals, key, bits).len() == totals.len(),
        totals[i].key != key ==> with_bits(totals, key, bits)[i] == totals[i],
        with_bits(totals, key, bits)[i].key == totals[i].key,
{
    slot_bounds(totals, key, 0);
}

/// What is set between a push and its pop is undone by the pop.
pub proof fn popped_settings_are_restored(s: ParseState, tag: u8, value: u32)
    requires
        tag < 0xA,
    ensures
        ({
            let pushed = global_item(s, 0xA, 0);
            let changed = global_item(pushed, tag, value);
            global_item(changed, 0xB, 0) == s
        }),
        s.stack.len() == 0 ==> global_item(s, 0xB, value) == s,
{
    assert(s.stack.push(s.globals).drop_last() =~= s.stack);
}

/// A usage of four bytes brings its own page, any other is on the page in
/// force; only the first usage before a collection counts, and a nested
/// collection does not change where reports belong.
pub proof fn collections_have_their_usage(s: ParseState, usage: u32)
    ensures
        s.depth == 0 && s.usage == Some((usage, true)) ==> main_item(s, 0xA).top == ((usage / 0x1_0000) as u16, (usage
            % 0x1_0000) as u16),
        s.depth == 0 && s.usage == Some((usage, false)) && usage < 0x1_0000 ==> main_item(s, 0xA).top == (
            s.globals.usage_page,
            usage as u16,
        ),
        s.depth > 0 ==> main_item(s, 0xA).top == s.top,
        main_item(main_item(s, 0xA), 0xC).depth == s.depth,
        main_item(s, 0xA).usage is None,
        s.usage is Some ==> apply_item(s, Item { item_type: 2, tag: 0, size: 1, value: usage }) == s,
        s.usage is None ==> apply_item(s, Item { item_type: 2, tag: 0, size: 4, value: usage }).usage == Some(
            (usage, true),
        ),
{
}

struct Parser {
    totals: Vec<Total>,
    globals: Globals,
    stack: Vec<Globals>,
    usage: Option<(u32, bool)>,
    depth: usize,
    top: (u16, u16),
}

impl Parser {
    spec fn state(&self) -> ParseState {
        ParseState {
            totals: self.totals@,
            globals: self.globals,
            stack: self.stack@,
            usage: self.usage,
            depth: self.depth as nat,
            top: self.top,
        }
    }

    fn new() -> (r: Self)
        ensures
            r.state() == initial_state(),
    {
        let p = Parser {
            totals: Vec::new(),
            globals: Globals { usage_page: 0, report_size: 0, report_count: 0, report_id: 0 },
            stack: Vec::new(),
            usage: None,
            depth: 0,
            top: (0, 0),
        };
        assert(p.totals@ =~= seq![]);
        assert(p.stack@ =~= seq![]);
        p
    }

    fn add_bits(&mut self, key: ReportKey, bits: u32)
        ensures
            final(self).state() == (ParseState {
                totals: with_bits(old(self).state().totals, key, bits),
                ..old(self).state()
            }),
    {
        let mut at: usize = 0;
        while at < self.totals.len() && self.totals[at].key != key
            invariant
                at <= self.totals.len(),
                *self == *old(self),
                slot(self.totals@, key, 0) == slot(self.totals@, key, at as nat),
            decreases self.totals.len() - at,
        {
            at += 1;
        }
        if at < self.totals.len() {
            let bits = self.totals[at].bits.saturating_add(bits);
            self.totals.set(at, Total { key, bits });
        } else {
            self.totals.push(Total { key, bits });
        }
    }

    fn main_item(&mut self, tag: u8)
        requires
            old(self).depth < usize::MAX,
        ensures
            final(self).state() == main_item(old(self).state(), tag),
            final(self).depth <= old(self).depth + 1,
    {
        if tag == 0xA {
            if self.depth == 0 {
                let (usage, extended) = match self.usage {
                    Some(u) => u,
                    None => (0, false),
                };
                assert(usage >> 16 == usage / 0x1_0000) by (bit_vector);
                assert(usage as u16 == (usage % 0x1_0000) as u16) by (bit_vector);
                let page: u16 = if extended {
                    (usage >> 16) as u16
                } else {
                    self.globals.usage_page
                };
                self.top = (page, usage as u16);
            }
            self.depth += 1;
        } else if tag == 0xC {
            self.depth = self.depth.saturating_sub(1);
        } else if tag == 0x8 || tag == 0x9 || tag == 0xB {
            let kind = match tag {
                0x8 => ReportKind::Input,
                0x9 => ReportKind::Output,
                _ => ReportKind::Feature,
            };
            let size: u64 = self.globals.report_size as u64;
            let count: u64 = self.globals.report_count as u64;
            assert(size * count <= 0xFFFF_FFFF * 0xFFFF_FFFF) by (nonlinear_arith)
                requires
                    0 <= size <= 0xFFFF_FFFF,
                    0 <= count <= 0xFFFF_FFFF,
            ;
            let product: u64 = size * count;
            let bits: u32 = if product > u32::MAX as u64 {
                u32::MAX
            } else {
                product as u32
            };
            let (usage_page, usage) = self.top;
            let report_id: u8 = self.globals.report_id;
            self.add_bits(ReportKey { kind, report_id, usage_page, usage }, bits);
        }
        self.usage = None;
    }

    fn global_item(&mut self, tag: u8, value: u32)
        ensures
            final(self).state() == global_item(old(self).state(), tag, value),
            final(self).depth == old(self).depth,
    {
        match tag {
            0x0 => {
                assert(value as u16 == (value % 0x1_0000) as u16) by (bit_vector);
                self.globals.usage_page = value as u16;
            },
            0x7 => self.globals.report_size = value,
            0x8 => {
                assert(value as u8 == (value % 0x100) as u8) by (bit_vector);
                self.globals.report_id = value as u8;
            },
            0x9 => self.globals.report_count = value,
            0xA => self.stack.push(self.globals),
            0xB => {
                if let Some(g) = self.stack.pop() {
                    self.globals = g;
                }
            },
            _ => {},
        }
    }

    fn item(&mut self, item: Item)
        requires
            old(self).depth < usize::MAX,
        ensures
            final(self).state() == apply_item(old(self).state(), item),
            final(self).depth <= old(self).depth + 1,
    {
        if item.item_type == 0 {
            self.main_item(item.tag);
        } else if item.item_type == 1 {
            self.global_item(item.tag, item.value);
        } else if item.item_type == 2 && item.tag == 0 && self.usage.is_none() {
            self.usage = Some((item.value, item.size == 4));
        }
    }
}

proof fn le_value_bound(data: Seq<u8>)
    requires
        data.len() <= 4,
    ensures
        data.len() == 0 ==> le_value(data) == 0,
        data.len() == 1 ==> le_value(data) == data[0],
        data.len() == 2 ==> le_value(data) == data[0] + 256 * data[1],
        data.len() == 3 ==> le_value(data) == data[0] + 256 * data[1] + 0x1_0000 * data[2],
        data.len() == 4 ==> le_value(data) == data[0] + 256 * data[1] + 0x1_0000 * data[2]
            + 0x100_0000 * data[3],
{
    reveal_with_fuel(le_value, 5);
    if data.len() > 0 {
        let a = data.skip(1);
        if a.len() > 0 {
            assert(a[0] == data[1]);
            let b = a.skip(1);
            if b.len() > 0 {
                assert(b[0] == data[2]);
                let c = b.skip(1);
                if c.len() > 0 {
                    assert(c[0] == data[3]);
                }
            }
        }
    }
}

/// The little-endian number in the `size` bytes that start at `at`.
fn read_value(desc: &[u8], at: usize, size: usize) -> (value: u32)
    requires
        at + size <= desc@.len(),
        size == 0 || size == 1 || size == 2 || size == 4,
    ensures
        value == le_value(desc@.subrange(at as int, at + size)),
{
    let ghost data = desc@.subrange(at as int, at + size);
    proof {
        le_value_bound(data);
    }
    if size == 0 {
        0
    } else if size == 1 {
        desc[at] as u32
    } else if size == 2 {
        desc[at] as u32 + 256 * desc[at + 1] as u32
    } else {
        desc[at] as u32 + 256 * desc[at + 1] as u32 + 0x1_0000 * desc[at + 2] as u32 + 0x100_0000
            * desc[at + 3] as u32
    }
}

/// Parse all reports declared by `desc`, merged per
/// (collection, kind, report ID).
pub fn parse_reports(desc: &[u8]) -> (reports: Vec<ReportInfo>)
    ensures
        reports@ == declared_reports(desc@),
{
    let mut parser = Parser::new();
    let mut i: usize = 0;
    assert(desc@.skip(0) =~= desc@);
    let ghost end = apply_items(initial_state(), items(desc@));
    while i < desc.len()
        invariant_except_break
            i <= desc@.len(),
            parser.depth <= i,
            apply_items(parser.state(), items(desc@.skip(i as int))) == end,
        ensures
            parser.state() == end,
        decreases desc@.len() - i,
    {
        let ghost rest = desc@.skip(i as int);
        let prefix: u8 = desc[i];
        assert(rest[0] == prefix);
        let left: usize = desc.len() - i;
        if prefix == 0xFE {
            let size: usize = if left > 1 {
                desc[i + 1] as usize
            } else {
                0
            };
            if left <= 3 + size {
                break;
            }
            assert(rest.skip(3 + size) =~= desc@.skip(i + 3 + size));
            i += 3 + size;
            continue;
        }
        assert(prefix & 0x03 == prefix % 4) by (bit_vector);
        assert((prefix >> 2) & 0x03 == (prefix / 4) % 4) by (bit_vector);
        assert(prefix >> 4 == prefix / 16) by (bit_vector);
        let size: usize = match prefix & 0x03 {
            3 => 4,
            n => n as usize,
        };
        if left < 1 + size {
            break;
        }
        let item = Item {
            item_type: (prefix >> 2) & 0x03,
            tag: prefix >> 4,
            size,
            value: read_value(desc, i + 1, size),
        };
        proof {
            assert(rest.subrange(1, 1 + size) =~= desc@.subrange(i + 1, i + 1 + size));
            assert(item == first_item(rest));
            assert(rest.skip(1 + size) =~= desc@.skip(i + 1 + size));
            assert((seq![item] + items(rest.skip(1 + size))).skip(1) =~= items(rest.skip(1 + size)));
        }
        parser.item(item);
        i += 1 + size;
    }
    let mut reports: Vec<ReportInfo> = Vec::new();
    let mut k: usize = 0;
    while k < parser.totals.len()
        invariant
            k <= parser.totals.len(),
            reports@.len() == k,
            forall|j: int| 0 <= j < k ==> reports@[j] == finished(parser.totals@[j]),
        decreases parser.totals.len() - k,
    {
        let total = parser.totals[k];
        let bytes: u32 = total.bits / 8 + if total.bits % 8 == 0 {
            0
        } else {
            1
        };
        reports.push(
            ReportInfo {
                kind: total.key.kind,
                report_id: total.key.report_id,
                size_bytes: bytes as usize,
                usage_page: total.key.usage_page,
                usage: total.key.usage,
            },
        );
        k += 1;
    }
    assert(reports@ =~= declared_reports(desc@));
    reports
}

/// Find a report of `kind` with `report_id` inside a collection on `usage_page`.
pub fn find_report(desc: &[u8], usage_page: u16, kind: ReportKind, report_id: u8) -> (found: Option<
    ReportInfo,
>)
    ensures
        match found {
            Some(info) => exists|i: int|
                {
                    &&& 0 <= i < declared_reports(desc@).len()
                    &&& #[trigger] declared_reports(desc@)[i] == info
                    &&& report_matches(info, usage_page, kind, report_id)
                    &&& forall|j: int|
                        0 <= j < i ==> !report_matches(
                            #[trigger] declared_reports(desc@)[j],
                            usage_page,
                            kind,
                            report_id,
                        )
                },
            None => forall|j: int|
                0 <= j < declared_reports(desc@).len() ==> !report_matches(
                    #[trigger] declared_reports(desc@)[j],
                    usage_page,
                    kind,
                    report_id,
                ),
        },
{
    let reports = parse_reports(desc);
    let mut i: usize = 0;
    while i < reports.len()
        invariant
            i <= reports.len(),
            reports@ == declared_reports(desc@),
            forall|j: int|
                0 <= j < i ==> !report_matches(
                    #[trigger] declared_reports(desc@)[j],
                    usage_page,
                    kind,
                    report_id,
                ),
        decreases reports.len() - i,
    {
        let r = reports[i];
        assert(declared_reports(desc@)[i as int] == r);
        if r.usage_page == usage_page && r.kind == kind && r.report_id == report_id {
            return Some(r);
        }
        i += 1;
    }
    None
}

} // verus!
