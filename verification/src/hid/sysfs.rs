//! hidraw nodes as sysfs describes them (no libudev needed).
//!
//! Everything read here (`uevent`, `report_descriptor`) is world-readable,
//! so discovery works even before the udev permission rule is installed.

use crate::text::{
    begins_with, chars_of, dec, decimals_read_back, digit, find_char, is_digit, lines, lines_of, numbers_read_back,
    parse_unsigned, position, position_bounds, same, slice_text, split, split_at_char, starts_with,
    texts_are_split_at_the_mark, unsigned, views,
};
use crate::views::some_view;
use vstd::prelude::*;
use vstd::string::*;
use vstd::utf8::encode_utf8;

verus! {

#[derive(Debug, Clone, PartialEq, Eq)]
pub struct HidrawNode {
    /// e.g. `hidraw3`
    pub sysname: String,
    /// e.g. `/dev/hidraw3`
    pub devnode: String,
    pub bus: u16,
    pub vendor_id: u16,
    pub product_id: u16,
    pub name: String,
    pub phys: String,
    pub uniq: String,
    /// USB interface number parsed from `HID_PHYS` (`.../input3` -> 3).
    pub interface: Option<u8>,
    pub report_descriptor: Vec<u8>,
}

#[verifier::ext_equal]
pub struct NodeView {
    pub sysname: Seq<char>,
    pub devnode: Seq<char>,
    pub bus: u16,
    pub vendor_id: u16,
    pub product_id: u16,
    pub name: Seq<char>,
    pub phys: Seq<char>,
    pub uniq: Seq<char>,
    pub interface: Option<u8>,
    pub report_descriptor: Seq<u8>,
}

impl View for HidrawNode {
    type V = NodeView;

    open spec fn view(&self) -> NodeView {
        NodeView {
            sysname: self.sysname@,
            devnode: self.devnode@,
            bus: self.bus,
            vendor_id: self.vendor_id,
            product_id: self.product_id,
            name: self.name@,
            phys: self.phys@,
            uniq: self.uniq@,
            interface: self.interface,
            report_descriptor: self.report_descriptor@,
        }
    }
}

impl HidrawNode {
    pub fn is_usb(&self) -> (r: bool)
        ensures
            r == (self@.bus == 0x03),
    {
        self.bus == 0x03
    }
}

/// The value of a `KEY=value` line for `key`.
pub open spec fn value_in(line: Seq<char>, key: Seq<char>) -> Option<Seq<char>> {
    let at = position(line, '=', 0) as int;
    if at < line.len() && line.take(at) == key {
        Some(line.skip(at + 1))
    } else {
        None
    }
}

/// The value that the last line for `key` gives.
pub open spec fn last_value(all: Seq<Seq<char>>, key: Seq<char>) -> Option<Seq<char>>
    decreases all.len(),
{
    if all.len() == 0 {
        None
    } else {
        match value_in(all.last(), key) {
            Some(value) => Some(value),
            None => last_value(all.drop_last(), key),
        }
    }
}

/// `0003:00001532:00000565` -> (0x0003, 0x1532, 0x0565)
pub open spec fn hid_id(value: Seq<char>) -> Option<(u16, u16, u16)> {
    let parts = split(value, ':');
    if parts.len() < 3 {
        None
    } else {
        match (
            unsigned(parts[0], 16, 0xFFFF),
            unsigned(parts[1], 16, 0xFFFF),
            unsigned(parts[2], 16, 0xFFFF),
        ) {
            (Some(bus), Some(vendor), Some(product)) => Some((bus as u16, vendor as u16, product as u16)),
            _ => None,
        }
    }
}

/// The last place at or before `from` where `s` holds `mark`; -1 if there is
/// none.
pub open spec fn last_place(s: Seq<char>, mark: Seq<char>, from: int) -> int
    decreases from + 1,
{
    if from < 0 {
        -1
    } else if from + mark.len() <= s.len() && s.subrange(from, (from + mark.len()) as int) == mark {
        from
    } else {
        last_place(s, mark, from - 1)
    }
}

/// The interface number behind the last `/input` of a physical path.
pub open spec fn interface_of(phys: Seq<char>) -> Option<u8> {
    let at = last_place(phys, "/input"@, phys.len() as int);
    if at < 0 {
        None
    } else {
        match unsigned(phys.skip((at + "/input"@.len()) as int), 10, 255) {
            Some(n) => Some(n as u8),
            None => None,
        }
    }
}

pub open spec fn or_empty(value: Option<Seq<char>>) -> Seq<char> {
    match value {
        Some(text) => text,
        None => seq![],
    }
}

/// What the `uevent` file of a HID device says; nothing without a valid ID.
pub open spec fn described(text: Seq<char>) -> Option<NodeView> {
    let all = lines(text);
    let id = match last_value(all, "HID_ID"@) {
        Some(value) => hid_id(value),
        None => None,
    };
    match id {
        None => None,
        Some((bus, vendor_id, product_id)) => Some(
            NodeView {
                sysname: seq![],
                devnode: seq![],
                bus,
                vendor_id,
                product_id,
                name: or_empty(last_value(all, "HID_NAME"@)),
                phys: or_empty(last_value(all, "HID_PHYS"@)),
                uniq: or_empty(last_value(all, "HID_UNIQ"@)),
                interface: interface_of(or_empty(last_value(all, "HID_PHYS"@))),
                report_descriptor: seq![],
            },
        ),
    }
}

/// The three numbers of an ID are bus, vendor and product, in this order and in
/// hexadecimal.
pub proof fn ids_are_read_in_order(a: Seq<char>, b: Seq<char>, c: Seq<char>, bus: u16, vendor: u16, product: u16)
    requires
        !a.contains(':') && !b.contains(':') && !c.contains(':'),
        unsigned(a, 16, 0xFFFF) == Some(bus as nat),
        unsigned(b, 16, 0xFFFF) == Some(vendor as nat),
        unsigned(c, 16, 0xFFFF) == Some(product as nat),
    ensures
        hid_id(a + seq![':'] + (b + seq![':'] + c)) == Some((bus, vendor, product)),
        hid_id(a) is None,
        hid_id(a + seq![':'] + b) is None,
{
    texts_are_split_at_the_mark(a, ':', b + seq![':'] + c);
    texts_are_split_at_the_mark(a, ':', b);
    texts_are_split_at_the_mark(b, ':', c);
    texts_are_split_at_the_mark(c, ':', c);
}

/// A line gives the value behind the first `=` to the key before it, and of
/// several lines for one key the last counts.
pub proof fn last_lines_count(all: Seq<Seq<char>>, key: Seq<char>, other: Seq<char>, value: Seq<char>)
    requires
        !key.contains('='),
        !other.contains('='),
        other != key,
    ensures
        last_value(all.push(key + seq!['='] + value), key) == Some(value),
        last_value(all.push(other + seq!['='] + value), key) == last_value(all, key),
        last_value(all.push(other), key) == last_value(all, key),
        last_value(seq![], key) is None,
{
    let line = key + seq!['='] + value;
    let odd = other + seq!['='] + value;
    texts_are_split_at_the_mark(key, '=', value);
    position_bounds(line, '=', 0);
    position_bounds(odd, '=', 0);
    position_bounds(other, '=', 0);
    let k = position(line, '=', 0) as int;
    let o = position(odd, '=', 0) as int;
    let n = position(other, '=', 0) as int;
    assert(line[key.len() as int] == '=' && odd[other.len() as int] == '=');
    if k < key.len() {
        assert(key[k] == '=');
    }
    if o < other.len() {
        assert(other[o] == '=');
    }
    if n < other.len() {
        assert(other[n] == '=');
    }
    assert(line.take(k) =~= key);
    assert(line.skip(k + 1) =~= value);
    assert(odd.take(o) =~= other);
    assert(all.push(line).drop_last() =~= all);
    assert(all.push(odd).drop_last() =~= all);
    assert(all.push(other).drop_last() =~= all);
}

/// What is known of a node is what the lines of its description say; what they
/// do not say is empty.
pub proof fn descriptions_are_read(text: Seq<char>)
    ensures
        described(text) matches Some(node) ==> {
            &&& last_value(lines(text), "HID_ID"@) matches Some(id) && hid_id(id) == Some(
                (node.bus, node.vendor_id, node.product_id),
            )
            &&& last_value(lines(text), "HID_NAME"@) matches Some(name) ==> node.name == name
            &&& last_value(lines(text), "HID_NAME"@) is None ==> node.name.len() == 0
            &&& last_value(lines(text), "HID_PHYS"@) matches Some(phys) ==> node.phys == phys && node.interface
                == interface_of(phys)
            &&& last_value(lines(text), "HID_UNIQ"@) matches Some(uniq) ==> node.uniq == uniq
            &&& last_value(lines(text), "HID_UNIQ"@) is None ==> node.uniq.len() == 0
        },
        last_value(lines(text), "HID_ID"@) is None ==> described(text) is None,
{
}

fn parse_hid_id(value: &str) -> (r: Option<(u16, u16, u16)>)
    ensures
        r == hid_id(value@),
{
    let parts = split_at_char(value, ':');
    assert(views(parts@).len() == parts@.len());
    if parts.len() < 3 {
        return None;
    }
    assert(views(parts@)[0] == parts@[0]@);
    assert(views(parts@)[1] == parts@[1]@);
    assert(views(parts@)[2] == parts@[2]@);
    let bus = parse_unsigned(parts[0].as_str(), 16, 0xFFFF);
    let vendor = parse_unsigned(parts[1].as_str(), 16, 0xFFFF);
    let product = parse_unsigned(parts[2].as_str(), 16, 0xFFFF);
    match (bus, vendor, product) {
        (Some(bus), Some(vendor), Some(product)) => Some((bus as u16, vendor as u16, product as u16)),
        _ => None,
    }
}

fn parse_interface(phys: &str) -> (r: Option<u8>)
    ensures
        r == interface_of(phys@),
{
    let chars = chars_of(phys);
    let mark = "/input";
    let width: usize = mark.unicode_len();
    let mut i: usize = chars.len();
    loop
        invariant
            i <= chars@.len(),
            chars@ == phys@,
            mark@ == "/input"@,
            width == mark@.len(),
            last_place(phys@, mark@, phys@.len() as int) == last_place(phys@, mark@, i as int),
        decreases i,
    {
        if chars.len() - i >= width {
            let part = slice_text(chars.as_slice(), i, i + width);
            if same(part.as_str(), mark) {
                let rest = slice_text(chars.as_slice(), i + width, chars.len());
                assert(rest@ =~= phys@.skip(i + width));
                return match parse_unsigned(rest.as_str(), 10, 255) {
                    Some(n) => Some(n as u8),
                    None => None,
                };
            }
        }
        if i == 0 {
            assert(last_place(phys@, mark@, -1) == -1);
            return None;
        }
        i -= 1;
    }
}

/// The value of a line for `key`.
fn line_value(line: &str, key: &str) -> (r: Option<String>)
    ensures
        some_view(r) == value_in(line@, key@),
{
    let chars = chars_of(line);
    let at: usize = find_char(chars.as_slice(), '=', 0);
    if at >= chars.len() {
        return None;
    }
    let head = slice_text(chars.as_slice(), 0, at);
    assert(head@ =~= line@.take(at as int));
    if !same(head.as_str(), key) {
        return None;
    }
    let value = slice_text(chars.as_slice(), at + 1, chars.len());
    assert(value@ =~= line@.skip(at + 1));
    Some(value)
}

/// The value that the last line for `key` gives.
fn find_value(all: &Vec<String>, key: &str) -> (r: Option<String>)
    ensures
        some_view(r) == last_value(views(all@), key@),
{
    let mut i: usize = all.len();
    assert(views(all@).take(i as int) =~= views(all@));
    while i > 0
        invariant
            i <= all.len(),
            last_value(views(all@), key@) == last_value(views(all@).take(i as int), key@),
        decreases i,
    {
        let ghost part = views(all@).take(i as int);
        assert(part.drop_last() =~= views(all@).take(i - 1));
        assert(part.last() == all@[i - 1]@);
        let value = line_value(all[i - 1].as_str(), key);
        if value.is_some() {
            return value;
        }
        i -= 1;
    }
    None
}

fn text_or_empty(value: Option<String>) -> (r: String)
    ensures
        r@ == or_empty(some_view(value)),
{
    match value {
        Some(text) => text,
        None => {
            let none = String::new();
            assert(none@ =~= seq![]);
            none
        },
    }
}

/// Parse the `uevent` file of a HID device. `devnode`/`sysname`/descriptor
/// are filled in by the caller.
pub fn parse_uevent(text: &str) -> (r: Option<HidrawNode>)
    ensures
        some_view(r) == described(text@),
{
    let all = lines_of(text);
    let id = match find_value(&all, "HID_ID") {
        Some(value) => parse_hid_id(value.as_str()),
        None => None,
    };
    let (bus, vendor_id, product_id) = match id {
        Some(id) => id,
        None => return None,
    };
    let name = text_or_empty(find_value(&all, "HID_NAME"));
    let phys = text_or_empty(find_value(&all, "HID_PHYS"));
    let uniq = text_or_empty(find_value(&all, "HID_UNIQ"));
    let interface = parse_interface(phys.as_str());
    let node = HidrawNode {
        sysname: String::new(),
        devnode: String::new(),
        bus,
        vendor_id,
        product_id,
        name,
        phys,
        uniq,
        interface,
        report_descriptor: Vec::new(),
    };
    assert(node@ =~= described(text@)->0);
    Some(node)
}

/// Index of the first ASCII digit at or after `from`; the length if there is
/// none.
pub open spec fn first_digit(s: Seq<char>, from: nat) -> nat
    decreases s.len() - from,
{
    if from >= s.len() {
        s.len()
    } else if is_digit(s[from as int]) {
        from
    } else {
        first_digit(s, from + 1)
    }
}

/// What nodes are sorted by: the length in bytes of what stands before the
/// first digit, then the number from there on. What is no number comes last.
pub open spec fn sort_key(sysname: Seq<char>) -> (usize, u32) {
    let at = first_digit(sysname, 0) as int;
    (
        encode_utf8(sysname.take(at)).len() as usize,
        match unsigned(sysname.skip(at), 10, u32::MAX as nat) {
            Some(n) => n as u32,
            None => u32::MAX,
        },
    )
}

pub open spec fn key_less(a: (usize, u32), b: (usize, u32)) -> bool {
    a.0 < b.0 || (a.0 == b.0 && a.1 < b.1)
}

/// The key under which a node is sorted.
pub fn natural_key(sysname: &str) -> (r: (usize, u32))
    ensures
        r == sort_key(sysname@),
{
    let chars = chars_of(sysname);
    let mut at: usize = 0;
    while at < chars.len() && !digit(chars[at])
        invariant
            at <= chars@.len(),
            chars@ == sysname@,
            first_digit(sysname@, 0) == first_digit(sysname@, at as nat),
        decreases chars@.len() - at,
    {
        at += 1;
    }
    let head = slice_text(chars.as_slice(), 0, at);
    let digits = slice_text(chars.as_slice(), at, chars.len());
    assert(head@ =~= sysname@.take(at as int));
    assert(digits@ =~= sysname@.skip(at as int));
    let number: u32 = match parse_unsigned(digits.as_str(), 10, 0xFFFF_FFFF) {
        Some(n) => n as u32,
        None => u32::MAX,
    };
    (head.as_str().len(), number)
}

/// One entry of the hidraw class directory, as far as it could be read.
#[derive(Debug, Clone, PartialEq, Eq)]
pub struct ClassEntry {
    pub sysname: String,
    pub uevent: Option<String>,
    pub report_descriptor: Option<Vec<u8>>,
}

/// `name` below the directory `dir`.
pub open spec fn below(dir: Seq<char>, name: Seq<char>) -> Seq<char> {
    if dir.len() == 0 || dir.last() == '/' {
        dir + name
    } else {
        dir + seq!['/'] + name
    }
}

/// The node behind an entry, if it is one: it has a hidraw name, and its
/// description could be read. A descriptor that could not be read is empty.
pub open spec fn node_of(entry: ClassEntry, dev_dir: Seq<char>) -> Option<NodeView> {
    if !begins_with(entry.sysname@, "hidraw"@) {
        None
    } else {
        match entry.uevent {
            None => None,
            Some(uevent) => match described(uevent@) {
                None => None,
                Some(node) => Some(
                    NodeView {
                        sysname: entry.sysname@,
                        devnode: below(dev_dir, entry.sysname@),
                        report_descriptor: match entry.report_descriptor {
                            Some(bytes) => bytes@,
                            None => seq![],
                        },
                        ..node
                    },
                ),
            },
        }
    }
}

/// Index of the first node that sorts behind `key`.
pub open spec fn place(nodes: Seq<NodeView>, key: (usize, u32), from: nat) -> nat
    decreases nodes.len() - from,
{
    if from >= nodes.len() {
        nodes.len()
    } else if key_less(key, sort_key(nodes[from as int].sysname)) {
        from
    } else {
        place(nodes, key, from + 1)
    }
}

/// The nodes of a class directory in their natural order; nodes that sort
/// alike stay in the order of the entries.
pub open spec fn listed(entries: Seq<ClassEntry>, dev_dir: Seq<char>) -> Seq<NodeView>
    decreases entries.len(),
{
    if entries.len() == 0 {
        seq![]
    } else {
        let before = listed(entries.drop_last(), dev_dir);
        match node_of(entries.last(), dev_dir) {
            Some(node) => before.insert(place(before, sort_key(node.sysname), 0) as int, node),
            None => before,
        }
    }
}

pub open spec fn node_views(nodes: Seq<HidrawNode>) -> Seq<NodeView> {
    nodes.map_values(|n: HidrawNode| n@)
}

/// `name` below the directory `dir`.
pub fn join_path(dir: &str, name: &str) -> (r: String)
    ensures
        r@ == below(dir@, name@),
{
    let chars = chars_of(dir);
    let mut out = dir.to_owned();
    if chars.len() > 0 && chars[chars.len() - 1] != '/' {
        out.push('/');
        out.append(name);
        assert(out@ =~= below(dir@, name@));
    } else {
        out.append(name);
    }
    out
}

proof fn place_bounds(nodes: Seq<NodeView>, key: (usize, u32), from: nat)
    requires
        from <= nodes.len(),
    ensures
        from <= place(nodes, key, from) <= nodes.len(),
        place(nodes, key, from) < nodes.len() ==> key_less(
            key,
            sort_key(nodes[place(nodes, key, from) as int].sysname),
        ),
        forall|i: int|
            from <= i < place(nodes, key, from) ==> !key_less(key, sort_key(#[trigger] nodes[i].sysname)),
    decreases nodes.len() - from,
{
    if from < nodes.len() && !key_less(key, sort_key(nodes[from as int].sysname)) {
        place_bounds(nodes, key, from + 1);
    }
}

/// Nodes are listed in their natural order: `hidraw2` before `hidraw10`.
pub proof fn listed_in_order(entries: Seq<ClassEntry>, dev_dir: Seq<char>)
    ensures
        forall|i: int, j: int|
            #![trigger listed(entries, dev_dir)[i], listed(entries, dev_dir)[j]]
            0 <= i < j < listed(entries, dev_dir).len() ==> !key_less(
                sort_key(listed(entries, dev_dir)[j].sysname),
                sort_key(listed(entries, dev_dir)[i].sysname),
            ),
    decreases entries.len(),
{
    if entries.len() > 0 {
        let before = listed(entries.drop_last(), dev_dir);
        listed_in_order(entries.drop_last(), dev_dir);
        match node_of(entries.last(), dev_dir) {
            Some(node) => {
                let key = sort_key(node.sysname);
                let at = place(before, key, 0) as int;
                place_bounds(before, key, 0);
                let after = before.insert(at, node);
                assert forall|i: int, j: int|
                    #![trigger after[i], after[j]]
                    0 <= i < j < after.len() implies !key_less(
                    sort_key(after[j].sysname),
                    sort_key(after[i].sysname),
                ) by {
                    if i < at {
                        assert(after[i] == before[i]);
                    } else if i > at {
                        assert(after[i] == before[i - 1]);
                    }
                    if j < at {
                        assert(after[j] == before[j]);
                    } else if j > at {
                        assert(after[j] == before[j - 1]);
                        assert(!key_less(sort_key(before[j - 1].sysname), sort_key(before[at].sysname)));
                    }
                }
            },
            None => {},
        }
    }
}

/// Every entry that is a node is listed, and nothing else is.
pub proof fn every_node_is_listed(entries: Seq<ClassEntry>, dev_dir: Seq<char>, i: int)
    requires
        0 <= i < entries.len(),
        node_of(entries[i], dev_dir) is Some,
    ensures
        listed(entries, dev_dir).contains(node_of(entries[i], dev_dir)->0),
    decreases entries.len(),
{
    let wanted = node_of(entries[i], dev_dir)->0;
    let head = entries.drop_last();
    let before = listed(head, dev_dir);
    let all = listed(entries, dev_dir);
    if node_of(entries.last(), dev_dir) is Some {
        let node = node_of(entries.last(), dev_dir)->0;
        let at = place(before, sort_key(node.sysname), 0) as int;
        place_bounds(before, sort_key(node.sysname), 0);
        assert(all[at] == node);
        if i < head.len() {
            assert(head[i] == entries[i]);
            every_node_is_listed(head, dev_dir, i);
            let k = choose|k: int| 0 <= k < before.len() && before[k] == wanted;
            if k < at {
                assert(all[k] == wanted);
            } else {
                assert(all[k + 1] == wanted);
            }
        }
    } else {
        assert(head[i] == entries[i]);
        every_node_is_listed(head, dev_dir, i);
    }
}

/// What is listed stems from an entry.
pub proof fn listed_nodes_stem_from_entries(entries: Seq<ClassEntry>, dev_dir: Seq<char>, k: int) -> (i: int)
    requires
        0 <= k < listed(entries, dev_dir).len(),
    ensures
        0 <= i < entries.len(),
        node_of(entries[i], dev_dir) == Some(listed(entries, dev_dir)[k]),
    decreases entries.len(),
{
    let head = entries.drop_last();
    let before = listed(head, dev_dir);
    match node_of(entries.last(), dev_dir) {
        Some(node) => {
            let at = place(before, sort_key(node.sysname), 0) as int;
            place_bounds(before, sort_key(node.sysname), 0);
            if k == at {
                entries.len() - 1
            } else if k < at {
                let i = listed_nodes_stem_from_entries(head, dev_dir, k);
                assert(head[i] == entries[i]);
                i
            } else {
                let i = listed_nodes_stem_from_entries(head, dev_dir, k - 1);
                assert(head[i] == entries[i]);
                i
            }
        },
        None => {
            let i = listed_nodes_stem_from_entries(head, dev_dir, k);
            assert(head[i] == entries[i]);
            i
        },
    }
}

/// A node is known under its own name, below the directory of the devices, and
/// by what its description says. One without a hidraw name or without a
/// description is none.
pub proof fn nodes_are_what_their_entries_say(entry: ClassEntry, dev_dir: Seq<char>)
    ensures
        node_of(entry, dev_dir) matches Some(node) ==> {
            &&& node.sysname == entry.sysname@
            &&& begins_with(entry.sysname@, "hidraw"@)
            &&& node.devnode == below(dev_dir, entry.sysname@)
            &&& entry.uevent is Some && described(entry.uevent->0@) is Some
            &&& node.vendor_id == described(entry.uevent->0@)->0.vendor_id
            &&& node.product_id == described(entry.uevent->0@)->0.product_id
            &&& node.interface == described(entry.uevent->0@)->0.interface
            &&& entry.report_descriptor matches Some(bytes) ==> node.report_descriptor == bytes@
            &&& entry.report_descriptor is None ==> node.report_descriptor.len() == 0
        },
        entry.uevent is None ==> node_of(entry, dev_dir) is None,
        entry.uevent matches Some(text) ==> (described(text@) is Some && begins_with(entry.sysname@, "hidraw"@)
            ==> node_of(entry, dev_dir) is Some),
{
}

/// A path is made with one slash between its parts.
pub proof fn paths_are_joined_once(dir: Seq<char>, name: Seq<char>)
    ensures
        dir.len() > 0 && dir.last() != '/' ==> below(dir, name) == dir.push('/') + name,
        dir.len() > 0 && dir.last() == '/' ==> below(dir, name) == dir + name,
        below(dir.push('/'), name) == dir.push('/') + name,
{
    if dir.len() > 0 && dir.last() != '/' {
        assert(below(dir, name) =~= dir.push('/') + name);
    }
}

/// Names with a common beginning are listed by their numbers.
pub proof fn nodes_are_listed_by_number(head: Seq<char>, a: u32, b: u32)
    requires
        forall|i: int| 0 <= i < head.len() ==> !is_digit(#[trigger] head[i]),
        a < b < u32::MAX,
    ensures
        key_less(sort_key(head + dec(a as nat)), sort_key(head + dec(b as nat))),
        sort_key(head + dec(a as nat)).1 == a,
{
    number_is_found(head, a);
    number_is_found(head, b);
}

proof fn number_is_found(head: Seq<char>, n: u32)
    requires
        forall|i: int| 0 <= i < head.len() ==> !is_digit(#[trigger] head[i]),
    ensures
        sort_key(head + dec(n as nat)) == (encode_utf8(head).len() as usize, n),
{
    let name = head + dec(n as nat);
    decimals_read_back(n as nat);
    numbers_read_back(n as nat, u32::MAX as nat);
    digits_begin_at(head, dec(n as nat), 0);
    assert(name.take(head.len() as int) =~= head);
    assert(name.skip(head.len() as int) =~= dec(n as nat));
}

proof fn digits_begin_at(head: Seq<char>, tail: Seq<char>, from: nat)
    requires
        from <= head.len(),
        forall|i: int| 0 <= i < head.len() ==> !is_digit(#[trigger] head[i]),
        tail.len() > 0 && is_digit(tail[0]),
    ensures
        first_digit(head + tail, from) == head.len(),
    decreases head.len() - from,
{
    let all = head + tail;
    if from < head.len() {
        assert(all[from as int] == head[from as int]);
        digits_begin_at(head, tail, from + 1);
    } else {
        assert(all[from as int] == tail[0]);
    }
}

/// The interface number stands at the end of the physical path, behind the
/// last `/input`.
pub proof fn interfaces_are_read_from_the_path(head: Seq<char>, n: u8)
    ensures
        interface_of(head + "/input"@ + dec(n as nat)) == Some(n),
{
    let mark = "/input"@;
    reveal_strlit("/input");
    let digits = dec(n as nat);
    let phys = head + mark + digits;
    decimals_read_back(n as nat);
    numbers_read_back(n as nat, 255);
    assert forall|i: int| head.len() < i <= phys.len() implies !(i + mark.len() <= phys.len() && #[trigger] phys.subrange(
        i,
        (i + mark.len()) as int,
    ) == mark) by {
        if i + mark.len() <= phys.len() && phys.subrange(i, (i + mark.len()) as int) == mark {
            assert(phys.subrange(i, (i + mark.len()) as int)[0] == mark[0]);
            assert(phys[i] == '/');
            if i < head.len() + mark.len() {
                assert(phys[i] == mark[i - head.len()]);
            } else {
                assert(phys[i] == digits[i - head.len() - mark.len()]);
            }
        }
    }
    assert(phys.subrange(head.len() as int, (head.len() + mark.len()) as int) =~= mark);
    last_place_is(phys, mark, phys.len() as int, head.len() as int);
    assert(phys.skip((head.len() + mark.len()) as int) =~= digits);
}

proof fn last_place_is(s: Seq<char>, mark: Seq<char>, from: int, at: int)
    requires
        0 <= at <= from,
        at + mark.len() <= s.len(),
        s.subrange(at, (at + mark.len()) as int) == mark,
        forall|i: int|
            at < i <= from ==> !(i + mark.len() <= s.len() && #[trigger] s.subrange(i, (i + mark.len()) as int) == mark),
    ensures
        last_place(s, mark, from) == at,
    decreases from - at,
{
    if from > at {
        assert(!(from + mark.len() <= s.len() && s.subrange(from, (from + mark.len()) as int) == mark));
        last_place_is(s, mark, from - 1, at);
    }
}

/// The hidraw nodes behind the entries of the class directory, in their
/// natural order. `dev_dir` is where their device nodes are.
pub fn collect_nodes(entries: Vec<ClassEntry>, dev_dir: &str) -> (nodes: Vec<HidrawNode>)
    ensures
        node_views(nodes@) == listed(entries@, dev_dir@),
{
    let mut nodes: Vec<HidrawNode> = Vec::new();
    let mut i: usize = 0;
    assert(node_views(nodes@) =~= listed(entries@.take(0), dev_dir@));
    while i < entries.len()
        invariant
            i <= entries@.len(),
            node_views(nodes@) == listed(entries@.take(i as int), dev_dir@),
        decreases entries@.len() - i,
    {
        let entry = &entries[i];
        let ghost before = node_views(nodes@);
        proof {
            assert(entries@.take(i + 1).drop_last() =~= entries@.take(i as int));
            assert(entries@.take(i + 1).last() == entries@[i as int]);
        }
        if let Some(node) = read_entry(entry, dev_dir) {
            let key = natural_key(node.sysname.as_str());
            let mut at: usize = 0;
            let mut searching = true;
            while searching && at < nodes.len()
                invariant
                    at <= nodes@.len(),
                    before == node_views(nodes@),
                    searching ==> place(before, key, 0) == place(before, key, at as nat),
                    !searching ==> place(before, key, 0) == at,
                decreases (if searching { nodes@.len() - at + 1 } else { 0 }),
            {
                let other = natural_key(nodes[at].sysname.as_str());
                assert(before[at as int].sysname == nodes@[at as int].sysname@);
                if key.0 < other.0 || (key.0 == other.0 && key.1 < other.1) {
                    searching = false;
                } else {
                    at += 1;
                }
            }
            let ghost view = node@;
            nodes.insert(at, node);
            assert(node_views(nodes@) =~= before.insert(at as int, view));
        }
        i += 1;
    }
    assert(entries@.take(i as int) =~= entries@);
    nodes
}

/// The node behind one entry, if it is one.
fn read_entry(entry: &ClassEntry, dev_dir: &str) -> (r: Option<HidrawNode>)
    ensures
        some_view(r) == node_of(*entry, dev_dir@),
{
    if !starts_with(entry.sysname.as_str(), "hidraw") {
        return None;
    }
    let mut node = match &entry.uevent {
        Some(uevent) => match parse_uevent(uevent.as_str()) {
            Some(node) => node,
            None => return None,
        },
        None => return None,
    };
    node.devnode = join_path(dev_dir, entry.sysname.as_str());
    node.sysname = entry.sysname.clone();
    node.report_descriptor = match &entry.report_descriptor {
        Some(bytes) => bytes.clone(),
        None => Vec::new(),
    };
    assert(node@ =~= node_of(*entry, dev_dir@)->0);
    Some(node)
}

} // verus!
