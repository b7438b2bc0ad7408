//! Supported device models and discovery.

use self::blackshark_v2_hs::exchange::{Entry, IncomingView};
use self::blackshark_v2_hs::protocol::REPORT_ID;
use crate::hid::descriptor::{declared_reports, find_report, report_matches, ReportKind};
use crate::hid::sysfs::{node_views, HidrawNode, NodeView};
use crate::hid::transport::Transport;
use crate::text::same;
use vstd::prelude::*;
use vstd::string::*;

pub mod blackshark_v2_hs;

pub use blackshark_v2_hs::driver::BlackSharkV2Hs;

verus! {

pub const RAZER_VID: u16 = 0x1532;

#[derive(Debug, Clone, Copy, PartialEq, Eq, Structural)]
pub enum Connection {
    /// 2.4 GHz HyperSpeed dongle; commands are relayed to the headset.
    Dongle,
    /// Headset plugged in directly with a USB cable.
    Wired,
}

#[derive(Debug, Clone, Copy, PartialEq, Eq, Structural)]
pub enum Family {
    /// MediaTek based HyperSpeed headsets (report 0x02 control channel).
    MediatekHeadset,
}

#[derive(Debug, Clone, Copy, PartialEq, Eq)]
pub struct Model {
    pub vid: u16,
    pub pid: u16,
    pub name: &'static str,
    pub family: Family,
    pub connection: Connection,
    /// Not verified on real hardware.
    pub experimental: bool,
}

/// Set to `1` to use a simulated headset instead of real hardware.
pub const SIMULATE_ENV: &'static str = "SYNAPSE_LINUX_SIMULATE";

pub const MODEL_COUNT: usize = 3;

/// The `i`-th supported model.
pub open spec fn supported(i: int) -> Model {
    Model {
        vid: RAZER_VID,
        pid: if i == 0 {
            0x0565
        } else if i == 1 {
            0x056E
        } else {
            0x0566
        },
        name: "Razer BlackShark V2 HyperSpeed",
        family: Family::MediatekHeadset,
        connection: if i == 1 {
            Connection::Wired
        } else {
            Connection::Dongle
        },
        experimental: i == 2,
    }
}

/// The supported models.
pub fn models() -> (r: [Model; 3])
    ensures
        forall|i: int| 0 <= i < MODEL_COUNT ==> #[trigger] r@[i] == supported(i),
{
    [
        Model {
            vid: RAZER_VID,
            pid: 0x0565,
            name: "Razer BlackShark V2 HyperSpeed",
            family: Family::MediatekHeadset,
            connection: Connection::Dongle,
            experimental: false,
        },
        Model {
            vid: RAZER_VID,
            pid: 0x056E,
            name: "Razer BlackShark V2 HyperSpeed",
            family: Family::MediatekHeadset,
            connection: Connection::Wired,
            experimental: false,
        },
        Model {
            vid: RAZER_VID,
            pid: 0x0566,
            name: "Razer BlackShark V2 HyperSpeed",
            family: Family::MediatekHeadset,
            connection: Connection::Dongle,
            experimental: true,
        },
    ]
}

/// The model with these USB IDs, if it is supported.
pub open spec fn model_of(vid: u16, pid: u16) -> Option<Model> {
    if vid != RAZER_VID {
        None
    } else if pid == 0x0565 {
        Some(supported(0))
    } else if pid == 0x056E {
        Some(supported(1))
    } else if pid == 0x0566 {
        Some(supported(2))
    } else {
        None
    }
}

pub fn lookup(vid: u16, pid: u16) -> (r: Option<Model>)
    ensures
        r == model_of(vid, pid),
{
    let all = models();
    let mut i: usize = 0;
    while i < MODEL_COUNT
        invariant
            i <= MODEL_COUNT,
            forall|j: int| 0 <= j < MODEL_COUNT ==> #[trigger] all@[j] == supported(j),
            forall|j: int|
                0 <= j < i ==> !((#[trigger] supported(j)).vid == vid && supported(j).pid == pid),
        decreases MODEL_COUNT - i,
    {
        assert(all@[i as int] == supported(i as int));
        if all[i].vid == vid && all[i].pid == pid {
            return Some(all[i]);
        }
        i += 1;
    }
    assert(!(supported(0).vid == vid && supported(0).pid == pid));
    assert(!(supported(1).vid == vid && supported(1).pid == pid));
    assert(!(supported(2).vid == vid && supported(2).pid == pid));
    None
}

#[derive(Debug, PartialEq, Eq)]
pub enum Location {
    Hidraw(HidrawNode),
    Simulated,
}

#[derive(Debug, PartialEq, Eq)]
pub struct FoundDevice {
    pub model: Model,
    pub location: Location,
}

pub enum LocationView {
    Hidraw(NodeView),
    Simulated,
}

pub struct FoundView {
    pub model: Model,
    pub location: LocationView,
}

impl View for FoundDevice {
    type V = FoundView;

    open spec fn view(&self) -> FoundView {
        FoundView {
            model: self.model,
            location: match self.location {
                Location::Hidraw(node) => LocationView::Hidraw(node@),
                Location::Simulated => LocationView::Simulated,
            },
        }
    }
}

impl FoundView {
    pub open spec fn path(self) -> Seq<char> {
        match self.location {
            LocationView::Hidraw(node) => node.devnode,
            LocationView::Simulated => "simulated"@,
        }
    }
}

impl FoundDevice {
    /// `/dev/hidrawN`, or `simulated`.
    pub fn path_display(&self) -> (r: String)
        ensures
            r@ == self@.path(),
    {
        match &self.location {
            Location::Hidraw(node) => node.devnode.clone(),
            Location::Simulated => "simulated".to_owned(),
        }
    }

    pub fn is_simulated(&self) -> (r: bool)
        ensures
            r == (self@.location is Simulated),
    {
        matches!(self.location, Location::Simulated)
    }
}

pub open spec fn found_views(found: Seq<FoundDevice>) -> Seq<FoundView> {
    found.map_values(|f: FoundDevice| f@)
}

/// Does the value of [`SIMULATE_ENV`] ask for the simulated headset?
pub fn simulation_requested(value: Option<&str>) -> (r: bool)
    ensures
        r == (value matches Some(v) && v@.len() > 0 && v@ != "0"@),
        value is None ==> !r,
        value matches Some(v) ==> (!r <==> v@.len() == 0 || v@ == "0"@),
{
    match value {
        Some(v) => !v.is_empty() && !same(v, "0"),
        None => false,
    }
}

/// The simulated headset (dongle connection).
pub fn simulated() -> (r: Vec<FoundDevice>)
    ensures
        found_views(r@) == seq![FoundView { model: supported(0), location: LocationView::Simulated }],
        r@.len() == 1 && r@[0].location is Simulated && r@[0].model.connection is Dongle,
{
    let all = models();
    assert(all@[0] == supported(0));
    let mut found: Vec<FoundDevice> = Vec::new();
    found.push(FoundDevice { model: all[0], location: Location::Simulated });
    assert(found_views(found@) =~= seq![
        FoundView { model: supported(0), location: LocationView::Simulated },
    ]);
    found
}

/// Usage page of the vendor collection that carries the control channel.
pub const CONTROL_PAGE: u16 = 0xFF14;

/// Does a descriptor declare the control channel's output report on `page`?
pub open spec fn has_control_report(descriptor: Seq<u8>, page: u16) -> bool {
    exists|i: int|
        0 <= i < declared_reports(descriptor).len() && report_matches(
            #[trigger] declared_reports(descriptor)[i],
            page,
            ReportKind::Output,
            REPORT_ID,
        )
}

/// Is the node the control interface of its device? One whose descriptor
/// could not be read is known by its interface number.
pub open spec fn controls(node: NodeView) -> bool {
    if node.report_descriptor.len() == 0 {
        node.interface is None || node.interface == Some(3u8)
    } else {
        has_control_report(node.report_descriptor, CONTROL_PAGE)
    }
}

/// The supported devices among `nodes`, in the same order.
pub open spec fn selected(nodes: Seq<NodeView>) -> Seq<FoundView>
    decreases nodes.len(),
{
    if nodes.len() == 0 {
        seq![]
    } else {
        let before = selected(nodes.drop_last());
        let node = nodes.last();
        match model_of(node.vendor_id, node.product_id) {
            Some(model) if controls(node) => before.push(
                FoundView { model, location: LocationView::Hidraw(node) },
            ),
            _ => before,
        }
    }
}

/// Keep the nodes that belong to a supported model and expose its control
/// interface (other interfaces of the same USB device are skipped).
pub fn select_devices(nodes: Vec<HidrawNode>) -> (found: Vec<FoundDevice>)
    ensures
        found_views(found@) == selected(node_views(nodes@)),
{
    let mut found: Vec<FoundDevice> = Vec::new();
    let ghost all = node_views(nodes@);
    assert(found_views(found@) =~= selected(all.take(0)));
    for node in it: nodes
        invariant
            it.seq() == nodes@,
            all == node_views(nodes@),
            found_views(found@) == selected(all.take(it.index() as int)),
    {
        let ghost i = it.index() as int;
        let ghost before = found_views(found@);
        let ghost view = node@;
        proof {
            assert(all.take(i + 1).drop_last() =~= all.take(i));
            assert(all.take(i + 1).last() == view);
        }
        if let Some(model) = lookup(node.vendor_id, node.product_id) {
            if is_control_interface(&model, &node) {
                found.push(FoundDevice { model, location: Location::Hidraw(node) });
                assert(found_views(found@) =~= before.push(
                    FoundView { model, location: LocationView::Hidraw(view) },
                ));
            }
        }
    }
    assert(all.take(all.len() as int) =~= all);
    found
}

fn declares_control(descriptor: &Vec<u8>, page: u16) -> (r: bool)
    ensures
        r == has_control_report(descriptor@, page),
{
    find_report(descriptor.as_slice(), page, ReportKind::Output, REPORT_ID).is_some()
}

fn is_control_interface(model: &Model, node: &HidrawNode) -> (r: bool)
    ensures
        r == controls(node@),
{
    match model.family {
        Family::MediatekHeadset => {
            if node.report_descriptor.is_empty() {
                // Descriptor unreadable: fall back to the known interface number.
                match node.interface {
                    Some(i) => i == 3,
                    None => true,
                }
            } else {
                declares_control(&node.report_descriptor, CONTROL_PAGE)
            }
        },
    }
}

/// Every selected device is a supported model on its control interface.
pub proof fn selected_are_supported(nodes: Seq<NodeView>, i: int)
    requires
        0 <= i < selected(nodes).len(),
    ensures
        selected(nodes)[i].location matches LocationView::Hidraw(node) && controls(node) && model_of(
            node.vendor_id,
            node.product_id,
        ) == Some(selected(nodes)[i].model),
    decreases nodes.len(),
{
    if nodes.len() > 0 {
        let before = selected(nodes.drop_last());
        if i < before.len() {
            selected_are_supported(nodes.drop_last(), i);
        }
    }
}

/// The supported devices by their USB numbers: the dongle and the cable of the
/// headset, and a variant of the dongle that is not tried yet. Nothing else is
/// taken for one.
pub proof fn devices_are_known_by_number(vid: u16, pid: u16)
    ensures
        model_of(vid, pid) is Some <==> vid == 0x1532 && (pid == 0x0565 || pid == 0x056E || pid == 0x0566),
        model_of(vid, pid) matches Some(model) ==> {
            &&& model.vid == vid && model.pid == pid
            &&& model.connection is Wired <==> pid == 0x056E
            &&& model.experimental <==> pid == 0x0566
            &&& model.name@ == "Razer BlackShark V2 HyperSpeed"@
        },
{
}

/// The control interface is the one whose descriptor declares an output report
/// with number 2 on usage page 0xFF14. Where the descriptor cannot be read it
/// is interface 3, or one without a number.
pub proof fn control_interfaces_are_told(node: NodeView)
    ensures
        node.report_descriptor.len() > 0 ==> (controls(node) <==> exists|i: int|
            0 <= i < declared_reports(node.report_descriptor).len() && ({
                let r = #[trigger] declared_reports(node.report_descriptor)[i];
                r.usage_page == 0xFF14 && r.kind is Output && r.report_id == 2
            })),
        node.report_descriptor.len() == 0 ==> (controls(node) <==> node.interface is None || node.interface == Some(
            3u8,
        )),
{
    if node.report_descriptor.len() > 0 {
        let all = declared_reports(node.report_descriptor);
        if controls(node) {
            let i = choose|i: int|
                0 <= i < all.len() && report_matches(#[trigger] all[i], CONTROL_PAGE, ReportKind::Output, REPORT_ID);
            assert(all[i].usage_page == 0xFF14);
        }
        if exists|i: int|
            0 <= i < all.len() && ({
                let r = #[trigger] all[i];
                r.usage_page == 0xFF14 && r.kind is Output && r.report_id == 2
            }) {
            let i = choose|i: int|
                0 <= i < all.len() && ({
                    let r = #[trigger] all[i];
                    r.usage_page == 0xFF14 && r.kind is Output && r.report_id == 2
                });
            assert(report_matches(all[i], CONTROL_PAGE, ReportKind::Output, REPORT_ID));
        }
    }
}

/// No control interface of a supported device is passed over.
pub proof fn every_device_is_found(nodes: Seq<NodeView>, i: int)
    requires
        0 <= i < nodes.len(),
        controls(nodes[i]),
        model_of(nodes[i].vendor_id, nodes[i].product_id) is Some,
    ensures
        selected(nodes).contains(
            FoundView {
                model: model_of(nodes[i].vendor_id, nodes[i].product_id)->0,
                location: LocationView::Hidraw(nodes[i]),
            },
        ),
    decreases nodes.len(),
{
    let wanted = FoundView {
        model: model_of(nodes[i].vendor_id, nodes[i].product_id)->0,
        location: LocationView::Hidraw(nodes[i]),
    };
    let before = selected(nodes.drop_last());
    let all = selected(nodes);
    if i == nodes.len() - 1 {
        assert(all[all.len() - 1] == wanted);
    } else {
        assert(nodes.drop_last()[i] == nodes[i]);
        every_device_is_found(nodes.drop_last(), i);
        let k = choose|k: int| 0 <= k < before.len() && before[k] == wanted;
        assert(all[k] == wanted);
    }
}

/// An opened device. One variant per protocol family.
pub enum Device<T: Transport> {
    BlackSharkV2Hs(BlackSharkV2Hs<T>),
}

/// Open a found device on a channel to it.
pub fn open<T: Transport>(found: &FoundDevice, transport: T, counter: u8, timeout_ms: u64) -> (device: Device<T>)
    requires
        transport.wf(),
    ensures
        device matches Device::BlackSharkV2Hs(dev) && {
            &&& dev.wf()
            &&& dev.channel() == transport
            &&& dev.device_model() == found.model
            &&& dev.sequence_counter() == counter
            &&& dev.timeout() == timeout_ms
            &&& dev.queue() == Seq::<IncomingView>::empty()
            &&& dev.log() == Seq::<Entry>::empty()
        },
{
    match found.model.family {
        Family::MediatekHeadset => Device::BlackSharkV2Hs(
            BlackSharkV2Hs::new(transport, found.model, counter, timeout_ms),
        ),
    }
}

} // verus!
