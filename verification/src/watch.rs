//! The lifecycle watcher: it compares each enumeration of the HID bus with
//! the one before and tells which of the watched devices came and went.
//!
//! The watcher does not enumerate. Its caller enumerates, as often as it
//! sees fit, and hands every enumeration to [`DeviceWatcher::poll`].

use vstd::prelude::*;
use crate::error::MirajazzError;
use crate::types::{DeviceLifecycleEvent, DeviceLifecycleEventView, HidDeviceInfo, HidDeviceInfoView};

verus! {

/// What a watcher looks for: the devices of one usage page, usage id, vendor
/// id and product id.
#[derive(Clone, Copy, Debug)]
pub struct DeviceQuery {
    pub usage_page: u16,
    pub usage_id: u16,
    pub vendor_id: u16,
    pub product_id: u16,
}

impl DeviceQuery {
    /// The query for the given usage page, usage id, vendor id and product id.
    pub fn new(usage_page: u16, usage_id: u16, vendor_id: u16, product_id: u16) -> (query: Self)
        ensures
            query == (DeviceQuery { usage_page, usage_id, vendor_id, product_id }),
    {
        DeviceQuery { usage_page, usage_id, vendor_id, product_id }
    }

    /// Whether the query selects the device: all four ids agree.
    pub open spec fn selects(self, info: HidDeviceInfoView) -> bool {
        &&& info.usage_page == self.usage_page
        &&& info.usage_id == self.usage_id
        &&& info.vendor_id == self.vendor_id
        &&& info.product_id == self.product_id
    }

    /// Whether the query selects the device.
    pub fn matches(&self, info: &HidDeviceInfo) -> (selected: bool)
        ensures
            selected == self.selects(info@),
    {
        info.usage_page == self.usage_page && info.usage_id == self.usage_id && info.vendor_id
            == self.vendor_id && info.product_id == self.product_id
    }
}

/// The mathematical values of a list of devices.
pub open spec fn views(devices: Seq<HidDeviceInfo>) -> Seq<HidDeviceInfoView> {
    devices.map_values(|device: HidDeviceInfo| device@)
}

/// The mathematical values of a list of events.
pub open spec fn event_views(events: Seq<DeviceLifecycleEvent>) -> Seq<DeviceLifecycleEventView> {
    events.map_values(|event: DeviceLifecycleEvent| event@)
}

/// Whether one of the queries selects the device.
pub open spec fn wanted(queries: Seq<DeviceQuery>, info: HidDeviceInfoView) -> bool {
    exists|q: int| 0 <= q < queries.len() && (#[trigger] queries[q]).selects(info)
}

/// The known devices that the enumeration no longer shows, in the order in
/// which they were known.
pub open spec fn departed(known: Seq<HidDeviceInfoView>, visible: Seq<HidDeviceInfoView>) -> Seq<
    HidDeviceInfoView,
>
    decreases known.len(),
{
    if known.len() == 0 {
        Seq::empty()
    } else {
        let before = departed(known.drop_last(), visible);
        if visible.contains(known.last()) {
            before
        } else {
            before.push(known.last())
        }
    }
}

/// The known devices that the enumeration still shows, in the order in which
/// they were known.
pub open spec fn staying(known: Seq<HidDeviceInfoView>, visible: Seq<HidDeviceInfoView>) -> Seq<
    HidDeviceInfoView,
>
    decreases known.len(),
{
    if known.len() == 0 {
        Seq::empty()
    } else {
        let before = staying(known.drop_last(), visible);
        if visible.contains(known.last()) {
            before.push(known.last())
        } else {
            before
        }
    }
}

/// The wanted devices of the enumeration that were not known, each once, in
/// the order in which the enumeration first shows them.
pub open spec fn arrived(
    queries: Seq<DeviceQuery>,
    known: Seq<HidDeviceInfoView>,
    visible: Seq<HidDeviceInfoView>,
) -> Seq<HidDeviceInfoView>
    decreases visible.len(),
{
    if visible.len() == 0 {
        Seq::empty()
    } else {
        let before = arrived(queries, known, visible.drop_last());
        let device = visible.last();
        if wanted(queries, device) && !known.contains(device) && !before.contains(device) {
            before.push(device)
        } else {
            before
        }
    }
}

/// The events of an enumeration against the devices known before: first the
/// disconnection of every device that departed, then the connection of
/// every device that arrived.
pub open spec fn lifecycle_events(
    queries: Seq<DeviceQuery>,
    known: Seq<HidDeviceInfoView>,
    visible: Seq<HidDeviceInfoView>,
) -> Seq<DeviceLifecycleEventView> {
    departed(known, visible).map_values(|device: HidDeviceInfoView| DeviceLifecycleEventView::Disconnected(device))
        + arrived(queries, known, visible).map_values(
        |device: HidDeviceInfoView| DeviceLifecycleEventView::Connected(device),
    )
}

/// Whether two devices are the same in all that the library reads of them.
pub fn same_device(a: &HidDeviceInfo, b: &HidDeviceInfo) -> (same: bool)
    ensures
        same == (a@ == b@),
{
    if a.vendor_id != b.vendor_id || a.product_id != b.product_id || a.usage_id != b.usage_id
        || a.usage_page != b.usage_page {
        return false;
    }
    match (&a.serial_number, &b.serial_number) {
        (Some(s), Some(t)) => *s == *t,
        (None, None) => true,
        _ => false,
    }
}

/// A copy of a device.
pub fn copy_of(info: &HidDeviceInfo) -> (copy: HidDeviceInfo)
    ensures
        copy@ == info@,
{
    HidDeviceInfo {
        vendor_id: info.vendor_id,
        product_id: info.product_id,
        usage_id: info.usage_id,
        usage_page: info.usage_page,
        serial_number: match &info.serial_number {
            Some(s) => Some(s.clone()),
            None => None,
        },
    }
}

/// Whether the list holds the device.
fn holds(list: &[HidDeviceInfo], info: &HidDeviceInfo) -> (found: bool)
    ensures
        found == views(list@).contains(info@),
{
    let mut index: usize = 0;
    while index < list.len()
        invariant
            index <= list@.len(),
            forall|i: int| 0 <= i < index ==> views(list@)[i] != info@,
        decreases list@.len() - index,
    {
        if same_device(&list[index], info) {
            assert(views(list@)[index as int] == info@);
            return true;
        }
        index += 1;
    }
    false
}

/// Watches for the coming and going of devices
pub struct DeviceWatcher {
    /// Whether the watch has been started
    initialized: bool,
    /// What the watch looks for
    queries: Vec<DeviceQuery>,
    /// The watched devices that the last enumeration showed
    connected: Vec<HidDeviceInfo>,
}

/// The mathematical value of a [`DeviceWatcher`].
pub struct DeviceWatcherView {
    pub initialized: bool,
    pub queries: Seq<DeviceQuery>,
    pub connected: Seq<HidDeviceInfoView>,
}

impl View for DeviceWatcher {
    type V = DeviceWatcherView;

    closed spec fn view(&self) -> DeviceWatcherView {
        DeviceWatcherView {
            initialized: self.initialized,
            queries: self.queries@,
            connected: views(self.connected@),
        }
    }
}

impl DeviceWatcher {
    /// A watcher whose watch has not been started.
    pub fn new() -> (watcher: Self)
        ensures
            watcher@ == (DeviceWatcherView {
                initialized: false,
                queries: Seq::empty(),
                connected: Seq::empty(),
            }),
    {
        let watcher = DeviceWatcher { initialized: false, queries: Vec::new(), connected: Vec::new() };
        assert(watcher@.connected =~= Seq::empty());
        watcher
    }

    /// Starts the watch for the devices that one of `queries` selects.
    ///
    /// A watcher watches once: a second start fails with
    /// `WatcherAlreadyInitialized` and leaves the running watch as it is. A
    /// started watch knows no device yet, so that the first enumeration
    /// tells every watched device that is there as connected.
    pub fn watch(&mut self, queries: &[DeviceQuery]) -> (started: Result<(), MirajazzError>)
        ensures
            started is Err <==> old(self)@.initialized,
            started matches Err(e) ==> e is WatcherAlreadyInitialized && final(self)@ == old(self)@,
            started is Ok ==> final(self)@ == (DeviceWatcherView {
                initialized: true,
                queries: queries@,
                connected: Seq::empty(),
            }),
    {
        if self.initialized {
            return Err(MirajazzError::WatcherAlreadyInitialized);
        }
        let mut wanted: Vec<DeviceQuery> = Vec::new();
        let mut index: usize = 0;
        while index < queries.len()
            invariant
                index <= queries@.len(),
                wanted@ == queries@.take(index as int),
            decreases queries@.len() - index,
        {
            wanted.push(queries[index]);
            index += 1;
            assert(wanted@ =~= queries@.take(index as int));
        }
        assert(queries@.take(index as int) =~= queries@);
        self.initialized = true;
        self.queries = wanted;
        self.connected = Vec::new();
        assert(self@.connected =~= Seq::empty());
        Ok(())
    }

    /// Whether one of the watcher's queries selects the device.
    fn wants(&self, info: &HidDeviceInfo) -> (selected: bool)
        ensures
            selected == wanted(self@.queries, info@),
    {
        let mut index: usize = 0;
        while index < self.queries.len()
            invariant
                index <= self.queries@.len(),
                forall|q: int| 0 <= q < index ==> !(#[trigger] self.queries@[q]).selects(info@),
            decreases self.queries@.len() - index,
        {
            if self.queries[index].matches(info) {
                return true;
            }
            index += 1;
        }
        false
    }

    /// Takes the next enumeration and tells what changed since the last one:
    /// a disconnection for every known device that is no longer there, then
    /// a connection for every watched device that is new. The devices known
    /// afterwards are those that stayed and those that arrived.
    pub fn poll(&mut self, devices: &[HidDeviceInfo]) -> (events: Vec<DeviceLifecycleEvent>)
        ensures
            event_views(events@) == lifecycle_events(
                old(self)@.queries,
                old(self)@.connected,
                views(devices@),
            ),
            final(self)@ == (DeviceWatcherView {
                connected: staying(old(self)@.connected, views(devices@)) + arrived(
                    old(self)@.queries,
                    old(self)@.connected,
                    views(devices@),
                ),
                ..old(self)@
            }),
    {
        let ghost queries = self@.queries;
        let ghost known = self@.connected;
        let ghost visible = views(devices@);
        let ghost gone = |device: HidDeviceInfoView| DeviceLifecycleEventView::Disconnected(device);
        let ghost come = |device: HidDeviceInfoView| DeviceLifecycleEventView::Connected(device);
        let mut events: Vec<DeviceLifecycleEvent> = Vec::new();
        let mut next: Vec<HidDeviceInfo> = Vec::new();
        let mut index: usize = 0;
        assert(known.take(0) =~= Seq::empty());
        assert(views(next@) =~= staying(known.take(0), visible));
        assert(event_views(events@) =~= departed(known.take(0), visible).map_values(gone));
        while index < self.connected.len()
            invariant
                index <= self.connected@.len(),
                self@ == old(self)@,
                known == views(self.connected@),
                visible == views(devices@),
                gone == |device: HidDeviceInfoView| DeviceLifecycleEventView::Disconnected(device),
                views(next@) == staying(known.take(index as int), visible),
                event_views(events@) == departed(known.take(index as int), visible).map_values(gone),
            decreases self.connected@.len() - index,
        {
            let device = &self.connected[index];
            proof {
                let upto = known.take(index + 1);
                assert(upto.drop_last() =~= known.take(index as int));
                assert(upto.last() == device@);
            }
            if holds(devices, device) {
                let ghost before = next@;
                next.push(copy_of(device));
                assert(views(next@) =~= views(before).push(device@));
            } else {
                let ghost before = events@;
                events.push(DeviceLifecycleEvent::Disconnected(copy_of(device)));
                assert(event_views(events@) =~= event_views(before).push(gone(device@)));
                assert(departed(known.take(index + 1), visible).map_values(gone) =~= departed(
                    known.take(index as int),
                    visible,
                ).map_values(gone).push(gone(device@)));
            }
            index += 1;
        }
        assert(known.take(index as int) =~= known);
        let ghost left = events@;
        let mut arrivals: Vec<HidDeviceInfo> = Vec::new();
        let mut index: usize = 0;
        assert(visible.take(0) =~= Seq::empty());
        assert(views(arrivals@) =~= arrived(queries, known, visible.take(0)));
        assert(event_views(events@) =~= event_views(left) + arrived(queries, known, visible.take(0)).map_values(
            come,
        ));
        while index < devices.len()
            invariant
                index <= devices@.len(),
                self@ == old(self)@,
                queries == self@.queries,
                known == views(self.connected@),
                visible == views(devices@),
                come == |device: HidDeviceInfoView| DeviceLifecycleEventView::Connected(device),
                views(arrivals@) == arrived(queries, known, visible.take(index as int)),
                event_views(events@) == event_views(left) + arrived(
                    queries,
                    known,
                    visible.take(index as int),
                ).map_values(come),
            decreases devices@.len() - index,
        {
            let device = &devices[index];
            proof {
                let upto = visible.take(index + 1);
                assert(upto.drop_last() =~= visible.take(index as int));
                assert(upto.last() == device@);
            }
            if self.wants(device) && !holds(self.connected.as_slice(), device) && !holds(
                arrivals.as_slice(),
                device,
            ) {
                let ghost before = arrivals@;
                let ghost told = events@;
                arrivals.push(copy_of(device));
                events.push(DeviceLifecycleEvent::Connected(copy_of(device)));
                assert(views(arrivals@) =~= views(before).push(device@));
                assert(event_views(events@) =~= event_views(told).push(come(device@)));
                assert(arrived(queries, known, visible.take(index + 1)).map_values(come) =~= arrived(
                    queries,
                    known,
                    visible.take(index as int),
                ).map_values(come).push(come(device@)));
            }
            index += 1;
        }
        assert(visible.take(index as int) =~= visible);
        let ghost stayed = next@;
        let ghost came = arrivals@;
        next.append(&mut arrivals);
        assert(views(next@) =~= views(stayed) + views(came));
        self.connected = next;
        events
    }
}

/// A device is told connected exactly when it is watched, there, and was not
/// known; it is told disconnected exactly when it was known and is no longer
/// there. No device is told connected twice in one enumeration.
pub proof fn law_lifecycle_events(
    queries: Seq<DeviceQuery>,
    known: Seq<HidDeviceInfoView>,
    visible: Seq<HidDeviceInfoView>,
)
    ensures
        forall|device: HidDeviceInfoView|
            #[trigger] arrived(queries, known, visible).contains(device) <==> wanted(queries, device)
                && visible.contains(device) && !known.contains(device),
        forall|device: HidDeviceInfoView|
            #[trigger] departed(known, visible).contains(device) <==> known.contains(device)
                && !visible.contains(device),
        forall|device: HidDeviceInfoView|
            #[trigger] staying(known, visible).contains(device) <==> known.contains(device)
                && visible.contains(device),
        arrived(queries, known, visible).no_duplicates(),
{
    lemma_arrived(queries, known, visible);
    lemma_departed(known, visible);
}

/// What `arrived` holds, and that it holds nothing twice.
proof fn lemma_arrived(queries: Seq<DeviceQuery>, known: Seq<HidDeviceInfoView>, visible: Seq<HidDeviceInfoView>)
    ensures
        forall|device: HidDeviceInfoView|
            #[trigger] arrived(queries, known, visible).contains(device) <==> wanted(queries, device)
                && visible.contains(device) && !known.contains(device),
        arrived(queries, known, visible).no_duplicates(),
    decreases visible.len(),
{
    let all = arrived(queries, known, visible);
    if visible.len() > 0 {
        let front = visible.drop_last();
        let before = arrived(queries, known, front);
        let last = visible.last();
        lemma_arrived(queries, known, front);
        assert(visible =~= front.push(last));
        assert forall|device: HidDeviceInfoView| #[trigger]
            all.contains(device) <==> wanted(queries, device) && visible.contains(device) && !known.contains(
                device,
            ) by {
            lemma_push_contains(front, last, device);
            if all == before {
            } else {
                lemma_push_contains(before, last, device);
            }
        }
    }
}

/// What `departed` and `staying` hold.
proof fn lemma_departed(known: Seq<HidDeviceInfoView>, visible: Seq<HidDeviceInfoView>)
    ensures
        forall|device: HidDeviceInfoView|
            #[trigger] departed(known, visible).contains(device) <==> known.contains(device)
                && !visible.contains(device),
        forall|device: HidDeviceInfoView|
            #[trigger] staying(known, visible).contains(device) <==> known.contains(device)
                && visible.contains(device),
    decreases known.len(),
{
    if known.len() > 0 {
        let front = known.drop_last();
        let last = known.last();
        lemma_departed(front, visible);
        assert(known =~= front.push(last));
        assert forall|device: HidDeviceInfoView| #[trigger]
            departed(known, visible).contains(device) <==> known.contains(device) && !visible.contains(
                device,
            ) by {
            lemma_push_contains(front, last, device);
            lemma_push_contains(departed(front, visible), last, device);
        }
        assert forall|device: HidDeviceInfoView| #[trigger]
            staying(known, visible).contains(device) <==> known.contains(device) && visible.contains(
                device,
            ) by {
            lemma_push_contains(front, last, device);
            lemma_push_contains(staying(front, visible), last, device);
        }
    }
}

/// A list with one more element holds what it held and that element.
proof fn lemma_push_contains(list: Seq<HidDeviceInfoView>, last: HidDeviceInfoView, device: HidDeviceInfoView)
    ensures
        list.push(last).contains(device) <==> list.contains(device) || device == last,
{
    let longer = list.push(last);
    if list.contains(device) {
        let i = choose|i: int| 0 <= i < list.len() && list[i] == device;
        assert(longer[i] == device);
    }
    if device == last {
        assert(longer[list.len() as int] == device);
    }
    if longer.contains(device) {
        let i = choose|i: int| 0 <= i < longer.len() && longer[i] == device;
        if i < list.len() {
            assert(list[i] == device);
        }
    }
}

/// The same enumeration twice tells nothing the second time: once an
/// enumeration has been taken, every watched device it shows is known and
/// every known device is shown, so that nothing arrives and nothing departs.
pub proof fn law_poll_settles(
    queries: Seq<DeviceQuery>,
    known: Seq<HidDeviceInfoView>,
    visible: Seq<HidDeviceInfoView>,
)
    ensures
        lifecycle_events(
            queries,
            staying(known, visible) + arrived(queries, known, visible),
            visible,
        ) == Seq::<DeviceLifecycleEventView>::empty(),
{
    let after = staying(known, visible) + arrived(queries, known, visible);
    law_lifecycle_events(queries, known, visible);
    law_lifecycle_events(queries, after, visible);
    assert forall|device: HidDeviceInfoView| after.contains(device) implies visible.contains(device) by {
        lemma_add_contains(staying(known, visible), arrived(queries, known, visible), device);
    }
    assert forall|device: HidDeviceInfoView|
        wanted(queries, device) && visible.contains(device) implies after.contains(device) by {
        lemma_add_contains(staying(known, visible), arrived(queries, known, visible), device);
    }
    let left = departed(after, visible);
    let came = arrived(queries, after, visible);
    if left.len() > 0 {
        assert(left.contains(left[0]));
    }
    if came.len() > 0 {
        assert(came.contains(came[0]));
    }
    assert(lifecycle_events(queries, after, visible) =~= Seq::<DeviceLifecycleEventView>::empty());
}

/// Two lists, one after the other, hold what either holds.
proof fn lemma_add_contains(
    first: Seq<HidDeviceInfoView>,
    second: Seq<HidDeviceInfoView>,
    device: HidDeviceInfoView,
)
    ensures
        (first + second).contains(device) <==> first.contains(device) || second.contains(device),
{
    let both = first + second;
    if first.contains(device) {
        let i = choose|i: int| 0 <= i < first.len() && first[i] == device;
        assert(both[i] == device);
    }
    if second.contains(device) {
        let i = choose|i: int| 0 <= i < second.len() && second[i] == device;
        assert(both[first.len() + i] == device);
    }
    if both.contains(device) {
        let i = choose|i: int| 0 <= i < both.len() && both[i] == device;
        if i < first.len() {
            assert(first[i] == device);
        } else {
            assert(second[i - first.len()] == device);
        }
    }
}

} // verus!
