use vstd::prelude::*;
use crate::error::HomeError;
use crate::reporter::ObjectReporter;
use crate::room::{Room, RoomModel};
use crate::storage::{
    add_device_outcome, add_room_outcome, delete_device_outcome, delete_room_outcome,
    get_room_outcome, room_result, RoomsIterator, RoomsStorage,
};

verus! {

/// One resolved device of a report: room name, device name and state.
pub type ReportEntry = (Seq<char>, Seq<char>, Seq<char>);

/// One device left out of a report: room name, device name and the
/// reporter's error.
pub type SkipEntry = (Seq<char>, Seq<char>, HomeError);

/// The first line of a report.
pub open spec fn report_header(home: Seq<char>) -> Seq<char> {
    "Report for: "@ + home + "\n"@
}

/// The report line of one resolved device.
pub open spec fn report_line(e: ReportEntry) -> Seq<char> {
    "Room "@ + e.0 + ", has device "@ + e.1 + " with state - "@ + e.2 + "\n"@
}

/// The resolved devices of one room, in the room's device order; a device
/// whose state the reporter cannot give is left out.
pub open spec fn room_entries<R: ObjectReporter>(
    reporter: R,
    room: Seq<char>,
    devices: Seq<Seq<char>>,
) -> Seq<ReportEntry>
    decreases devices.len(),
{
    if devices.len() == 0 {
        Seq::empty()
    } else {
        let before = room_entries(reporter, room, devices.drop_last());
        let d = devices.last();
        match reporter.state_of(room, d) {
            Ok(state) => before.push((room, d, state)),
            Err(_) => before,
        }
    }
}

/// The devices of one room whose state the reporter cannot give, with the
/// error it gave, in the room's device order.
pub open spec fn room_skips<R: ObjectReporter>(
    reporter: R,
    room: Seq<char>,
    devices: Seq<Seq<char>>,
) -> Seq<SkipEntry>
    decreases devices.len(),
{
    if devices.len() == 0 {
        Seq::empty()
    } else {
        let before = room_skips(reporter, room, devices.drop_last());
        let d = devices.last();
        match reporter.state_of(room, d) {
            Ok(_) => before,
            Err(e) => before.push((room, d, e)),
        }
    }
}

/// The unresolved devices of the rooms named in `order`, room by room.
pub open spec fn report_skips<R: ObjectReporter>(
    reporter: R,
    order: Seq<Seq<char>>,
    rooms: Map<Seq<char>, RoomModel>,
) -> Seq<SkipEntry>
    decreases order.len(),
{
    if order.len() == 0 {
        Seq::empty()
    } else {
        report_skips(reporter, order.drop_last(), rooms) + room_skips(
            reporter,
            order.last(),
            rooms[order.last()].devices,
        )
    }
}

/// What a list of skipped devices holds.
pub open spec fn skips_view(v: Seq<(String, String, HomeError)>) -> Seq<SkipEntry> {
    v.map_values(|s: (String, String, HomeError)| (s.0@, s.1@, s.2))
}

/// The resolved devices of the rooms named in `order`, room by room.
pub open spec fn report_entries<R: ObjectReporter>(
    reporter: R,
    order: Seq<Seq<char>>,
    rooms: Map<Seq<char>, RoomModel>,
) -> Seq<ReportEntry>
    decreases order.len(),
{
    if order.len() == 0 {
        Seq::empty()
    } else {
        report_entries(reporter, order.drop_last(), rooms) + room_entries(
            reporter,
            order.last(),
            rooms[order.last()].devices,
        )
    }
}

/// The report lines of a list of resolved devices.
pub open spec fn lines_text(entries: Seq<ReportEntry>) -> Seq<char>
    decreases entries.len(),
{
    if entries.len() == 0 {
        Seq::empty()
    } else {
        lines_text(entries.drop_last()) + report_line(entries.last())
    }
}

/// A home: a display name and the storage that holds its rooms.
pub struct Home<S: RoomsStorage> {
    name: String,
    rooms_storage: S,
}

impl<S: RoomsStorage> Home<S> {
    /// The home's name.
    pub closed spec fn spec_name(&self) -> Seq<char> {
        self.name@
    }

    /// The storage the home owns.
    pub closed spec fn storage(&self) -> S {
        self.rooms_storage
    }

    pub open spec fn well_formed(&self) -> bool {
        self.storage().well_formed()
    }

    /// The rooms of the home, by name.
    pub open spec fn rooms(&self) -> Map<Seq<char>, RoomModel> {
        self.storage().rooms()
    }

    /// The resolved devices that a report of this home lists, in order.
    pub open spec fn entries_for<R: ObjectReporter>(&self, reporter: R) -> Seq<ReportEntry> {
        report_entries(reporter, self.storage().order(), self.rooms())
    }

    /// The devices that a report of this home leaves out, in order.
    pub open spec fn skips_for<R: ObjectReporter>(&self, reporter: R) -> Seq<SkipEntry> {
        report_skips(reporter, self.storage().order(), self.rooms())
    }

    /// The full text of a report of this home.
    pub open spec fn report_for<R: ObjectReporter>(&self, reporter: R) -> Seq<char> {
        report_header(self.spec_name()) + lines_text(self.entries_for(reporter))
    }

    pub fn new(name: String, rooms_storage: S) -> (h: Self)
        requires
            rooms_storage.well_formed(),
        ensures
            h.well_formed(),
            h.spec_name() == name@,
            h.storage() == rooms_storage,
    {
        Home { name, rooms_storage }
    }

    pub fn name(&self) -> (r: &str)
        ensures
            r@ == self.spec_name(),
    {
        self.name.as_str()
    }

    /// A fresh single-pass enumeration of the home's rooms.
    pub fn list_rooms(&self) -> (it: RoomsIterator<'_, S>)
        requires
            self.well_formed(),
        ensures
            *it.storage() == self.storage(),
            it.position() == 0,
    {
        RoomsIterator::new(&self.rooms_storage)
    }

    pub fn add_room(&mut self, room_name: &str, room: Room) -> (r: Result<&Room, HomeError>)
        requires
            old(self).well_formed(),
        ensures
            final(self).well_formed(),
            final(self).spec_name() == old(self).spec_name(),
            add_room_outcome(
                old(self).rooms(),
                final(self).rooms(),
                room_name@,
                room@,
                room_result(r),
            ),
    {
        self.rooms_storage.add_room(room_name, room)
    }

    pub fn get_room(&self, name: &str) -> (r: Result<&Room, HomeError>)
        requires
            self.well_formed(),
        ensures
            get_room_outcome(self.rooms(), name@, room_result(r)),
    {
        self.rooms_storage.get_room(name)
    }

    pub fn delete_room(&mut self, name: &str) -> (r: Result<(), HomeError>)
        requires
            old(self).well_formed(),
        ensures
            final(self).well_formed(),
            final(self).spec_name() == old(self).spec_name(),
            delete_room_outcome(old(self).rooms(), final(self).rooms(), name@, r),
    {
        self.rooms_storage.delete_room(name)
    }

    pub fn add_device(&mut self, room_name: &str, device_name: &str) -> (r: Result<(), HomeError>)
        requires
            old(self).well_formed(),
        ensures
            final(self).well_formed(),
            final(self).spec_name() == old(self).spec_name(),
            add_device_outcome(
                old(self).rooms(),
                final(self).rooms(),
                room_name@,
                device_name@,
                r,
            ),
    {
        self.rooms_storage.add_device(room_name, device_name)
    }

    pub fn delete_divece(&mut self, room_name: &str, device_name: &str) -> (r: Result<
        (),
        HomeError,
    >)
        requires
            old(self).well_formed(),
        ensures
            final(self).well_formed(),
            final(self).spec_name() == old(self).spec_name(),
            delete_device_outcome(
                old(self).rooms(),
                final(self).rooms(),
                room_name@,
                device_name@,
                r,
            ),
    {
        self.rooms_storage.delete_device(room_name, device_name)
    }

    /// The status report: a header naming the home, then one line per
    /// device of each stored room whose state the reporter gives.
    pub fn get_report<R: ObjectReporter>(&self, reporter: R) -> (r: String)
        requires
            self.well_formed(),
        ensures
            r@ == self.report_for(reporter),
    {
        let (text, _skipped) = self.report_with_skips(reporter);
        text
    }

    /// The status report, together with the devices it leaves out. A
    /// device the reporter cannot resolve gets no line, goes to the second
    /// list with the reporter's error, and the report goes on. The storage's
    /// room name is the one asked of the reporter and printed.
    pub fn report_with_skips<R: ObjectReporter>(&self, reporter: R) -> (r: (
        String,
        Vec<(String, String, HomeError)>,
    ))
        requires
            self.well_formed(),
        ensures
            r.0@ == self.report_for(reporter),
            skips_view(r.1@) == self.skips_for(reporter),
    {
        let ghost order = self.storage().order();
        let ghost rooms = self.rooms();
        let mut report = String::new();
        report.append("Report for: ");
        report.append(self.name());
        report.append("\n");
        let ghost mut entries: Seq<ReportEntry> = Seq::empty();
        let mut skipped: Vec<(String, String, HomeError)> = Vec::new();
        let mut it = self.list_rooms();
        proof {
            assert(order.take(0) =~= Seq::<Seq<char>>::empty());
        }
        loop
            invariant
                *it.storage() == self.storage(),
                self.well_formed(),
                order == self.storage().order(),
                rooms == self.rooms(),
                it.position() <= order.len(),
                entries == report_entries(reporter, order.take(it.position() as int), rooms),
                report@ == report_header(self.spec_name()) + lines_text(entries),
                skips_view(skipped@) == report_skips(
                    reporter,
                    order.take(it.position() as int),
                    rooms,
                ),
            ensures
                report@ == self.report_for(reporter),
                skips_view(skipped@) == self.skips_for(reporter),
            decreases order.len() - it.position(),
        {
            let ghost pos = it.position();
            let next = it.next();
            match next {
                None => {
                    assert(order.take(pos as int) =~= order);
                    break ;
                },
                Some((room_name, room)) => {
                    let ghost done = entries;
                    let ghost done_skips = skips_view(skipped@);
                    let devices = room.get_devices();
                    let ghost names = rooms[order[pos as int]].devices;
                    let mut j: usize = 0;
                    proof {
                        assert(names.take(0) =~= Seq::<Seq<char>>::empty());
                        assert(done + Seq::<ReportEntry>::empty() =~= done);
                        assert(done_skips + Seq::<SkipEntry>::empty() =~= done_skips);
                    }
                    while j < devices.len()
                        invariant
                            j <= devices.len(),
                            room_name@ == order[pos as int],
                            names == crate::room::names_of(devices@),
                            entries == done + room_entries(
                                reporter,
                                room_name@,
                                names.take(j as int),
                            ),
                            report@ == report_header(self.spec_name()) + lines_text(entries),
                            skips_view(skipped@) == done_skips + room_skips(
                                reporter,
                                room_name@,
                                names.take(j as int),
                            ),
                        decreases devices.len() - j,
                    {
                        let device = devices[j].as_str();
                        let state = reporter.get_device_state(room_name.as_str(), device);
                        proof {
                            assert(names.take(j + 1).drop_last() =~= names.take(j as int));
                            assert(names.take(j + 1).last() == device@);
                        }
                        match state {
                            Ok(state) => {
                                report.append("Room ");
                                report.append(room_name.as_str());
                                report.append(", has device ");
                                report.append(device);
                                report.append(" with state - ");
                                report.append(state.as_str());
                                report.append("\n");
                                proof {
                                    let e = (room_name@, device@, state@);
                                    let prev = entries;
                                    entries = entries.push(e);
                                    assert(entries.drop_last() =~= prev);
                                    assert(entries =~= done + room_entries(
                                        reporter,
                                        room_name@,
                                        names.take(j + 1),
                                    ));
                                }
                            },
                            Err(e) => {
                                let ghost prev = skipped@;
                                skipped.push((room_name.clone(), device.to_string(), e));
                                proof {
                                    assert(skips_view(skipped@) =~= skips_view(prev).push(
                                        (room_name@, device@, e),
                                    ));
                                    assert(skips_view(skipped@) =~= done_skips + room_skips(
                                        reporter,
                                        room_name@,
                                        names.take(j + 1),
                                    ));
                                }
                            },
                        }
                        j += 1;
                    }
                    proof {
                        assert(names.take(devices@.len() as int) =~= names);
                        assert(order.take(pos as int + 1).drop_last() =~= order.take(pos as int));
                    }
                },
            }
        }
        (report, skipped)
    }
}

/// The entries of one room are exactly its devices that the reporter
/// resolves, each with the state it gives.
proof fn lemma_room_entries<R: ObjectReporter>(
    reporter: R,
    room: Seq<char>,
    devices: Seq<Seq<char>>,
)
    ensures
        forall|e: ReportEntry| #[trigger]
            room_entries(reporter, room, devices).contains(e) <==> {
                &&& e.0 == room
                &&& devices.contains(e.1)
                &&& reporter.state_of(room, e.1) == Ok::<Seq<char>, HomeError>(e.2)
            },
    decreases devices.len(),
{
    if devices.len() > 0 {
        let rest = devices.drop_last();
        lemma_room_entries(reporter, room, rest);
        let prev = room_entries(reporter, room, rest);
        let d = devices.last();
        assert forall|e: ReportEntry| #[trigger]
            room_entries(reporter, room, devices).contains(e) <==> {
                &&& e.0 == room
                &&& devices.contains(e.1)
                &&& reporter.state_of(room, e.1) == Ok::<Seq<char>, HomeError>(e.2)
            } by {
            let all = room_entries(reporter, room, devices);
            if all.contains(e) {
                if prev.contains(e) {
                    let k = choose|k: int| 0 <= k < rest.len() && rest[k] == e.1;
                    assert(devices[k] == e.1);
                } else {
                    let k = choose|k: int| 0 <= k < all.len() && all[k] == e;
                    assert(devices[devices.len() - 1] == d);
                    if k < prev.len() {
                        assert(all[k] == prev[k]);
                    }
                }
            }
            if e.0 == room && devices.contains(e.1) && reporter.state_of(room, e.1) == Ok::<
                Seq<char>,
                HomeError,
            >(e.2) {
                let k = choose|k: int| 0 <= k < devices.len() && devices[k] == e.1;
                if k < devices.len() - 1 {
                    assert(rest[k] == e.1);
                    let i = choose|i: int| 0 <= i < prev.len() && prev[i] == e;
                    assert(all[i] == e);
                } else {
                    assert(all[all.len() - 1] == e);
                }
            }
        }
    }
}

/// The entries for the rooms named in `order` are exactly the devices of
/// those rooms that the reporter resolves, each with the state it gives.
proof fn lemma_report_entries<R: ObjectReporter>(
    reporter: R,
    order: Seq<Seq<char>>,
    rooms: Map<Seq<char>, RoomModel>,
)
    ensures
        forall|e: ReportEntry| #[trigger]
            report_entries(reporter, order, rooms).contains(e) <==> {
                &&& order.contains(e.0)
                &&& rooms[e.0].devices.contains(e.1)
                &&& reporter.state_of(e.0, e.1) == Ok::<Seq<char>, HomeError>(e.2)
            },
    decreases order.len(),
{
    if order.len() > 0 {
        let rest = order.drop_last();
        let k = order.last();
        lemma_report_entries(reporter, rest, rooms);
        lemma_room_entries(reporter, k, rooms[k].devices);
        let prev = report_entries(reporter, rest, rooms);
        let last = room_entries(reporter, k, rooms[k].devices);
        let all = report_entries(reporter, order, rooms);
        assert(all == prev + last);
        assert forall|e: ReportEntry| #[trigger]
            report_entries(reporter, order, rooms).contains(e) <==> {
                &&& order.contains(e.0)
                &&& rooms[e.0].devices.contains(e.1)
                &&& reporter.state_of(e.0, e.1) == Ok::<Seq<char>, HomeError>(e.2)
            } by {
            if all.contains(e) {
                let i = choose|i: int| 0 <= i < all.len() && all[i] == e;
                if i < prev.len() {
                    assert(prev[i] == e);
                    assert(prev.contains(e));
                    let j = choose|j: int| 0 <= j < rest.len() && rest[j] == e.0;
                    assert(order[j] == e.0);
                } else {
                    assert(last[i - prev.len()] == e);
                    assert(last.contains(e));
                    assert(order[order.len() - 1] == k);
                }
            }
            if order.contains(e.0) && rooms[e.0].devices.contains(e.1) && reporter.state_of(
                e.0,
                e.1,
            ) == Ok::<Seq<char>, HomeError>(e.2) {
                let j = choose|j: int| 0 <= j < order.len() && order[j] == e.0;
                if j < order.len() - 1 {
                    assert(rest[j] == e.0);
                    assert(rest.contains(e.0));
                    assert(prev.contains(e));
                    let i = choose|i: int| 0 <= i < prev.len() && prev[i] == e;
                    assert(all[i] == e);
                } else {
                    assert(e.0 == k);
                    assert(last.contains(e));
                    let i = choose|i: int| 0 <= i < last.len() && last[i] == e;
                    assert(all[prev.len() + i] == e);
                }
            }
        }
    }
}

/// A report lists a device with a state exactly when the home stores the
/// device in a room and the reporter gives that state for it: devices the
/// reporter knows of but the storage does not never appear, and devices it
/// cannot resolve are left out.
pub proof fn lemma_report_joins_topology_and_state<S: RoomsStorage, R: ObjectReporter>(
    home: &Home<S>,
    reporter: R,
)
    requires
        home.well_formed(),
    ensures
        forall|e: ReportEntry| #[trigger]
            home.entries_for(reporter).contains(e) <==> {
                &&& home.rooms().contains_key(e.0)
                &&& home.rooms()[e.0].devices.contains(e.1)
                &&& reporter.state_of(e.0, e.1) == Ok::<Seq<char>, HomeError>(e.2)
            },
{
    home.storage().lemma_consistent();
    lemma_report_entries(reporter, home.storage().order(), home.rooms());
}

} // verus!
