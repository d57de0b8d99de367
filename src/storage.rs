use vstd::prelude::*;
use crate::error::HomeError;
use crate::room::{Room, RoomModel};

verus! {

/// What every backend of the storage keeps consistent: the enumeration
/// order lists each stored room name exactly once, and no room holds a
/// device name twice.
pub open spec fn storage_consistent(
    rooms: Map<Seq<char>, RoomModel>,
    order: Seq<Seq<char>>,
) -> bool {
    &&& order.no_duplicates()
    &&& forall|k: Seq<char>| #[trigger] rooms.contains_key(k) <==> order.contains(k)
    &&& forall|k: Seq<char>| #[trigger] rooms.contains_key(k) ==> rooms[k].devices.no_duplicates()
}

/// `m` is `old` with the device set of room `k` changed to `devices`,
/// everything else the same.
pub open spec fn devices_changed(
    old: Map<Seq<char>, RoomModel>,
    new: Map<Seq<char>, RoomModel>,
    k: Seq<char>,
    devices: Set<Seq<char>>,
) -> bool {
    &&& new.dom() == old.dom()
    &&& new.remove(k) == old.remove(k)
    &&& new[k].name == old[k].name
    &&& new[k].devices.to_set() == devices
}

/// A room result with the room replaced by what it is.
pub open spec fn room_result(r: Result<&Room, HomeError>) -> Result<RoomModel, HomeError> {
    match r {
        Ok(room) => Ok(room@),
        Err(e) => Err(e),
    }
}

/// Adding `room` under `name` succeeds exactly when the name is free, and
/// then stores it; otherwise nothing changes.
pub open spec fn add_room_outcome(
    old: Map<Seq<char>, RoomModel>,
    new: Map<Seq<char>, RoomModel>,
    name: Seq<char>,
    room: RoomModel,
    r: Result<RoomModel, HomeError>,
) -> bool {
    if old.contains_key(name) {
        r == Err::<RoomModel, HomeError>(HomeError::RoomAlreadyExists) && new == old
    } else {
        r == Ok::<RoomModel, HomeError>(room) && new == old.insert(name, room)
    }
}

/// Looking up `name` gives the stored room, or `RoomNotFound`.
pub open spec fn get_room_outcome(
    rooms: Map<Seq<char>, RoomModel>,
    name: Seq<char>,
    r: Result<RoomModel, HomeError>,
) -> bool {
    if rooms.contains_key(name) {
        r == Ok::<RoomModel, HomeError>(rooms[name])
    } else {
        r == Err::<RoomModel, HomeError>(HomeError::RoomNotFound)
    }
}

/// Deleting `name` removes the room when it is stored; otherwise
/// `RoomNotFound` and nothing changes.
pub open spec fn delete_room_outcome(
    old: Map<Seq<char>, RoomModel>,
    new: Map<Seq<char>, RoomModel>,
    name: Seq<char>,
    r: Result<(), HomeError>,
) -> bool {
    if old.contains_key(name) {
        r == Ok::<(), HomeError>(()) && new == old.remove(name)
    } else {
        r == Err::<(), HomeError>(HomeError::RoomNotFound) && new == old
    }
}

/// Adding `device` to room `room`: `RoomNotFound` for a missing room,
/// `DeviceAlreadyExists` for a present device, both without change;
/// otherwise the device joins the room's set.
pub open spec fn add_device_outcome(
    old: Map<Seq<char>, RoomModel>,
    new: Map<Seq<char>, RoomModel>,
    room: Seq<char>,
    device: Seq<char>,
    r: Result<(), HomeError>,
) -> bool {
    if !old.contains_key(room) {
        r == Err::<(), HomeError>(HomeError::RoomNotFound) && new == old
    } else if old[room].devices.contains(device) {
        r == Err::<(), HomeError>(HomeError::DeviceAlreadyExists) && new == old
    } else {
        r == Ok::<(), HomeError>(()) && devices_changed(
            old,
            new,
            room,
            old[room].devices.to_set().insert(device),
        )
    }
}

/// Deleting `device` from room `room`: `RoomNotFound` for a missing room,
/// `DeviceNotFound` for an absent device, both without change; otherwise
/// the device leaves the room's set.
pub open spec fn delete_device_outcome(
    old: Map<Seq<char>, RoomModel>,
    new: Map<Seq<char>, RoomModel>,
    room: Seq<char>,
    device: Seq<char>,
    r: Result<(), HomeError>,
) -> bool {
    if !old.contains_key(room) {
        r == Err::<(), HomeError>(HomeError::RoomNotFound) && new == old
    } else if !old[room].devices.contains(device) {
        r == Err::<(), HomeError>(HomeError::DeviceNotFound) && new == old
    } else {
        r == Ok::<(), HomeError>(()) && devices_changed(
            old,
            new,
            room,
            old[room].devices.to_set().remove(device),
        )
    }
}

/// The capability to keep rooms by name and to change the devices in them.
pub trait RoomsStorage: Sized {
    /// The stored rooms, by name.
    spec fn rooms(&self) -> Map<Seq<char>, RoomModel>;

    /// The order in which the stored rooms are enumerated.
    spec fn order(&self) -> Seq<Seq<char>>;

    /// The backend's own representation invariant.
    spec fn well_formed(&self) -> bool;

    proof fn lemma_consistent(&self)
        requires
            self.well_formed(),
        ensures
            storage_consistent(self.rooms(), self.order()),
    ;

    /// How many rooms are stored.
    fn room_count(&self) -> (n: usize)
        requires
            self.well_formed(),
        ensures
            n == self.order().len(),
    ;

    /// The name and the room at position `i` of the enumeration order.
    fn room_at(&self, i: usize) -> (r: (&String, &Room))
        requires
            self.well_formed(),
            i < self.order().len(),
        ensures
            r.0@ == self.order()[i as int],
            r.1@ == self.rooms()[self.order()[i as int]],
    ;

    /// Stores `room` under `room_name`, unless that name is taken. The
    /// storage name is the room's name from then on, for lookups and for
    /// reports; the room's own name field is kept as given.
    fn add_room(&mut self, room_name: &str, room: Room) -> (r: Result<&Room, HomeError>)
        requires
            old(self).well_formed(),
        ensures
            final(self).well_formed(),
            add_room_outcome(
                old(self).rooms(),
                final(self).rooms(),
                room_name@,
                room@,
                room_result(r),
            ),
    ;

    /// The room stored under `name`.
    fn get_room(&self, name: &str) -> (r: Result<&Room, HomeError>)
        requires
            self.well_formed(),
        ensures
            get_room_outcome(self.rooms(), name@, room_result(r)),
    ;

    /// Removes the room stored under `name`, with its devices.
    fn delete_room(&mut self, name: &str) -> (r: Result<(), HomeError>)
        requires
            old(self).well_formed(),
        ensures
            final(self).well_formed(),
            delete_room_outcome(old(self).rooms(), final(self).rooms(), name@, r),
    ;

    /// Adds a device name to a stored room.
    fn add_device(&mut self, room_name: &str, device_name: &str) -> (r: Result<(), HomeError>)
        requires
            old(self).well_formed(),
        ensures
            final(self).well_formed(),
            add_device_outcome(
                old(self).rooms(),
                final(self).rooms(),
                room_name@,
                device_name@,
                r,
            ),
    ;

    /// Removes a device name from a stored room.
    fn delete_device(&mut self, room_name: &str, device_name: &str) -> (r: Result<(), HomeError>)
        requires
            old(self).well_formed(),
        ensures
            final(self).well_formed(),
            delete_device_outcome(
                old(self).rooms(),
                final(self).rooms(),
                room_name@,
                device_name@,
                r,
            ),
    ;
}

/// A single-pass cursor over the rooms of a storage, in the storage's
/// enumeration order. The storage is borrowed for the cursor's lifetime, so
/// it cannot change while the enumeration is under way.
pub struct RoomsIterator<'a, S: RoomsStorage> {
    storage: &'a S,
    pos: usize,
}

impl<'a, S: RoomsStorage> RoomsIterator<'a, S> {
    /// The storage being enumerated.
    pub closed spec fn storage(&self) -> &'a S {
        self.storage
    }

    /// How many rooms have been yielded so far.
    pub closed spec fn position(&self) -> nat {
        self.pos as nat
    }

    /// The names yielded so far, in order.
    pub open spec fn yielded(&self) -> Seq<Seq<char>> {
        self.storage().order().take(self.position() as int)
    }

    pub fn new(storage: &'a S) -> (it: Self)
        requires
            storage.well_formed(),
        ensures
            it.storage() == storage,
            it.position() == 0,
    {
        RoomsIterator { storage, pos: 0 }
    }

    /// The next room not yet yielded, or `None` once all have been.
    pub fn next(&mut self) -> (r: Option<(&'a String, &'a Room)>)
        requires
            old(self).storage().well_formed(),
            old(self).position() <= old(self).storage().order().len(),
        ensures
            final(self).storage() == old(self).storage(),
            final(self).position() <= final(self).storage().order().len(),
            old(self).position() < old(self).storage().order().len() ==> {
                let k = old(self).storage().order()[old(self).position() as int];
                &&& final(self).position() == old(self).position() + 1
                &&& r is Some
                &&& r->Some_0.0@ == k
                &&& r->Some_0.1@ == old(self).storage().rooms()[k]
            },
            old(self).position() == old(self).storage().order().len() ==> {
                &&& final(self).position() == old(self).position()
                &&& r is None
            },
    {
        let n = self.storage.room_count();
        if self.pos < n {
            let entry = self.storage.room_at(self.pos);
            self.pos = self.pos + 1;
            Some(entry)
        } else {
            None
        }
    }
}

/// A full enumeration yields as many rooms as are stored, each name once,
/// and the names yielded are exactly the stored names.
pub proof fn lemma_enumeration_exactly_once<S: RoomsStorage>(s: &S)
    requires
        s.well_formed(),
    ensures
        s.order().no_duplicates(),
        s.order().to_set() == s.rooms().dom(),
        s.order().len() == s.rooms().dom().len(),
{
    s.lemma_consistent();
    assert(s.order().to_set() =~= s.rooms().dom());
    s.order().unique_seq_to_set();
}

/// Adding a room under a free name succeeds, and looking the name up
/// afterwards gives back that room.
pub proof fn lemma_add_then_get(
    before: Map<Seq<char>, RoomModel>,
    after: Map<Seq<char>, RoomModel>,
    name: Seq<char>,
    room: RoomModel,
    added: Result<RoomModel, HomeError>,
    found: Result<RoomModel, HomeError>,
)
    requires
        !before.contains_key(name),
        add_room_outcome(before, after, name, room, added),
        get_room_outcome(after, name, found),
    ensures
        added == Ok::<RoomModel, HomeError>(room),
        found == Ok::<RoomModel, HomeError>(room),
{
}

/// Adding a room under a taken name fails with `RoomAlreadyExists`, leaves
/// the storage as it was, and the room first stored there is still found.
pub proof fn lemma_add_existing_rejected(
    before: Map<Seq<char>, RoomModel>,
    after: Map<Seq<char>, RoomModel>,
    name: Seq<char>,
    room: RoomModel,
    added: Result<RoomModel, HomeError>,
    found: Result<RoomModel, HomeError>,
)
    requires
        before.contains_key(name),
        add_room_outcome(before, after, name, room, added),
        get_room_outcome(after, name, found),
    ensures
        added == Err::<RoomModel, HomeError>(HomeError::RoomAlreadyExists),
        after == before,
        found == Ok::<RoomModel, HomeError>(before[name]),
{
}

/// After a room is deleted, looking it up fails with `RoomNotFound`.
pub proof fn lemma_delete_then_get(
    before: Map<Seq<char>, RoomModel>,
    after: Map<Seq<char>, RoomModel>,
    name: Seq<char>,
    deleted: Result<(), HomeError>,
    found: Result<RoomModel, HomeError>,
)
    requires
        delete_room_outcome(before, after, name, deleted),
        get_room_outcome(after, name, found),
    ensures
        found == Err::<RoomModel, HomeError>(HomeError::RoomNotFound),
{
}

/// Adding a device to a missing room fails with `RoomNotFound`; adding a
/// fresh device to a stored room succeeds and the room then lists it; the
/// same addition repeated fails with `DeviceAlreadyExists`.
pub proof fn lemma_add_device_twice(
    m0: Map<Seq<char>, RoomModel>,
    m1: Map<Seq<char>, RoomModel>,
    m2: Map<Seq<char>, RoomModel>,
    room: Seq<char>,
    device: Seq<char>,
    first: Result<(), HomeError>,
    second: Result<(), HomeError>,
)
    requires
        add_device_outcome(m0, m1, room, device, first),
        add_device_outcome(m1, m2, room, device, second),
    ensures
        !m0.contains_key(room) ==> first == Err::<(), HomeError>(HomeError::RoomNotFound),
        m0.contains_key(room) && !m0[room].devices.contains(device) ==> {
            &&& first == Ok::<(), HomeError>(())
            &&& m1[room].devices.contains(device)
            &&& second == Err::<(), HomeError>(HomeError::DeviceAlreadyExists)
        },
{
    if m0.contains_key(room) && !m0[room].devices.contains(device) {
        assert(m1[room].devices.to_set().contains(device));
    }
}

/// Deleting a device that the room does not hold fails with a "not found"
/// error; deleting one it holds succeeds and the room no longer lists it.
pub proof fn lemma_delete_device(
    before: Map<Seq<char>, RoomModel>,
    after: Map<Seq<char>, RoomModel>,
    room: Seq<char>,
    device: Seq<char>,
    deleted: Result<(), HomeError>,
)
    requires
        delete_device_outcome(before, after, room, device, deleted),
    ensures
        !(before.contains_key(room) && before[room].devices.contains(device)) ==> {
            &&& deleted is Err
            &&& deleted->Err_0.is_not_found()
            &&& after == before
        },
        before.contains_key(room) && before[room].devices.contains(device) ==> {
            &&& deleted == Ok::<(), HomeError>(())
            &&& after.contains_key(room)
            &&& !after[room].devices.contains(device)
        },
{
    if before.contains_key(room) && before[room].devices.contains(device) {
        if after[room].devices.contains(device) {
            assert(after[room].devices.to_set().contains(device));
        }
    }
}

/// A device added, deleted and added again to a stored room that did not
/// hold it succeeds each time.
pub proof fn lemma_add_delete_add(
    m0: Map<Seq<char>, RoomModel>,
    m1: Map<Seq<char>, RoomModel>,
    m2: Map<Seq<char>, RoomModel>,
    m3: Map<Seq<char>, RoomModel>,
    room: Seq<char>,
    device: Seq<char>,
    first: Result<(), HomeError>,
    removed: Result<(), HomeError>,
    again: Result<(), HomeError>,
)
    requires
        m0.contains_key(room),
        !m0[room].devices.contains(device),
        add_device_outcome(m0, m1, room, device, first),
        delete_device_outcome(m1, m2, room, device, removed),
        add_device_outcome(m2, m3, room, device, again),
    ensures
        first == Ok::<(), HomeError>(()),
        removed == Ok::<(), HomeError>(()),
        again == Ok::<(), HomeError>(()),
        m3.contains_key(room),
        m3[room].devices.contains(device),
{
    assert(m1[room].devices.to_set().contains(device));
    if m2[room].devices.contains(device) {
        assert(m2[room].devices.to_set().contains(device));
    }
    assert(m3[room].devices.to_set().contains(device));
}

} // verus!
