use vstd::prelude::*;
use crate::error::HomeError;
use crate::room::same_text;

verus! {

/// A device record as a state provider holds it: a name and a state.
pub trait DeviceItem {
    /// The device's name.
    spec fn spec_name(&self) -> Seq<char>;

    /// The device's current state, as text.
    spec fn spec_state(&self) -> Seq<char>;

    fn get_name(&self) -> (r: &str)
        ensures
            r@ == self.spec_name(),
    ;

    fn get_state(&self) -> (r: String)
        ensures
            r@ == self.spec_state(),
    ;
}

/// The capability to tell the state of a device in a room.
pub trait ObjectReporter {
    /// What `get_device_state` answers for a room name and a device name.
    spec fn state_of(&self, room: Seq<char>, device: Seq<char>) -> Result<Seq<char>, HomeError>;

    fn get_device_state(&self, room: &str, device: &str) -> (r: Result<String, HomeError>)
        ensures
            match r {
                Ok(s) => self.state_of(room@, device@) == Ok::<Seq<char>, HomeError>(s@),
                Err(e) => self.state_of(room@, device@) == Err::<Seq<char>, HomeError>(e),
            },
    ;
}

/// The value paired with the first occurrence of `key`, if any.
pub open spec fn find_first<V>(s: Seq<(Seq<char>, V)>, key: Seq<char>) -> Option<V>
    decreases s.len(),
{
    if s.len() == 0 {
        None
    } else if s[0].0 == key {
        Some(s[0].1)
    } else {
        find_first(s.drop_first(), key)
    }
}

/// A device record with a fixed name and state.
pub struct DeviceRecord {
    name: String,
    state: String,
}

impl DeviceRecord {
    pub fn new(name: String, state: String) -> (r: DeviceRecord)
        ensures
            r.spec_name() == name@,
            r.spec_state() == state@,
    {
        DeviceRecord { name, state }
    }
}

impl DeviceItem for DeviceRecord {
    closed spec fn spec_name(&self) -> Seq<char> {
        self.name@
    }

    closed spec fn spec_state(&self) -> Seq<char> {
        self.state@
    }

    fn get_name(&self) -> (r: &str) {
        self.name.as_str()
    }

    fn get_state(&self) -> (r: String) {
        self.state.clone()
    }
}

/// The name and state of each device record in a list.
pub open spec fn device_table<T: DeviceItem>(v: Seq<T>) -> Seq<(Seq<char>, Seq<char>)> {
    v.map_values(|d: T| (d.spec_name(), d.spec_state()))
}

/// The device records of each room in a list.
pub open spec fn room_table<T: DeviceItem>(v: Seq<(String, Vec<T>)>) -> Seq<
    (Seq<char>, Seq<(Seq<char>, Seq<char>)>),
> {
    v.map_values(|e: (String, Vec<T>)| (e.0@, device_table(e.1@)))
}

/// Device states known per room name. Where a room name, or a device name
/// within a room, occurs more than once, the first occurrence answers.
pub struct DeviceProvider<T: DeviceItem> {
    room_device_map: Vec<(String, Vec<T>)>,
}

impl<T: DeviceItem> DeviceProvider<T> {
    /// The known rooms with the name and state of each device, in order.
    pub closed spec fn table(&self) -> Seq<(Seq<char>, Seq<(Seq<char>, Seq<char>)>)> {
        room_table(self.room_device_map@)
    }

    pub fn new(device_map: Vec<(String, Vec<T>)>) -> (r: Self)
        ensures
            r.table() == room_table(device_map@),
    {
        DeviceProvider { room_device_map: device_map }
    }
}

/// Looking up `key` from position `i` on, one step at a time.
proof fn lemma_find_first_step<V>(s: Seq<(Seq<char>, V)>, key: Seq<char>, i: int)
    requires
        0 <= i < s.len(),
        s[i].0 != key,
    ensures
        find_first(s.subrange(i, s.len() as int), key) == find_first(
            s.subrange(i + 1, s.len() as int),
            key,
        ),
{
    assert(s.subrange(i, s.len() as int).drop_first() =~= s.subrange(i + 1, s.len() as int));
}

impl<T: DeviceItem> ObjectReporter for DeviceProvider<T> {
    open spec fn state_of(&self, room: Seq<char>, device: Seq<char>) -> Result<
        Seq<char>,
        HomeError,
    > {
        match find_first(self.table(), room) {
            None => Err(HomeError::RoomNotFound),
            Some(devices) => match find_first(devices, device) {
                None => Err(HomeError::DeviceNotFound),
                Some(state) => Ok(state),
            },
        }
    }

    fn get_device_state(&self, room: &str, device: &str) -> (r: Result<String, HomeError>) {
        let ghost rooms = self.table();
        let mut i: usize = 0;
        assert(rooms.subrange(0, rooms.len() as int) =~= rooms);
        while i < self.room_device_map.len()
            invariant
                i <= self.room_device_map.len(),
                rooms == room_table(self.room_device_map@),
                find_first(rooms, room@) == find_first(
                    rooms.subrange(i as int, rooms.len() as int),
                    room@,
                ),
            decreases self.room_device_map.len() - i,
        {
            if same_text(self.room_device_map[i].0.as_str(), room) {
                let devices = &self.room_device_map[i].1;
                let ghost table = rooms[i as int].1;
                assert(rooms.subrange(i as int, rooms.len() as int)[0] == rooms[i as int]);
                assert(table == device_table(devices@));
                assert(find_first(rooms, room@) == Some(table));
                let mut j: usize = 0;
                assert(table.subrange(0, table.len() as int) =~= table);
                while j < devices.len()
                    invariant
                        j <= devices.len(),
                        table == device_table(devices@),
                        find_first(rooms, room@) == Some(table),
                        rooms == self.table(),
                        find_first(table, device@) == find_first(
                            table.subrange(j as int, table.len() as int),
                            device@,
                        ),
                    decreases devices.len() - j,
                {
                    if same_text(devices[j].get_name(), device) {
                        assert(table.subrange(j as int, table.len() as int)[0] == table[j as int]);
                        assert(table[j as int].0 == devices@[j as int].spec_name());
                        let state = devices[j].get_state();
                        assert(find_first(table, device@) == Some(table[j as int].1));
                        return Ok(state);
                    }
                    proof {
                        lemma_find_first_step(table, device@, j as int);
                    }
                    j += 1;
                }
                return Err(HomeError::DeviceNotFound);
            }
            proof {
                lemma_find_first_step(rooms, room@, i as int);
            }
            i += 1;
        }
        Err(HomeError::RoomNotFound)
    }
}

} // verus!
