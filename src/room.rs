use vstd::prelude::*;

verus! {

/// The names held by a sequence of strings.
pub open spec fn names_of(v: Seq<String>) -> Seq<Seq<char>> {
    v.map_values(|s: String| s@)
}

/// What a room is: its name and its device names, in the order in which
/// they were added.
pub struct RoomModel {
    pub name: Seq<char>,
    pub devices: Seq<Seq<char>>,
}

/// A named container of unique device names.
pub struct Room {
    name: String,
    devices: Vec<String>,
}

/// Whether the two texts are equal.
pub(crate) fn same_text(a: &str, b: &str) -> (r: bool)
    ensures
        r == (a@ == b@),
{
    let s = a.to_string();
    let t = b.to_string();
    s == t
}

impl View for Room {
    type V = RoomModel;

    closed spec fn view(&self) -> RoomModel {
        RoomModel { name: self.name@, devices: names_of(self.devices@) }
    }
}

impl Room {
    /// No device name occurs twice.
    #[verifier::type_invariant]
    pub open spec fn well_formed(&self) -> bool {
        self@.devices.no_duplicates()
    }

    /// The set of device names of the room.
    pub open spec fn device_set(&self) -> Set<Seq<char>> {
        self@.devices.to_set()
    }

    /// Builds a room from a name and device names; a name given more than
    /// once is kept once.
    pub fn new(name: String, devices: Vec<String>) -> (r: Room)
        ensures
            r.well_formed(),
            r@.name == name@,
            r.device_set() == names_of(devices@).to_set(),
            r@.devices == names_of(devices@).remove_duplicates(Seq::empty()),
    {
        let mut room = Room { name, devices: Vec::new() };
        assert(names_of(devices@).skip(0) =~= names_of(devices@));
        let mut i: usize = 0;
        while i < devices.len()
            invariant
                i <= devices.len(),
                room.well_formed(),
                room@.name == name@,
                room.device_set() == names_of(devices@.take(i as int)).to_set(),
                names_of(devices@).skip(i as int).remove_duplicates(room@.devices) == names_of(
                    devices@,
                ).remove_duplicates(Seq::empty()),
            decreases devices.len() - i,
        {
            let d = devices[i].clone();
            let ghost before = room.device_set();
            let ghost before_seq = room@.devices;
            let ghost all = names_of(devices@);
            let added = room.insert_device(d);
            proof {
                let x = devices@[i as int]@;
                assert(names_of(devices@.take(i + 1)) == names_of(devices@.take(i as int)).push(x));
                lemma_to_set_push(names_of(devices@.take(i as int)), x);
                lemma_to_set_push(before_seq, x);
                assert(all.skip(i as int).skip(1) =~= all.skip(i + 1));
                assert(all.skip(i as int)[0] == x);
                if !added {
                    assert(before.contains(x));
                    assert(before.insert(x) =~= before);
                } else {
                    assert(before_seq.push(x) =~= before_seq + seq![x]);
                }
            }
            i += 1;
        }
        assert(devices@.take(devices.len() as int) == devices@);
        assert(names_of(devices@).skip(devices.len() as int).len() == 0);
        room
    }

    pub fn get_name(&self) -> (r: &str)
        ensures
            r@ == self@.name,
    {
        self.name.as_str()
    }

    /// The stored device name equal to `name`, if there is one.
    pub fn get_device(&self, name: &str) -> (r: Option<&str>)
        ensures
            r is Some <==> self@.devices.contains(name@),
            r is Some ==> r->Some_0@ == name@,
    {
        let mut i: usize = 0;
        while i < self.devices.len()
            invariant
                i <= self.devices.len(),
                forall|j: int| 0 <= j < i ==> self@.devices[j] != name@,
            decreases self.devices.len() - i,
        {
            if same_text(self.devices[i].as_str(), name) {
                assert(self@.devices[i as int] == name@);
                return Some(self.devices[i].as_str());
            }
            i += 1;
        }
        None
    }

    /// The device names of the room.
    pub fn get_devices(&self) -> (r: &Vec<String>)
        ensures
            names_of(r@) == self@.devices,
    {
        &self.devices
    }

    /// Adds a device name; true when it was not there before.
    pub fn insert_device(&mut self, device_name: String) -> (r: bool)
        ensures
            final(self).well_formed(),
            final(self)@.name == old(self)@.name,
            r == !old(self)@.devices.contains(device_name@),
            r ==> final(self)@.devices == old(self)@.devices.push(device_name@),
            !r ==> *final(self) == *old(self),
    {
        proof {
            use_type_invariant(&*self);
        }
        if self.get_device(device_name.as_str()).is_some() {
            return false;
        }
        let mut devices: Vec<String> = Vec::new();
        std::mem::swap(&mut self.devices, &mut devices);
        devices.push(device_name);
        assert(names_of(devices@) == names_of(old(self).devices@).push(device_name@));
        std::mem::swap(&mut self.devices, &mut devices);
        true
    }

    /// Removes a device name; true when it was there.
    pub fn remove_device(&mut self, device_name: &str) -> (r: bool)
        ensures
            final(self).well_formed(),
            final(self)@.name == old(self)@.name,
            r == old(self)@.devices.contains(device_name@),
            final(self)@.devices == old(self)@.devices.remove_value(device_name@),
            !r ==> *final(self) == *old(self),
    {
        proof {
            use_type_invariant(&*self);
        }
        let mut i: usize = 0;
        while i < self.devices.len()
            invariant
                i <= self.devices.len(),
                self.devices == old(self).devices,
                self.name == old(self).name,
                self.well_formed(),
                forall|j: int| 0 <= j < i ==> self@.devices[j] != device_name@,
            decreases self.devices.len() - i,
        {
            if same_text(self.devices[i].as_str(), device_name) {
                let ghost before = self@.devices;
                let mut devices: Vec<String> = Vec::new();
                std::mem::swap(&mut self.devices, &mut devices);
                devices.remove(i);
                assert(names_of(devices@) =~= before.remove(i as int));
                proof {
                    before.index_of_first_ensures(device_name@);
                    assert(before[i as int] == device_name@);
                    before.remove_ensures(i as int);
                    assert(before.no_duplicates());
                    assert forall|a: int, b: int|
                        0 <= a < before.len() - 1 && 0 <= b < before.len() - 1 && a != b implies before.remove(i as int)[a]
                        != before.remove(i as int)[b] by {
                        let a0 = if a < i { a } else { a + 1 };
                        let b0 = if b < i { b } else { b + 1 };
                        assert(before.remove(i as int)[a] == before[a0]);
                        assert(before.remove(i as int)[b] == before[b0]);
                        assert(before[a0] != before[b0]);
                    }
                }
                std::mem::swap(&mut self.devices, &mut devices);
                return true;
            }
            i += 1;
        }
        proof {
            self@.devices.index_of_first_ensures(device_name@);
        }
        false
    }
}

/// Pushing an element adds it to the set of the sequence.
pub proof fn lemma_to_set_push(s: Seq<Seq<char>>, x: Seq<char>)
    ensures
        s.push(x).to_set() == s.to_set().insert(x),
{
    assert(s.push(x).to_set() =~= s.to_set().insert(x)) by {
        assert forall|y| s.push(x).to_set().contains(y) implies s.to_set().insert(x).contains(y) by {
            if y != x {
                let k = choose|k: int| 0 <= k < s.push(x).len() && s.push(x)[k] == y;
                assert(s[k] == y);
            }
        }
        assert forall|y| s.to_set().insert(x).contains(y) implies s.push(x).to_set().contains(y) by {
            if y == x {
                assert(s.push(x)[s.len() as int] == x);
            } else {
                let k = choose|k: int| 0 <= k < s.len() && s[k] == y;
                assert(s.push(x)[k] == y);
            }
        }
    }
}

} // verus!
