use vstd::prelude::*;
use crate::error::HomeError;
use crate::room::{lemma_to_set_push, same_text, Room, RoomModel};
use crate::storage::{storage_consistent, RoomsIterator, RoomsStorage};

verus! {

/// The names of a list of entries.
pub open spec fn entry_names(v: Seq<(String, Room)>) -> Seq<Seq<char>> {
    v.map_values(|e: (String, Room)| e.0@)
}

/// Rooms kept in memory, one entry per room name.
pub struct InmemoryRoomsStorage {
    rooms: Vec<(String, Room)>,
    model: Ghost<Map<Seq<char>, RoomModel>>,
}

impl InmemoryRoomsStorage {
    /// A storage with no rooms.
    pub fn new() -> (s: Self)
        ensures
            s.well_formed(),
            s.rooms() == Map::<Seq<char>, RoomModel>::empty(),
    {
        InmemoryRoomsStorage { rooms: Vec::new(), model: Ghost(Map::empty()) }
    }

    /// A fresh single-pass enumeration of the stored rooms.
    pub fn list_rooms(&self) -> (it: RoomsIterator<'_, Self>)
        requires
            self.well_formed(),
        ensures
            it.storage() == self,
            it.position() == 0,
    {
        RoomsIterator::new(self)
    }

    /// The position of the entry named `name`, if there is one.
    fn find(&self, name: &str) -> (r: Option<usize>)
        requires
            self.well_formed(),
        ensures
            r is Some <==> self.rooms().contains_key(name@),
            r is Some ==> r->Some_0 < self.rooms@.len() && self.rooms@[r->Some_0 as int].0@
                == name@,
    {
        let mut i: usize = 0;
        while i < self.rooms.len()
            invariant
                i <= self.rooms.len(),
                self.well_formed(),
                forall|j: int| 0 <= j < i ==> self.rooms@[j].0@ != name@,
            decreases self.rooms.len() - i,
        {
            if same_text(self.rooms[i].0.as_str(), name) {
                assert(self.model@.contains_key(self.rooms@[i as int].0@));
                return Some(i);
            }
            i += 1;
        }
        proof {
            if self.model@.contains_key(name@) {
                let j = choose|j: int|
                    0 <= j < entry_names(self.rooms@).len() && entry_names(self.rooms@)[j]
                        == name@;
                assert(self.rooms@[j].0@ == name@);
            }
        }
        None
    }
}

impl RoomsStorage for InmemoryRoomsStorage {
    closed spec fn rooms(&self) -> Map<Seq<char>, RoomModel> {
        self.model@
    }

    closed spec fn order(&self) -> Seq<Seq<char>> {
        entry_names(self.rooms@)
    }

    closed spec fn well_formed(&self) -> bool {
        &&& entry_names(self.rooms@).no_duplicates()
        &&& forall|i: int|
            0 <= i < self.rooms@.len() ==> {
                &&& #[trigger] self.model@.contains_key(self.rooms@[i].0@)
                &&& self.model@[self.rooms@[i].0@] == self.rooms@[i].1@
                &&& self.rooms@[i].1.well_formed()
            }
        &&& forall|k: Seq<char>| #[trigger]
            self.model@.contains_key(k) ==> entry_names(self.rooms@).contains(k)
    }

    proof fn lemma_consistent(&self) {
        let names = entry_names(self.rooms@);
        assert forall|k: Seq<char>| #[trigger] self.model@.contains_key(k) <==> names.contains(k) by {
            if names.contains(k) {
                let j = choose|j: int| 0 <= j < names.len() && names[j] == k;
                assert(self.model@.contains_key(self.rooms@[j].0@));
            }
        }
        assert forall|k: Seq<char>| #[trigger]
            self.model@.contains_key(k) implies self.model@[k].devices.no_duplicates() by {
            let j = choose|j: int| 0 <= j < names.len() && names[j] == k;
            assert(self.model@.contains_key(self.rooms@[j].0@));
        }
    }

    fn room_count(&self) -> (n: usize) {
        self.rooms.len()
    }

    fn room_at(&self, i: usize) -> (r: (&String, &Room)) {
        let entry = &self.rooms[i];
        assert(self.model@.contains_key(self.rooms@[i as int].0@));
        (&entry.0, &entry.1)
    }

    fn add_room(&mut self, room_name: &str, room: Room) -> (r: Result<&Room, HomeError>) {
        proof {
            use_type_invariant(&room);
        }
        if self.find(room_name).is_some() {
            return Err(HomeError::RoomAlreadyExists);
        }
        let ghost before = self.rooms@;
        let ghost m = room@;
        self.rooms.push((room_name.to_string(), room));
        self.model = Ghost(self.model@.insert(room_name@, m));
        proof {
            assert(entry_names(self.rooms@) =~= entry_names(before).push(room_name@));
            assert forall|i: int| 0 <= i < self.rooms@.len() implies {
                &&& #[trigger] self.model@.contains_key(self.rooms@[i].0@)
                &&& self.model@[self.rooms@[i].0@] == self.rooms@[i].1@
                &&& self.rooms@[i].1.well_formed()
            } by {
                if i < before.len() {
                    assert(self.rooms@[i] == before[i]);
                    assert(entry_names(before)[i] == before[i].0@);
                }
            }
            assert forall|k: Seq<char>| #[trigger]
                self.model@.contains_key(k) implies entry_names(self.rooms@).contains(k) by {
                if k == room_name@ {
                    assert(entry_names(self.rooms@)[before.len() as int] == k);
                } else {
                    let j = choose|j: int|
                        0 <= j < entry_names(before).len() && entry_names(before)[j] == k;
                    assert(entry_names(self.rooms@)[j] == k);
                }
            }
        }
        let last = self.rooms.len() - 1;
        Ok(&self.rooms[last].1)
    }

    fn get_room(&self, name: &str) -> (r: Result<&Room, HomeError>) {
        match self.find(name) {
            Some(i) => {
                assert(self.model@.contains_key(self.rooms@[i as int].0@));
                Ok(&self.rooms[i].1)
            },
            None => Err(HomeError::RoomNotFound),
        }
    }

    fn delete_room(&mut self, name: &str) -> (r: Result<(), HomeError>) {
        let i = match self.find(name) {
            Some(i) => i,
            None => {
                return Err(HomeError::RoomNotFound);
            },
        };
        let ghost before = self.rooms@;
        self.rooms.remove(i);
        self.model = Ghost(self.model@.remove(name@));
        proof {
            let nb = entry_names(before);
            assert(entry_names(self.rooms@) =~= nb.remove(i as int));
            assert(nb[i as int] == name@);
            assert forall|a: int, b: int|
                0 <= a < nb.len() - 1 && 0 <= b < nb.len() - 1 && a != b implies nb.remove(
                i as int,
            )[a] != nb.remove(i as int)[b] by {
                let a0 = if a < i { a } else { a + 1 };
                let b0 = if b < i { b } else { b + 1 };
                assert(nb[a0] != nb[b0]);
            }
            assert forall|j: int| 0 <= j < self.rooms@.len() implies {
                &&& #[trigger] self.model@.contains_key(self.rooms@[j].0@)
                &&& self.model@[self.rooms@[j].0@] == self.rooms@[j].1@
                &&& self.rooms@[j].1.well_formed()
            } by {
                let j0 = if j < i { j } else { j + 1 };
                assert(self.rooms@[j] == before[j0]);
                assert(nb[j0] != nb[i as int]);
                assert(old(self).model@.contains_key(before[j0].0@));
            }
            assert forall|k: Seq<char>| #[trigger]
                self.model@.contains_key(k) implies entry_names(self.rooms@).contains(k) by {
                let j = choose|j: int| 0 <= j < nb.len() && nb[j] == k;
                assert(j != i);
                let j1 = if j < i { j } else { j - 1 };
                assert(entry_names(self.rooms@)[j1] == k);
            }
        }
        Ok(())
    }

    fn add_device(&mut self, room_name: &str, device_name: &str) -> (r: Result<(), HomeError>) {
        let i = match self.find(room_name) {
            Some(i) => i,
            None => {
                return Err(HomeError::RoomNotFound);
            },
        };
        assert(self.model@.contains_key(self.rooms@[i as int].0@));
        let ghost before = self.rooms@;
        let added = self.rooms[i].1.insert_device(device_name.to_string());
        if !added {
            assert(self.rooms@ =~= before);
            return Err(HomeError::DeviceAlreadyExists);
        }
        self.model = Ghost(self.model@.insert(room_name@, self.rooms@[i as int].1@));
        proof {
            self.lemma_update_entry(before, old(self).model@, i as int);
            lemma_to_set_push(before[i as int].1@.devices, device_name@);
            assert(self.model@.remove(room_name@) =~= old(self).model@.remove(room_name@));
        }
        Ok(())
    }

    fn delete_device(&mut self, room_name: &str, device_name: &str) -> (r: Result<(), HomeError>) {
        let i = match self.find(room_name) {
            Some(i) => i,
            None => {
                return Err(HomeError::RoomNotFound);
            },
        };
        assert(self.model@.contains_key(self.rooms@[i as int].0@));
        let ghost before = self.rooms@;
        let removed = self.rooms[i].1.remove_device(device_name);
        if !removed {
            proof {
                before[i as int].1@.devices.index_of_first_ensures(device_name@);
            }
            assert(self.rooms@ =~= before);
            return Err(HomeError::DeviceNotFound);
        }
        self.model = Ghost(self.model@.insert(room_name@, self.rooms@[i as int].1@));
        proof {
            self.lemma_update_entry(before, old(self).model@, i as int);
            lemma_to_set_remove_value(before[i as int].1@.devices, device_name@);
            assert(self.model@.remove(room_name@) =~= old(self).model@.remove(room_name@));
        }
        Ok(())
    }
}

impl InmemoryRoomsStorage {
    /// Changing the room of one entry, and the model with it, keeps the
    /// representation invariant.
    proof fn lemma_update_entry(
        &self,
        before: Seq<(String, Room)>,
        old_model: Map<Seq<char>, RoomModel>,
        i: int,
    )
        requires
            0 <= i < before.len(),
            self.rooms@.len() == before.len(),
            self.rooms@[i].0 == before[i].0,
            self.rooms@[i].1.well_formed(),
            forall|j: int| 0 <= j < before.len() && j != i ==> self.rooms@[j] == before[j],
            self.model@ == old_model.insert(before[i].0@, self.rooms@[i].1@),
            entry_names(before).no_duplicates(),
            forall|j: int|
                0 <= j < before.len() ==> {
                    &&& #[trigger] old_model.contains_key(before[j].0@)
                    &&& old_model[before[j].0@] == before[j].1@
                    &&& before[j].1.well_formed()
                },
            forall|k: Seq<char>| #[trigger]
                old_model.contains_key(k) ==> entry_names(before).contains(k),
        ensures
            self.well_formed(),
    {
        assert(entry_names(self.rooms@) =~= entry_names(before));
        assert forall|j: int| 0 <= j < self.rooms@.len() implies {
            &&& #[trigger] self.model@.contains_key(self.rooms@[j].0@)
            &&& self.model@[self.rooms@[j].0@] == self.rooms@[j].1@
            &&& self.rooms@[j].1.well_formed()
        } by {
            if j != i {
                assert(entry_names(before)[j] != entry_names(before)[i]);
                assert(old_model.contains_key(before[j].0@));
            }
        }
        assert forall|k: Seq<char>| #[trigger]
            self.model@.contains_key(k) implies entry_names(self.rooms@).contains(k) by {
            if k == before[i].0@ {
                assert(entry_names(self.rooms@)[i] == k);
            } else {
                assert(old_model.contains_key(k));
            }
        }
    }
}

/// In a sequence without duplicates, removing a present element removes it
/// from the set of the sequence.
proof fn lemma_to_set_remove_value(s: Seq<Seq<char>>, x: Seq<char>)
    requires
        s.no_duplicates(),
        s.contains(x),
    ensures
        s.remove_value(x).to_set() == s.to_set().remove(x),
{
    s.index_of_first_ensures(x);
    let i = s.index_of_first(x)->Some_0;
    s.remove_ensures(i);
    let r = s.remove(i);
    assert(r.to_set() =~= s.to_set().remove(x)) by {
        assert forall|y| r.to_set().contains(y) implies s.to_set().remove(x).contains(y) by {
            let k = choose|k: int| 0 <= k < r.len() && r[k] == y;
            let k0 = if k < i { k } else { k + 1 };
            assert(s[k0] == y);
            assert(k0 != i);
        }
        assert forall|y| s.to_set().remove(x).contains(y) implies r.to_set().contains(y) by {
            let k = choose|k: int| 0 <= k < s.len() && s[k] == y;
            assert(k != i);
            let k1 = if k < i { k } else { k - 1 };
            assert(r[k1] == y);
        }
    }
}

} // verus!
