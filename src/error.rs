use vstd::prelude::*;

verus! {

/// Why an operation on the registry or on a reporter did not succeed.
#[derive(Debug, Clone, Copy, PartialEq, Eq, Structural)]
pub enum HomeError {
    /// The named room does not exist where one was required.
    RoomNotFound,
    /// The named device does not exist in the room.
    DeviceNotFound,
    /// A room with that name is already stored.
    RoomAlreadyExists,
    /// A device with that name is already in the room.
    DeviceAlreadyExists,
}

impl HomeError {
    /// True for the two "not found" kinds.
    pub open spec fn spec_is_not_found(&self) -> bool {
        *self is RoomNotFound || *self is DeviceNotFound
    }

    /// True for the two "already exists" kinds.
    pub open spec fn spec_is_already_exists(&self) -> bool {
        *self is RoomAlreadyExists || *self is DeviceAlreadyExists
    }

    #[verifier::when_used_as_spec(spec_is_not_found)]
    pub fn is_not_found(&self) -> (r: bool)
        ensures
            r == self.spec_is_not_found(),
    {
        matches!(self, HomeError::RoomNotFound | HomeError::DeviceNotFound)
    }

    #[verifier::when_used_as_spec(spec_is_already_exists)]
    pub fn is_already_exists(&self) -> (r: bool)
        ensures
            r == self.spec_is_already_exists(),
    {
        matches!(self, HomeError::RoomAlreadyExists | HomeError::DeviceAlreadyExists)
    }
}

} // verus!
