//! A registry of rooms and the devices in them, kept behind a storage
//! capability, and a status report that joins that registry with device
//! states from an independent reporter.

pub mod error;
pub mod room;
pub mod storage;
pub mod memory;
pub mod reporter;
pub mod home;

pub use error::HomeError;
pub use home::Home;
pub use memory::InmemoryRoomsStorage;
pub use reporter::{DeviceItem, DeviceProvider, DeviceRecord, ObjectReporter};
pub use room::Room;
pub use storage::{RoomsIterator, RoomsStorage};
