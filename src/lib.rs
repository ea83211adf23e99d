//! Device management for a micro-VM container sandbox: deduplicated device
//! registration, attach counting, block ordinals and guest-visible naming.

pub mod error;
pub mod text;
pub mod utils;
pub mod generic;
pub mod block;
pub mod device;
pub mod slots;
pub mod device_manager;
pub mod sysfs;
pub mod storage;
pub mod vsock;
