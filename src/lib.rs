//! Discovery of mounted removable storage, and the commands and desktop
//! notifications used to eject it.
//!
//! Everything here works on plain values: the mount table comes in as its lines,
//! a command to run goes out as a [`dispatch::Invocation`], and a notification
//! as a [`dispatch::NotificationRequest`]. Reading files, spawning processes
//! and talking to the notification service are left to the caller.

pub mod device;
pub mod dispatch;
pub mod enumerate;
pub mod mount_table;
pub mod path;
pub mod properties;
pub mod removable;

pub use device::{Device, DeviceType};
