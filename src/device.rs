use vstd::prelude::*;
use crate::path::last_segment;

verus! {

/// What kind of volume a [`Device`] is.
#[derive(Clone, Copy, Debug, PartialEq, Eq, Structural)]
pub enum DeviceType {
    USB,
    /// Reserved for network filesystems; enumeration never produces it.
    _Network,
}

/// The mathematical model of a [`Device`].
pub struct DeviceView {
    pub device_type: DeviceType,
    pub label: Seq<char>,
    pub mountpoint: Seq<char>,
    pub mounted: bool,
}

/// A snapshot of one mounted removable volume.
#[derive(Clone, Debug)]
pub struct Device {
    device_type: DeviceType,
    label: String,
    mountpoint: String,
    mounted: bool,
}

impl View for Device {
    type V = DeviceView;

    closed spec fn view(&self) -> DeviceView {
        DeviceView {
            device_type: self.device_type,
            label: self.label@,
            mountpoint: self.mountpoint@,
            mounted: self.mounted,
        }
    }
}

impl Device {
    /// A device as enumeration produces it: an absolute, non-empty
    /// mountpoint, labelled by its final segment, currently mounted.
    pub open spec fn wf(&self) -> bool {
        &&& self@.mountpoint.len() > 0
        &&& self@.mountpoint[0] == '/'
        &&& self@.label == last_segment(self@.mountpoint)
        &&& self@.mounted
    }

    /// The USB device mounted at `mountpoint`, labelled `label`.
    pub(crate) fn new_usb(label: String, mountpoint: String) -> (d: Device)
        ensures
            d@ == (DeviceView {
                device_type: DeviceType::USB,
                label: label@,
                mountpoint: mountpoint@,
                mounted: true,
            }),
    {
        Device { device_type: DeviceType::USB, label, mountpoint, mounted: true }
    }

    pub fn device_type(&self) -> (r: DeviceType)
        ensures
            r == self@.device_type,
    {
        self.device_type
    }

    pub fn label(&self) -> (r: String)
        ensures
            r@ == self@.label,
    {
        self.label.clone()
    }

    pub fn mountpoint(&self) -> (r: String)
        ensures
            r@ == self@.mountpoint,
    {
        self.mountpoint.clone()
    }

    pub fn mounted(&self) -> (r: bool)
        ensures
            r == self@.mounted,
    {
        self.mounted
    }
}

} // verus!
