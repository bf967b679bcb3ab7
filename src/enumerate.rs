//! Turning the lines of a mount table into the list of removable devices.
use vstd::prelude::*;
use crate::device::{Device, DeviceType, DeviceView};
use crate::mount_table::{has_two_fields, source_field, target_field, two_fields, unescape, unescape_field};
use crate::path::{has_prefix, last_segment};

verus! {

/// Where a sandbox's view of the host bind-mounts the host's mounts again.
pub open spec fn container_prefix() -> Seq<char> {
    "/run/host/"@
}

/// The root under which desktops mount removable media.
pub open spec fn media_root() -> Seq<char> {
    "/run/media/"@
}

/// The views of a list of strings.
pub open spec fn views(lines: Seq<String>) -> Seq<Seq<char>> {
    lines.map_values(|l: String| l@)
}

/// The source and the decoded mountpoint of a line that may name a device:
/// it has two fields, an absolute mountpoint, and is not a sandbox's copy
/// of a host mount.
pub open spec fn entry_of_line(line: Seq<char>) -> Option<(Seq<char>, Seq<char>)> {
    let mp = unescape(target_field(line));
    if has_two_fields(line) && mp.len() > 0 && mp[0] == '/' && !container_prefix().is_prefix_of(
        mp,
    ) {
        Some((source_field(line), mp))
    } else {
        None
    }
}

/// The decoded mountpoint of a line that names a device.
pub open spec fn entry_mountpoint(line: Seq<char>) -> Seq<char> {
    match entry_of_line(line) {
        Some((_source, mp)) => mp,
        None => Seq::empty(),
    }
}

/// The device that enumeration reports for a removable volume at `mp`.
pub open spec fn device_at(mp: Seq<char>) -> DeviceView {
    DeviceView { device_type: DeviceType::USB, label: last_segment(mp), mountpoint: mp, mounted: true }
}

/// The devices of the lines whose entry exists and whose mark is set, in
/// the order of the lines.
pub open spec fn select(lines: Seq<Seq<char>>, marks: Seq<bool>) -> Seq<DeviceView>
    decreases lines.len(),
{
    if lines.len() == 0 {
        Seq::empty()
    } else {
        let rest = select(lines.drop_last(), marks.drop_last());
        if let Some((_source, mp)) = entry_of_line(lines.last()) {
            if marks[lines.len() - 1] {
                rest.push(device_at(mp))
            } else {
                rest
            }
        } else {
            rest
        }
    }
}

/// One line of a mount table, read up to its mountpoint.
pub struct MountEntry {
    /// The mounted device or source, as written.
    pub source: String,
    /// The mountpoint, with its escape sequences decoded.
    pub mountpoint: String,
}

/// Reads the source and mountpoint of a line; `None` when the line has
/// fewer than two fields, a mountpoint that is not absolute, or one under
/// the sandbox's bind-mount prefix.
pub fn parse_mount_line(line: &str) -> (r: Option<MountEntry>)
    ensures
        r is Some <==> entry_of_line(line@) is Some,
        r matches Some(e) ==> (e.source@, e.mountpoint@) == entry_of_line(line@)->0,
{
    match two_fields(line) {
        None => None,
        Some((src, tgt)) => {
            let mountpoint = unescape_field(tgt);
            let n = mountpoint.as_str().unicode_len();
            if n == 0 || mountpoint.as_str().get_char(0) != '/' || has_prefix(
                mountpoint.as_str(),
                "/run/host/",
            ) {
                None
            } else {
                Some(MountEntry { source: String::from_str(src), mountpoint })
            }
        },
    }
}

/// The devices of the lines whose mark is set: each line in turn is read
/// with [`parse_mount_line`], and the ones that name a device and are
/// marked removable each give one [`Device`].
pub fn select_devices(lines: &Vec<String>, marks: &Vec<bool>) -> (r: Vec<Device>)
    requires
        lines@.len() == marks@.len(),
    ensures
        r@.map_values(|d: Device| d@) == select(views(lines@), marks@),
        forall|i: int| 0 <= i < r@.len() ==> #[trigger] r@[i].wf(),
{
    let mut out: Vec<Device> = Vec::new();
    let mut i: usize = 0;
    while i < lines.len()
        invariant
            lines@.len() == marks@.len(),
            i <= lines@.len(),
            out@.map_values(|d: Device| d@) == select(
                views(lines@).take(i as int),
                marks@.take(i as int),
            ),
            forall|j: int| 0 <= j < out@.len() ==> #[trigger] out@[j].wf(),
        decreases lines@.len() - i,
    {
        let ghost ls = views(lines@);
        assert(ls.take(i + 1).drop_last() =~= ls.take(i as int));
        assert(marks@.take(i + 1).drop_last() =~= marks@.take(i as int));
        assert(ls.take(i + 1).last() == lines@[i as int]@);
        if let Some(e) = parse_mount_line(lines[i].as_str()) {
            if marks[i] {
                let label = String::from_str(crate::path::final_segment(e.mountpoint.as_str()));
                let d = Device::new_usb(label, e.mountpoint);
                proof {
                    lemma_device_wf(d);
                }
                out.push(d);
                assert(out@.map_values(|d: Device| d@) =~= select(
                    ls.take(i + 1),
                    marks@.take(i + 1),
                ));
            }
        }
        i = i + 1;
    }
    assert(views(lines@).take(lines@.len() as int) =~= views(lines@));
    assert(marks@.take(lines@.len() as int) =~= marks@);
    out
}

/// The path heuristic: a mountpoint under the media root is removable.
pub open spec fn path_marks(lines: Seq<Seq<char>>) -> Seq<bool> {
    Seq::new(
        lines.len(),
        |i: int|
            match entry_of_line(lines[i]) {
                Some((_source, mp)) => media_root().is_prefix_of(mp),
                None => false,
            },
    )
}

/// Enumerates the removable devices of a mount table, given as its lines,
/// by the path heuristic: those mounted under the media root.
pub fn get_devices_by_path(lines: &Vec<String>) -> (r: Vec<Device>)
    ensures
        r@.map_values(|d: Device| d@) == select(views(lines@), path_marks(views(lines@))),
        forall|i: int| 0 <= i < r@.len() ==> #[trigger] r@[i].wf(),
{
    let mut marks: Vec<bool> = Vec::new();
    let mut i: usize = 0;
    while i < lines.len()
        invariant
            i <= lines@.len(),
            marks@.len() == i,
            forall|j: int| 0 <= j < i ==> marks@[j] == #[trigger] path_marks(views(lines@))[j],
        decreases lines@.len() - i,
    {
        let mark = match parse_mount_line(lines[i].as_str()) {
            Some(e) => has_prefix(e.mountpoint.as_str(), "/run/media/"),
            None => false,
        };
        assert(views(lines@)[i as int] == lines@[i as int]@);
        marks.push(mark);
        i = i + 1;
    }
    assert(marks@ =~= path_marks(views(lines@)));
    select_devices(lines, &marks)
}

proof fn lemma_device_wf(d: Device)
    requires
        d@.mountpoint.len() > 0,
        d@.mountpoint[0] == '/',
        d@.label == last_segment(d@.mountpoint),
        d@.mounted,
    ensures
        d.wf(),
{
}

} // verus!
