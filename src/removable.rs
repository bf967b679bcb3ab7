//! The kernel-attribute strategy: a device is removable when the kernel's
//! `removable` attribute of its whole disk reads `1`.
use vstd::prelude::*;
use crate::device::Device;
use crate::enumerate::{entry_of_line, parse_mount_line, select, select_devices, views};
use crate::path::{final_segment, last_segment, strip_end, strip_trailing};

verus! {

/// The whole-disk name of a block device: the final segment of its path
/// without the trailing partition number.
pub open spec fn block_base(block: Seq<char>) -> Seq<char> {
    strip_end(last_segment(block), true)
}

/// The path of the kernel's `removable` attribute for a block device.
pub open spec fn attr_path(block: Seq<char>) -> Seq<char> {
    "/sys/block/"@ + block_base(block) + "/removable"@
}

/// The attribute's contents mark the device removable: they read `1`,
/// trailing blanks aside. A missing or unreadable file marks nothing.
pub open spec fn attr_says_removable(contents: Option<Seq<char>>) -> bool {
    match contents {
        Some(t) => strip_end(t, false) == seq!['1'],
        None => false,
    }
}

pub open spec fn opt_view(c: Option<String>) -> Option<Seq<char>> {
    match c {
        Some(s) => Some(s@),
        None => None,
    }
}

/// The marks that the attribute contents read for each line give.
pub open spec fn attr_marks(contents: Seq<Option<String>>) -> Seq<bool> {
    Seq::new(contents.len(), |i: int| attr_says_removable(opt_view(contents[i])))
}

/// The whole-disk name of a block device (`sda` for `sda1` or `/dev/sda1`).
pub fn block_base_name(block: &str) -> (r: String)
    ensures
        r@ == block_base(block@),
{
    String::from_str(strip_trailing(final_segment(block), true))
}

/// Where the kernel exposes whether the disk of `block` is removable.
pub fn removable_attr_path(block: &str) -> (r: String)
    ensures
        r@ == attr_path(block@),
{
    let mut p = String::from_str("/sys/block/");
    let base = block_base_name(block);
    p.append(base.as_str());
    p.append("/removable");
    p
}

/// Reads the contents of a `removable` attribute; `None` stands for a file
/// that is absent or could not be read.
pub fn attr_marks_removable(contents: Option<&str>) -> (r: bool)
    ensures
        r == attr_says_removable(
            match contents {
                Some(t) => Some(t@),
                None => None,
            },
        ),
{
    proof {
        reveal_strlit("1");
    }
    match contents {
        None => false,
        Some(t) => {
            let s = strip_trailing(t, false);
            let n = s.unicode_len();
            if n != 1 {
                assert(s@.len() != seq!['1'].len());
                false
            } else {
                let c = s.get_char(0);
                assert(c == '1' ==> s@ =~= seq!['1']);
                c == '1'
            }
        },
    }
}

/// For each line, the attribute file to read: `Some` exactly for the lines
/// that name a device, and then the attribute path of its source.
pub fn attribute_paths(lines: &Vec<String>) -> (r: Vec<Option<String>>)
    ensures
        r@.len() == lines@.len(),
        forall|i: int|
            0 <= i < r@.len() ==> #[trigger] opt_view(r@[i]) == match entry_of_line(lines@[i]@) {
                Some((source, _mp)) => Some(attr_path(source)),
                None => None,
            },
{
    let mut out: Vec<Option<String>> = Vec::new();
    let mut i: usize = 0;
    while i < lines.len()
        invariant
            i <= lines@.len(),
            out@.len() == i,
            forall|j: int|
                0 <= j < i ==> #[trigger] opt_view(out@[j]) == match entry_of_line(lines@[j]@) {
                    Some((source, _mp)) => Some(attr_path(source)),
                    None => None,
                },
        decreases lines@.len() - i,
    {
        let p = match parse_mount_line(lines[i].as_str()) {
            Some(e) => Some(removable_attr_path(e.source.as_str())),
            None => None,
        };
        out.push(p);
        i = i + 1;
    }
    out
}

/// Enumerates the removable devices of a mount table, given as its lines,
/// by the kernel-attribute strategy: `contents[i]` holds what the file that
/// [`attribute_paths`] names for line `i` reads, or `None`.
pub fn get_devices_by_attribute(lines: &Vec<String>, contents: &Vec<Option<String>>) -> (r: Vec<
    Device,
>)
    requires
        lines@.len() == contents@.len(),
    ensures
        r@.map_values(|d: Device| d@) == select(views(lines@), attr_marks(contents@)),
        forall|i: int| 0 <= i < r@.len() ==> #[trigger] r@[i].wf(),
{
    let mut marks: Vec<bool> = Vec::new();
    let mut i: usize = 0;
    while i < contents.len()
        invariant
            i <= contents@.len(),
            marks@.len() == i,
            forall|j: int| 0 <= j < i ==> marks@[j] == #[trigger] attr_marks(contents@)[j],
        decreases contents@.len() - i,
    {
        let mark = match &contents[i] {
            Some(t) => attr_marks_removable(Some(t.as_str())),
            None => attr_marks_removable(None),
        };
        marks.push(mark);
        i = i + 1;
    }
    assert(marks@ =~= attr_marks(contents@));
    select_devices(lines, &marks)
}

} // verus!
