//! What holds of every mount table that enumeration reads.
use vstd::prelude::*;
use crate::enumerate::{container_prefix, device_at, entry_mountpoint, entry_of_line, media_root, path_marks, select};
use crate::mount_table::{has_two_fields, source_field, starts_with_escape, target_field, unescape};
use crate::path::{last_segment, last_slash};

verus! {

/// Decoding splits before a backslash: no escape sequence can run across
/// one, since escape codes hold digits only.
pub proof fn lemma_unescape_split(p: Seq<char>, r: Seq<char>)
    requires
        r.len() > 0,
        r[0] == '\\',
    ensures
        unescape(p + r) == unescape(p) + unescape(r),
    decreases p.len(),
{
    let s = p + r;
    if p.len() == 0 {
        assert(s =~= r);
        assert(unescape(p) =~= Seq::<char>::empty());
        assert(unescape(p) + unescape(r) =~= unescape(r));
    } else if starts_with_escape(p) {
        assert(s[1] == p[1] && s[2] == p[2] && s[3] == p[3]);
        assert(starts_with_escape(s));
        assert(s.skip(4) =~= p.skip(4) + r);
        lemma_unescape_split(p.skip(4), r);
        assert(unescape(s) =~= unescape(p) + unescape(r));
    } else {
        if s.len() >= 4 && s[0] == '\\' && p.len() < 4 {
            assert(s[p.len() as int] == '\\');
        }
        assert(!starts_with_escape(s));
        assert(s.skip(1) =~= p.skip(1) + r);
        lemma_unescape_split(p.skip(1), r);
        assert(unescape(s) =~= unescape(p) + unescape(r));
    }
}

/// Text without a `/` that ends a path joins its final segment.
pub proof fn lemma_last_segment_extend(a: Seq<char>, b: Seq<char>)
    requires
        forall|k: int| 0 <= k < b.len() ==> b[k] != '/',
    ensures
        last_slash(a + b) == last_slash(a),
        last_segment(a + b) == last_segment(a) + b,
    decreases b.len(),
{
    if b.len() == 0 {
        assert(a + b =~= a);
    } else {
        assert((a + b).drop_last() =~= a + b.drop_last());
        assert((a + b).last() == b.last());
        lemma_last_segment_extend(a, b.drop_last());
    }
    lemma_last_slash_bounds(a);
    assert(last_segment(a + b) =~= last_segment(a) + b);
}

pub proof fn lemma_last_slash_bounds(a: Seq<char>)
    ensures
        -1 <= last_slash(a) < a.len(),
    decreases a.len(),
{
    if a.len() > 0 && a.last() != '/' {
        lemma_last_slash_bounds(a.drop_last());
    }
}

/// Decoding never makes a `/`: escapes stand for blanks and backslashes.
pub proof fn lemma_unescape_no_slash(q: Seq<char>)
    requires
        forall|k: int| 0 <= k < q.len() ==> q[k] != '/',
    ensures
        forall|k: int| 0 <= k < unescape(q).len() ==> unescape(q)[k] != '/',
    decreases q.len(),
{
    if q.len() > 0 {
        if starts_with_escape(q) {
            lemma_unescape_no_slash(q.skip(4));
        } else {
            lemma_unescape_no_slash(q.skip(1));
        }
        let r = unescape(q);
        assert forall|k: int| 0 <= k < r.len() implies r[k] != '/' by {
            if k > 0 {
                if starts_with_escape(q) {
                    assert(r[k] == unescape(q.skip(4))[k - 1]);
                } else {
                    assert(r[k] == unescape(q.skip(1))[k - 1]);
                }
            }
        }
    }
}

/// A `\040` in a line's mountpoint field becomes a space in the decoded
/// mountpoint, at the place where the decoded text before it ends, and so in
/// the mountpoint of the device the line gives; when no `/` follows it, the
/// space is in the device's label as well.
pub proof fn law_escaped_space(line: Seq<char>, p: Seq<char>, q: Seq<char>)
    requires
        has_two_fields(line),
        target_field(line) == p + seq!['\\', '0', '4', '0'] + q,
    ensures
        unescape(target_field(line)) == unescape(p) + seq![' '] + unescape(q),
        unescape(target_field(line))[unescape(p).len() as int] == ' ',
        entry_of_line(line) matches Some((_source, mp)) ==> device_at(mp).mountpoint[unescape(
            p,
        ).len() as int] == ' ',
        (forall|k: int| 0 <= k < q.len() ==> q[k] != '/') ==> device_at(
            unescape(target_field(line)),
        ).label == last_segment(unescape(p)) + seq![' '] + unescape(q),
{
    let e = seq!['\\', '0', '4', '0'] + q;
    assert(p + seq!['\\', '0', '4', '0'] + q =~= p + e);
    lemma_unescape_split(p, e);
    assert(starts_with_escape(e));
    assert(e.skip(4) =~= q);
    assert(unescape(e) =~= seq![' '] + unescape(q));
    assert(unescape(p) + unescape(e) =~= unescape(p) + seq![' '] + unescape(q));
    if forall|k: int| 0 <= k < q.len() ==> q[k] != '/' {
        lemma_unescape_no_slash(q);
        let tail = seq![' '] + unescape(q);
        assert forall|k: int| 0 <= k < tail.len() implies tail[k] != '/' by {
            if k > 0 {
                assert(tail[k] == unescape(q)[k - 1]);
            }
        }
        lemma_last_segment_extend(unescape(p), tail);
        assert(unescape(p) + seq![' '] + unescape(q) =~= unescape(p) + tail);
        assert(last_segment(unescape(p)) + tail =~= last_segment(unescape(p)) + seq![' '] + unescape(
            q,
        ));
    }
}

/// Enumeration handles the lines of a table one by one: the devices of two
/// tables laid end to end are those of the first, then those of the second.
pub proof fn lemma_select_append(a: Seq<Seq<char>>, ma: Seq<bool>, b: Seq<Seq<char>>, mb: Seq<bool>)
    requires
        a.len() == ma.len(),
        b.len() == mb.len(),
    ensures
        select(a + b, ma + mb) == select(a, ma) + select(b, mb),
    decreases b.len(),
{
    if b.len() == 0 {
        assert(a + b =~= a);
        assert(ma + mb =~= ma);
        assert(select(b, mb) =~= Seq::empty());
        assert(select(a, ma) + select(b, mb) =~= select(a, ma));
    } else {
        assert((a + b).drop_last() =~= a + b.drop_last());
        assert((ma + mb).drop_last() =~= ma + mb.drop_last());
        lemma_select_append(a, ma, b.drop_last(), mb.drop_last());
        assert((a + b).last() == b.last());
        assert((ma + mb)[(a + b).len() - 1] == mb[b.len() - 1]);
        let rest = select(b.drop_last(), mb.drop_last());
        assert(select(a, ma) + rest.push(device_at(entry_mountpoint(b.last()))) =~= (select(a, ma) + rest).push(
            device_at(entry_mountpoint(b.last())),
        ));
    }
}

/// The devices of a table of one line.
pub proof fn lemma_select_single(line: Seq<char>, m: bool)
    ensures
        select(seq![line], seq![m]) == (if entry_of_line(line) is Some && m {
            seq![device_at(entry_mountpoint(line))]
        } else {
            Seq::empty()
        }),
{
    let e = Seq::<Seq<char>>::empty();
    let em = Seq::<bool>::empty();
    assert(seq![line].drop_last() =~= e);
    assert(seq![m].drop_last() =~= em);
    assert(select(e, em) =~= Seq::empty());
    assert(Seq::<crate::device::DeviceView>::empty().push(device_at(entry_mountpoint(line)))
        =~= seq![device_at(entry_mountpoint(line))]);
}

/// A line that names no device adds nothing, wherever it stands.
pub proof fn lemma_line_skipped(
    before: Seq<Seq<char>>,
    mb: Seq<bool>,
    line: Seq<char>,
    m: bool,
    after: Seq<Seq<char>>,
    ma: Seq<bool>,
)
    requires
        before.len() == mb.len(),
        after.len() == ma.len(),
        entry_of_line(line) is None,
    ensures
        select(before + seq![line] + after, mb + seq![m] + ma) == select(before + after, mb + ma),
{
    lemma_select_append(before + seq![line], mb + seq![m], after, ma);
    lemma_select_append(before, mb, seq![line], seq![m]);
    lemma_select_append(before, mb, after, ma);
    lemma_select_single(line, m);
    assert(select(before, mb) + select(seq![line], seq![m]) =~= select(before, mb));
}

/// A line whose mountpoint lies under the sandbox's bind-mount prefix gives
/// no device, wherever it stands in the table.
pub proof fn law_container_mount_skipped(
    before: Seq<Seq<char>>,
    mb: Seq<bool>,
    line: Seq<char>,
    m: bool,
    after: Seq<Seq<char>>,
    ma: Seq<bool>,
)
    requires
        before.len() == mb.len(),
        after.len() == ma.len(),
        container_prefix().is_prefix_of(unescape(target_field(line))),
    ensures
        entry_of_line(line) is None,
        select(before + seq![line] + after, mb + seq![m] + ma) == select(before + after, mb + ma),
{
    lemma_line_skipped(before, mb, line, m, after, ma);
}

/// A line with fewer than two fields is skipped, and the lines around it are
/// read as if it were not there.
pub proof fn law_short_line_skipped(
    before: Seq<Seq<char>>,
    mb: Seq<bool>,
    line: Seq<char>,
    m: bool,
    after: Seq<Seq<char>>,
    ma: Seq<bool>,
)
    requires
        before.len() == mb.len(),
        after.len() == ma.len(),
        !has_two_fields(line),
    ensures
        entry_of_line(line) is None,
        select(before + seq![line] + after, mb + seq![m] + ma) == select(before + after, mb + ma),
{
    lemma_line_skipped(before, mb, line, m, after, ma);
}

/// A device mounted under the media root and bind-mounted again under the
/// sandbox's prefix is reported once by the path heuristic, in either order.
pub proof fn law_bind_copy_reported_once(native: Seq<char>, copy: Seq<char>)
    requires
        entry_of_line(native) is Some,
        media_root().is_prefix_of(entry_mountpoint(native)),
        source_field(native) == source_field(copy),
        container_prefix().is_prefix_of(unescape(target_field(copy))),
    ensures
        select(seq![native, copy], path_marks(seq![native, copy])).len() == 1,
        select(seq![copy, native], path_marks(seq![copy, native])).len() == 1,
{
    let a = seq![native, copy];
    let b = seq![copy, native];
    assert(a =~= seq![native] + seq![copy]);
    assert(b =~= seq![copy] + seq![native]);
    assert(path_marks(a) =~= seq![true] + seq![false]);
    assert(path_marks(b) =~= seq![false] + seq![true]);
    lemma_select_append(seq![native], seq![true], seq![copy], seq![false]);
    lemma_select_append(seq![copy], seq![false], seq![native], seq![true]);
    lemma_select_single(native, true);
    lemma_select_single(copy, false);
}

/// Every device that enumeration reports is labelled by the final segment
/// of its mountpoint, which is absolute, and is mounted.
pub proof fn law_label_is_final_segment(lines: Seq<Seq<char>>, marks: Seq<bool>, i: int)
    requires
        lines.len() == marks.len(),
        0 <= i < select(lines, marks).len(),
    ensures
        select(lines, marks)[i].label == last_segment(select(lines, marks)[i].mountpoint),
        select(lines, marks)[i].mountpoint.len() > 0,
        select(lines, marks)[i].mountpoint[0] == '/',
        select(lines, marks)[i].mounted,
    decreases lines.len(),
{
    let rest = select(lines.drop_last(), marks.drop_last());
    if i < rest.len() {
        law_label_is_final_segment(lines.drop_last(), marks.drop_last(), i);
    }
}

} // verus!
