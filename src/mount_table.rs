//! Reading the fields of one mount-table line.
use vstd::prelude::*;

verus! {

/// Unicode `White_Space`: the separators between the fields of a line.
pub open spec fn is_blank(c: char) -> bool {
    let v = c as u32;
    ||| v == 0x20
    ||| 0x09 <= v <= 0x0d
    ||| v == 0x85
    ||| v == 0xa0
    ||| v == 0x1680
    ||| 0x2000 <= v <= 0x200a
    ||| v == 0x2028
    ||| v == 0x2029
    ||| v == 0x202f
    ||| v == 0x205f
    ||| v == 0x3000
}

/// The first index at or after `i` whose character is not of the given
/// kind (blank when `blank`, non-blank otherwise), or `s.len()`.
pub open spec fn run_end(s: Seq<char>, i: int, blank: bool) -> int
    decreases s.len() - i,
{
    if 0 <= i < s.len() && is_blank(s[i]) == blank {
        run_end(s, i + 1, blank)
    } else {
        i
    }
}

pub open spec fn source_start(s: Seq<char>) -> int {
    run_end(s, 0, true)
}

pub open spec fn source_end(s: Seq<char>) -> int {
    run_end(s, source_start(s), false)
}

pub open spec fn target_start(s: Seq<char>) -> int {
    run_end(s, source_end(s), true)
}

pub open spec fn target_end(s: Seq<char>) -> int {
    run_end(s, target_start(s), false)
}

/// The line has at least two blank-separated fields.
pub open spec fn has_two_fields(s: Seq<char>) -> bool {
    target_start(s) < s.len()
}

/// The first field of a line: the mounted device or source.
pub open spec fn source_field(s: Seq<char>) -> Seq<char> {
    s.subrange(source_start(s), source_end(s))
}

/// The second field of a line: the mountpoint, still escaped.
pub open spec fn target_field(s: Seq<char>) -> Seq<char> {
    s.subrange(target_start(s), target_end(s))
}

pub proof fn lemma_run_end_bounds(s: Seq<char>, i: int, blank: bool)
    requires
        0 <= i <= s.len(),
    ensures
        i <= run_end(s, i, blank) <= s.len(),
        run_end(s, i, blank) < s.len() ==> is_blank(s[run_end(s, i, blank)]) != blank,
    decreases s.len() - i,
{
    if i < s.len() && is_blank(s[i]) == blank {
        lemma_run_end_bounds(s, i + 1, blank);
    }
}

pub proof fn lemma_field_bounds(s: Seq<char>)
    ensures
        0 <= source_start(s) <= source_end(s) <= target_start(s) <= target_end(s) <= s.len(),
        has_two_fields(s) ==> target_start(s) < target_end(s),
{
    lemma_run_end_bounds(s, 0, true);
    lemma_run_end_bounds(s, source_start(s), false);
    lemma_run_end_bounds(s, source_end(s), true);
    lemma_run_end_bounds(s, target_start(s), false);
    if has_two_fields(s) {
        assert(run_end(s, target_start(s), false) == run_end(s, target_start(s) + 1, false));
        lemma_run_end_bounds(s, target_start(s) + 1, false);
    }
}

/// The character that the octal escape `\abc` of a mount table stands for:
/// the kernel escapes space, tab, newline and backslash.
pub open spec fn escaped_char(a: char, b: char, c: char) -> Option<char> {
    if a == '0' && b == '4' && c == '0' {
        Some(' ')
    } else if a == '0' && b == '1' && c == '1' {
        Some('\t')
    } else if a == '0' && b == '1' && c == '2' {
        Some('\n')
    } else if a == '1' && b == '3' && c == '4' {
        Some('\\')
    } else {
        None
    }
}

/// `s` begins with an escape sequence that [`escaped_char`] decodes.
pub open spec fn starts_with_escape(s: Seq<char>) -> bool {
    s.len() >= 4 && s[0] == '\\' && escaped_char(s[1], s[2], s[3]) is Some
}

/// A mount-table field with its escape sequences decoded, left to right.
pub open spec fn unescape(s: Seq<char>) -> Seq<char>
    decreases s.len(),
{
    if s.len() == 0 {
        s
    } else if starts_with_escape(s) {
        seq![escaped_char(s[1], s[2], s[3])->0] + unescape(s.skip(4))
    } else {
        seq![s[0]] + unescape(s.skip(1))
    }
}

fn decode_escape(a: char, b: char, c: char) -> (r: Option<char>)
    ensures
        r == escaped_char(a, b, c),
{
    if a == '0' && b == '4' && c == '0' {
        Some(' ')
    } else if a == '0' && b == '1' && c == '1' {
        Some('\t')
    } else if a == '0' && b == '1' && c == '2' {
        Some('\n')
    } else if a == '1' && b == '3' && c == '4' {
        Some('\\')
    } else {
        None
    }
}

/// Appends a character that an escape sequence decodes to.
fn push_decoded(out: &mut String, c: char)
    requires
        c == ' ' || c == '\t' || c == '\n' || c == '\\',
    ensures
        final(out)@ == old(out)@.push(c),
{
    proof {
        reveal_strlit(" ");
        reveal_strlit("\t");
        reveal_strlit("\n");
        reveal_strlit("\\");
    }
    if c == ' ' {
        out.append(" ");
    } else if c == '\t' {
        out.append("\t");
    } else if c == '\n' {
        out.append("\n");
    } else {
        out.append("\\");
    }
}

/// Decodes the escape sequences of a mount-table field.
pub fn unescape_field(s: &str) -> (r: String)
    ensures
        r@ == unescape(s@),
{
    let n = s.unicode_len();
    let mut out = String::new();
    let mut i: usize = 0;
    assert(s@.skip(0) =~= s@);
    assert(out@ + unescape(s@) =~= unescape(s@));
    while i < n
        invariant
            n == s@.len(),
            i <= n,
            out@ + unescape(s@.skip(i as int)) == unescape(s@),
        decreases n - i,
    {
        let ghost rest = s@.skip(i as int);
        let c = s.get_char(i);
        let mut decoded: Option<char> = None;
        if c == '\\' && n - i > 3 {
            decoded = decode_escape(s.get_char(i + 1), s.get_char(i + 2), s.get_char(i + 3));
        }
        assert(rest[0] == c);
        if let Some(d) = decoded {
            assert(rest[1] == s@[i + 1] && rest[2] == s@[i + 2] && rest[3] == s@[i + 3]);
            assert(starts_with_escape(rest));
            assert(rest.skip(4) =~= s@.skip(i + 4));
            push_decoded(&mut out, d);
            i = i + 4;
        } else {
            proof {
                if rest.len() >= 4 && rest[0] == '\\' {
                    assert(rest[1] == s@[i + 1] && rest[2] == s@[i + 2] && rest[3] == s@[i + 3]);
                }
            }
            assert(!starts_with_escape(rest));
            assert(rest.skip(1) =~= s@.skip(i + 1));
            let one = s.substring_char(i, i + 1);
            assert(one@ =~= seq![c]);
            out.append(one);
            i = i + 1;
        }
        assert(out@ + unescape(s@.skip(i as int)) =~= unescape(s@));
    }
    assert(s@.skip(n as int) =~= Seq::<char>::empty());
    out
}

pub fn is_blank_char(c: char) -> (r: bool)
    ensures
        r == is_blank(c),
{
    let v = c as u32;
    v == 0x20 || (0x09 <= v && v <= 0x0d) || v == 0x85 || v == 0xa0 || v == 0x1680 || (0x2000
        <= v && v <= 0x200a) || v == 0x2028 || v == 0x2029 || v == 0x202f || v == 0x205f || v
        == 0x3000
}

fn find_run_end(s: &str, n: usize, i: usize, blank: bool) -> (r: usize)
    requires
        n == s@.len(),
        i <= n,
    ensures
        r == run_end(s@, i as int, blank),
        i <= r <= n,
{
    let mut j: usize = i;
    loop
        invariant
            i <= j <= n,
            n == s@.len(),
            run_end(s@, i as int, blank) == run_end(s@, j as int, blank),
        decreases n - j,
    {
        if j >= n || is_blank_char(s.get_char(j)) != blank {
            return j;
        }
        j = j + 1;
    }
}

/// Splits off the first two fields of a line, or `None` when it has fewer.
pub fn two_fields(line: &str) -> (r: Option<(&str, &str)>)
    ensures
        r is Some <==> has_two_fields(line@),
        r matches Some((src, tgt)) ==> src@ == source_field(line@) && tgt@ == target_field(line@),
{
    proof {
        lemma_field_bounds(line@);
    }
    let n = line.unicode_len();
    let a0 = find_run_end(line, n, 0, true);
    let b0 = find_run_end(line, n, a0, false);
    let a1 = find_run_end(line, n, b0, true);
    if a1 >= n {
        return None;
    }
    let b1 = find_run_end(line, n, a1, false);
    Some((line.substring_char(a0, b0), line.substring_char(a1, b1)))
}

} // verus!
