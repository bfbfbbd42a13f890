//! Windows paths: the prefix that names a volume, the root, and the segments below it; and how they
//! are joined.

use crate::text;
use crate::uri;
use vstd::prelude::*;
use vstd::slice::*;
use vstd::string::*;

verus! {

/// `c` separates the segments of a path.
pub open spec fn is_separator(c: char) -> bool {
    c == '\\' || c == '/'
}

/// Where the part of `path` that begins at `from` ends: at a separator, which in a verbatim path is
/// a backslash alone, or at the end.
pub open spec fn part_end(path: Seq<char>, from: int, verbatim: bool) -> int
    decreases path.len() - from,
{
    if from < 0 || from >= path.len() || path[from] == '\\' || (!verbatim && path[from] == '/') {
        from
    } else {
        part_end(path, from + 1, verbatim)
    }
}

/// A drive, such as `C:`, stands in `path` at `i`.
pub open spec fn drive_at(path: Seq<char>, i: int) -> bool {
    0 <= i && i + 1 < path.len() && ('a' <= path[i] <= 'z' || 'A' <= path[i] <= 'Z') && path[i + 1]
        == ':'
}

/// `path` is verbatim: it begins with `\\?\`.
pub open spec fn is_verbatim(path: Seq<char>) -> bool {
    text::starts_with(path, "\\\\?\\"@)
}

/// The end of a server and its share, of which the server begins at `from`.
pub open spec fn share_end(path: Seq<char>, from: int, verbatim: bool) -> int {
    part_end(path, part_end(path, from, verbatim) + 1, verbatim)
}

/// How long the prefix of `path` is that names a volume: a drive (`C:`), a server and its share
/// (`\\server\share`), a device (`\\.\COM1`), or one of these in a verbatim form (`\\?\C:`,
/// `\\?\UNC\server\share`, `\\?\name`).
pub open spec fn prefix_length(path: Seq<char>) -> int {
    if is_verbatim(path) {
        if text::starts_with(path, "\\\\?\\UNC\\"@) {
            let server = part_end(path, 8, true);
            if share_end(path, 8, true) > server + 1 {
                share_end(path, 8, true)
            } else {
                server
            }
        } else if drive_at(path, 4) && (path.len() == 6 || is_separator(path[6])) {
            6
        } else {
            part_end(path, 4, true)
        }
    } else if path.len() >= 2 && is_separator(path[0]) && is_separator(path[1]) {
        let server = part_end(path, 2, false);
        if path.len() >= 4 && path[2] == '.' && is_separator(path[3]) {
            part_end(path, 4, false)
        } else if server > 2 && share_end(path, 2, false) > server + 1 {
            share_end(path, 2, false)
        } else {
            0
        }
    } else if drive_at(path, 0) {
        2
    } else {
        0
    }
}

/// `path` begins at the root of its volume. Below a server's share or a device nothing else is
/// possible; below a drive it does where a separator follows.
pub open spec fn is_rooted(path: Seq<char>) -> bool {
    let n = prefix_length(path);
    (n < path.len() && is_separator(path[n])) || (n > 2 && !is_verbatim(path))
}

/// What stands before the segments of `path`: its prefix, as it is, and its root.
pub open spec fn path_base(path: Seq<char>) -> Seq<char> {
    if is_rooted(path) {
        path.take(prefix_length(path)).push('\\')
    } else {
        path.take(prefix_length(path))
    }
}

/// The segments of `path`, those that stand for the same or the parent directory and empty ones
/// among them.
pub open spec fn path_segments(path: Seq<char>) -> Seq<Seq<char>> {
    text::split(uri::swapped(path.skip(prefix_length(path)), '/', '\\'), '\\')
}

/// Where one is after the first `n` of `segments`, beginning at `base`: what stands before the
/// segments that are left, and those. One that stands for the same directory is dropped, and one
/// that stands for the parent directory is dropped with the one before. One that begins with a drive
/// leads there from anywhere.
pub open spec fn walked(base: Seq<char>, segments: Seq<Seq<char>>, n: int) -> (
    Seq<char>,
    Seq<Seq<char>>,
)
    decreases n,
{
    if n <= 0 || n > segments.len() {
        (base, Seq::empty())
    } else {
        let (start, kept) = walked(base, segments, n - 1);
        let segment = segments[n - 1];
        if segment.len() == 0 || segment == "."@ {
            (start, kept)
        } else if segment == ".."@ {
            (
                start,
                if kept.len() > 0 {
                    kept.drop_last()
                } else {
                    kept
                },
            )
        } else if drive_at(segment, 0) {
            (
                segment.take(2),
                if segment.len() > 2 {
                    seq![segment.skip(2)]
                } else {
                    Seq::empty()
                },
            )
        } else {
            (start, kept.push(segment))
        }
    }
}

/// `path` without the segments that stand for the same or the parent directory, with backslashes
/// between those that are left.
pub open spec fn normalized(path: Seq<char>) -> Seq<char> {
    let segments = path_segments(path);
    let (start, kept) = walked(path_base(path), segments, segments.len() as int);
    start + text::join(kept, '\\')
}

/// `directory` with what stands between it and the name of a file in it: a backslash, where it does
/// not end in a separator, is not empty, and is not a drive alone.
pub open spec fn opened(directory: Seq<char>) -> Seq<char> {
    if directory.len() == 0 || is_separator(directory.last()) || (directory.len() == 2 && drive_at(
        directory,
        0,
    )) {
        directory
    } else {
        directory.push('\\')
    }
}

proof fn lemma_part_end(path: Seq<char>, from: int, verbatim: bool)
    requires
        0 <= from,
    ensures
        from <= part_end(path, from, verbatim),
        from <= path.len() ==> part_end(path, from, verbatim) <= path.len(),
        from > path.len() ==> part_end(path, from, verbatim) == from,
    decreases path.len() - from,
{
    if from < path.len() && path[from] != '\\' && (verbatim || path[from] != '/') {
        lemma_part_end(path, from + 1, verbatim);
    }
}

fn separates(c: char) -> (r: bool)
    ensures
        r == is_separator(c),
{
    c == '\\' || c == '/'
}

fn has_drive(path: &[char], i: usize) -> (r: bool)
    requires
        i < usize::MAX,
    ensures
        r == drive_at(path@, i as int),
{
    path.len() > i && path.len() - i > 1 && (('a' <= path[i] && path[i] <= 'z') || ('A' <= path[i]
        && path[i] <= 'Z')) && path[i + 1] == ':'
}

fn end_of_part(path: &[char], from: usize, verbatim: bool) -> (r: usize)
    requires
        from <= path@.len(),
    ensures
        r == part_end(path@, from as int, verbatim),
        from <= r <= path@.len(),
{
    let mut i: usize = from;
    while i < path.len() && path[i] != '\\' && (verbatim || path[i] != '/')
        invariant
            from <= i <= path@.len(),
            part_end(path@, from as int, verbatim) == part_end(path@, i as int, verbatim),
        decreases path@.len() - i,
    {
        i += 1;
    }
    i
}

/// Where the prefix with a server that begins at `from` ends: after the share, or after the server
/// where there is no share.
fn end_of_share(path: &[char], from: usize, verbatim: bool) -> (r: (usize, bool))
    requires
        from <= path@.len(),
    ensures
        ({
            let server = part_end(path@, from as int, verbatim);
            let shared = share_end(path@, from as int, verbatim) > server + 1;
            &&& r.1 == shared
            &&& r.0 == if shared {
                share_end(path@, from as int, verbatim)
            } else {
                server
            }
            &&& from <= r.0 <= path@.len()
            &&& shared ==> r.0 > server + 1
        }),
{
    let server = end_of_part(path, from, verbatim);
    proof {
        lemma_part_end(path@, server + 1, verbatim);
    }
    if server == path.len() {
        return (server, false);
    }
    let share = end_of_part(path, server + 1, verbatim);
    if share > server + 1 {
        (share, true)
    } else {
        (server, false)
    }
}

fn length_of_prefix(path: &[char]) -> (r: usize)
    ensures
        r == prefix_length(path@),
        r <= path@.len(),
{
    proof {
        reveal_strlit("\\\\?\\");
        reveal_strlit("\\\\?\\UNC\\");
    }
    let verbatim = text::chars_of("\\\\?\\");
    let verbatim_server = text::chars_of("\\\\?\\UNC\\");
    if text::has_prefix(path, &verbatim) {
        if text::has_prefix(path, &verbatim_server) {
            end_of_share(path, 8, true).0
        } else if has_drive(path, 4) && (path.len() == 6 || separates(path[6])) {
            6
        } else {
            end_of_part(path, 4, true)
        }
    } else if path.len() >= 2 && separates(path[0]) && separates(path[1]) {
        if path.len() >= 4 && path[2] == '.' && separates(path[3]) {
            return end_of_part(path, 4, false);
        }
        let server = end_of_part(path, 2, false);
        let (end, shared) = end_of_share(path, 2, false);
        if server > 2 && shared {
            end
        } else {
            0
        }
    } else if has_drive(path, 0) {
        2
    } else {
        0
    }
}

fn copied(s: &[char]) -> (r: Vec<char>)
    ensures
        r@ == s@,
{
    let mut r: Vec<char> = Vec::new();
    text::push_all(&mut r, s);
    assert(r@ =~= s@);
    r
}

fn walk(base: Vec<char>, segments: &Vec<Vec<char>>) -> (r: (Vec<char>, Vec<Vec<char>>))
    ensures
        (r.0@, text::char_texts(r.1@)) == walked(
            base@,
            text::char_texts(segments@),
            segments@.len() as int,
        ),
{
    let same = text::chars_of(".");
    let parent = text::chars_of("..");
    let ghost all = text::char_texts(segments@);
    let ghost from = base@;
    let mut start = base;
    let mut kept: Vec<Vec<char>> = Vec::new();
    let mut i: usize = 0;
    assert(text::char_texts(kept@) =~= Seq::empty());
    while i < segments.len()
        invariant
            i <= segments@.len(),
            all == text::char_texts(segments@),
            same@ == "."@,
            parent@ == ".."@,
            (start@, text::char_texts(kept@)) == walked(from, all, i as int),
        decreases segments@.len() - i,
    {
        let ghost before = text::char_texts(kept@);
        let segment: &[char] = &segments[i];
        assert(segment@ == all[i as int]);
        if segment.len() == 0 || text::same_chars(segment, &same) {
        } else if text::same_chars(segment, &parent) {
            if kept.len() > 0 {
                kept.pop();
                assert(text::char_texts(kept@) =~= before.drop_last());
            }
        } else if has_drive(segment, 0) {
            start = copied(slice_subrange(segment, 0, 2));
            assert(start@ =~= all[i as int].take(2));
            kept = Vec::new();
            if segment.len() > 2 {
                kept.push(copied(slice_subrange(segment, 2, segment.len())));
                assert(kept@[0]@ =~= all[i as int].skip(2));
                assert(text::char_texts(kept@) =~= seq![all[i as int].skip(2)]);
            } else {
                assert(text::char_texts(kept@) =~= Seq::empty());
            }
        } else {
            kept.push(copied(segment));
            assert(text::char_texts(kept@) =~= before.push(all[i as int]));
        }
        i += 1;
    }
    (start, kept)
}

/// `path` without the segments that stand for the same or the parent directory, with backslashes
/// between those that are left.
pub fn normalize(path: &str) -> (r: String)
    ensures
        r@ == normalized(path@),
{
    let chars = text::chars_of(path);
    let end = length_of_prefix(&chars);
    proof {
        reveal_strlit("\\\\?\\");
    }
    let mut base = copied(slice_subrange(&chars, 0, end));
    assert(base@ =~= path@.take(end as int));
    let verbatim = text::chars_of("\\\\?\\");
    if (end < chars.len() && separates(chars[end])) || (end > 2 && !text::has_prefix(
        &chars,
        &verbatim,
    )) {
        base.push('\\');
    }
    let rest = slice_subrange(&chars, end, chars.len());
    assert(rest@ =~= path@.skip(end as int));
    let segments = text::split_text(&uri::swap_chars(rest, '/', '\\'), '\\');
    let (start, kept) = walk(base, &segments);
    let mut r = start;
    text::push_all(&mut r, &text::join_text(&kept, '\\'));
    text::string_of(&r)
}

/// The path of the file `name` in `directory`.
pub fn join_name(directory: &str, name: &str) -> (r: String)
    ensures
        r@ == opened(directory@) + name@,
{
    let chars = text::chars_of(directory);
    let mut r = String::new();
    r.append(directory);
    if chars.len() > 0 && !separates(chars[chars.len() - 1]) && !(chars.len() == 2 && has_drive(
        &chars,
        0,
    )) {
        r.push('\\');
    }
    r.append(name);
    r
}

/// `path` begins with a drive and a separator.
pub open spec fn on_drive(path: Seq<char>) -> bool {
    &&& path.len() >= 3
    &&& 'a' <= path[0] <= 'z' || 'A' <= path[0] <= 'Z'
    &&& path[1] == ':'
    &&& path[2] == '\\' || path[2] == '/'
}

/// `segment` names something below where a path has come to: it holds no separator, stands neither for
/// the same nor for the parent directory, and does not begin with a drive.
pub open spec fn names_entry(segment: Seq<char>) -> bool {
    &&& segment.len() > 0
    &&& segment != seq!['.']
    &&& segment != seq!['.', '.']
    &&& !segment.contains('\\')
    &&& !segment.contains('/')
    &&& !(segment.len() >= 2 && ('a' <= segment[0] <= 'z' || 'A' <= segment[0] <= 'Z') && segment[1]
        == ':')
}

proof fn lemma_drive_prefix(path: Seq<char>)
    requires
        on_drive(path),
    ensures
        prefix_length(path) == 2,
        path_base(path) == seq![path[0], ':', '\\'],
{
    reveal_strlit("\\\\?\\");
    assert(!is_verbatim(path)) by {
        if is_verbatim(path) {
            assert(path.subrange(0, 4)[0] == '\\');
        }
    }
    assert(path_base(path) =~= seq![path[0], ':', '\\']);
}

proof fn lemma_walked_prefix(base: Seq<char>, segments: Seq<Seq<char>>, segment: Seq<char>, n: int)
    requires
        0 <= n <= segments.len(),
    ensures
        walked(base, segments.push(segment), n) == walked(base, segments, n),
    decreases n,
{
    if n > 0 {
        lemma_walked_prefix(base, segments, segment, n - 1);
        assert(segments.push(segment)[n - 1] == segments[n - 1]);
    }
}

proof fn lemma_one_step(path: Seq<char>, segment: Seq<char>)
    requires
        on_drive(path),
        !segment.contains('\\'),
        !segment.contains('/'),
    ensures
        on_drive(path + seq!['\\'] + segment),
        path_base(path + seq!['\\'] + segment) == path_base(path),
        path_segments(path + seq!['\\'] + segment) == path_segments(path).push(segment),
{
    let longer = path + seq!['\\'] + segment;
    lemma_drive_prefix(path);
    lemma_drive_prefix(longer);
    let rest = uri::swapped(path.skip(2), '/', '\\');
    assert(uri::swapped(segment, '/', '\\') =~= segment) by {
        assert forall|i: int| 0 <= i < segment.len() implies uri::swapped(segment, '/', '\\')[i]
            == segment[i] by {
            if segment[i] == '/' {
                assert(segment.contains('/'));
            }
        }
    }
    assert(uri::swapped(longer.skip(2), '/', '\\') =~= rest.push('\\') + segment) by {
        let all = uri::swapped(longer.skip(2), '/', '\\');
        let other = rest.push('\\') + segment;
        assert(all.len() == other.len());
        assert forall|i: int| 0 <= i < all.len() implies all[i] == other[i] by {
            if i > rest.len() {
                assert(longer.skip(2)[i] == segment[i - rest.len() - 1]);
                assert(segment[i - rest.len() - 1] != '/') by {
                    if segment[i - rest.len() - 1] == '/' {
                        assert(segment.contains('/'));
                    }
                }
            }
        }
    }
    text::lemma_split_last(rest, '\\', segment);
}

/// No segment of `path` begins with a drive, which would lead away.
pub open spec fn stays_on_drive(path: Seq<char>) -> bool {
    forall|i: int|
        0 <= i < path_segments(path).len() ==> !drive_at(#[trigger] path_segments(path)[i], 0)
}

proof fn lemma_walked_on_drive(base: Seq<char>, segments: Seq<Seq<char>>, n: int)
    requires
        forall|i: int| 0 <= i < segments.len() ==> !drive_at(#[trigger] segments[i], 0),
    ensures
        walked(base, segments, n).0 == base,
        forall|i: int|
            0 <= i < walked(base, segments, n).1.len() ==> (#[trigger] walked(
                base,
                segments,
                n,
            ).1[i]).len() > 0,
    decreases n,
{
    if 0 < n <= segments.len() {
        lemma_walked_on_drive(base, segments, n - 1);
        assert(!drive_at(segments[n - 1], 0));
        let earlier = walked(base, segments, n - 1).1;
        let kept = walked(base, segments, n).1;
        assert forall|i: int| 0 <= i < kept.len() implies (#[trigger] kept[i]).len() > 0 by {
            if i < earlier.len() {
                assert(earlier[i].len() > 0);
            }
        }
    }
}

proof fn lemma_join_not_empty(parts: Seq<Seq<char>>)
    requires
        parts.len() > 0,
        parts[0].len() > 0,
    ensures
        text::join(parts, '\\').len() > 0,
    decreases parts.len(),
{
    if parts.len() > 1 {
        lemma_join_not_empty(parts.drop_last());
    }
}

/// How the segments at the end of a path on a drive are taken: `.` and an empty one stand for where it
/// has come to, `..` undoes the segment before it, and any other is added behind a backslash. The drive
/// stays.
pub proof fn lemma_last_segments(path: Seq<char>, segment: Seq<char>)
    requires
        on_drive(path),
        stays_on_drive(path),
        names_entry(segment),
    ensures
        ({
            let once = normalized(path);
            &&& once.len() >= 3 && once[0] == path[0] && once[1] == ':' && once[2] == '\\'
            &&& normalized(path + seq!['\\']) == once
            &&& normalized(path + seq!['\\', '.']) == once
            &&& normalized(path + seq!['\\'] + segment + seq!['\\', '.', '.']) == once
            &&& normalized(path + seq!['\\'] + segment) == if once.len() == 3 {
                once + segment
            } else {
                once + seq!['\\'] + segment
            }
        }),
{
    reveal_strlit(".");
    reveal_strlit("..");
    let none = Seq::<char>::empty();
    let dot = seq!['.'];
    let dots = seq!['.', '.'];
    assert(dot =~= "."@ && dots =~= ".."@);
    let base = path_base(path);
    let segments = path_segments(path);
    let n = segments.len() as int;
    let longer = path + seq!['\\'] + segment;
    lemma_drive_prefix(path);
    lemma_one_step(path, none);
    lemma_one_step(path, dot);
    lemma_one_step(path, segment);
    lemma_one_step(longer, dots);
    assert(path + seq!['\\'] + none =~= path + seq!['\\']);
    assert(path + seq!['\\'] + dot =~= path + seq!['\\', '.']);
    assert(longer + seq!['\\'] + dots =~= longer + seq!['\\', '.', '.']);
    lemma_walked_prefix(base, segments, none, n);
    lemma_walked_prefix(base, segments, dot, n);
    lemma_walked_prefix(base, segments, segment, n);
    lemma_walked_prefix(base, segments.push(segment), dots, n + 1);
    let (start, kept) = walked(base, segments, n);
    assert(kept.push(segment).drop_last() =~= kept);
    lemma_walked_on_drive(base, segments, n);
    let once = normalized(path);
    assert(segments.push(segment)[n] == segment);
    if kept.len() == 0 {
        assert(text::join(kept, '\\') =~= none);
        assert(text::join(kept.push(segment), '\\') =~= segment);
        assert(once =~= start);
        assert(normalized(longer) =~= once + segment);
    } else {
        assert(text::join(kept.push(segment), '\\') =~= text::join(kept, '\\') + seq!['\\']
            + segment);
        assert(normalized(longer) =~= once + seq!['\\'] + segment);
        assert(kept[0].len() > 0);
        lemma_join_not_empty(kept);
    }
}

/// It does not matter whether the separators of a path on a drive are slashes or backslashes.
pub proof fn lemma_either_separator(path: Seq<char>)
    requires
        on_drive(path),
    ensures
        normalized(uri::swapped(path, '/', '\\')) == normalized(path),
{
    let other = uri::swapped(path, '/', '\\');
    lemma_drive_prefix(path);
    assert(on_drive(other));
    lemma_drive_prefix(other);
    assert(uri::swapped(other.skip(2), '/', '\\') =~= uri::swapped(path.skip(2), '/', '\\'));
}

/// The name of a file stands in its directory behind one separator: a backslash, unless the directory
/// ends in a separator already, is a drive alone, or is not named.
pub proof fn lemma_opened(directory: Seq<char>)
    ensures
        directory.is_prefix_of(opened(directory)),
        directory.len() == 0 ==> opened(directory) == directory,
        directory.len() > 0 && (directory.last() == '/' || directory.last() == '\\') ==> opened(
            directory,
        ) == directory,
        directory.len() > 2 && directory.last() != '/' && directory.last() != '\\' ==> opened(
            directory,
        ) == directory.push('\\'),
        directory.len() == 2 && directory[1] == ':' && ('a' <= directory[0] <= 'z' || 'A'
            <= directory[0] <= 'Z') ==> opened(directory) == directory,
{
    assert(directory.push('\\').take(directory.len() as int) =~= directory);
    assert(directory.take(directory.len() as int) =~= directory);
}

proof fn lemma_part_ends(path: Seq<char>, from: int, to: int, verbatim: bool)
    requires
        0 <= from <= to <= path.len(),
        forall|i: int| from <= i < to ==> #[trigger] path[i] != '\\' && path[i] != '/',
        to < path.len() ==> path[to] == '\\',
    ensures
        part_end(path, from, verbatim) == to,
    decreases to - from,
{
    if from < to {
        assert(path[from] != '\\' && path[from] != '/');
        lemma_part_ends(path, from + 1, to, verbatim);
    }
}

/// A name without separators.
pub open spec fn one_name(name: Seq<char>) -> bool {
    name.len() > 0 && !name.contains('\\') && !name.contains('/')
}

proof fn lemma_names_at(path: Seq<char>, name: Seq<char>, at: int)
    requires
        one_name(name),
        0 <= at,
        at + name.len() <= path.len(),
        path.subrange(at, at + name.len()) == name,
    ensures
        forall|i: int|
            at <= i < at + name.len() ==> #[trigger] path[i] != '\\' && path[i] != '/',
{
    assert forall|i: int| at <= i < at + name.len() implies #[trigger] path[i] != '\\' && path[i]
        != '/' by {
        assert(path.subrange(at, at + name.len())[i - at] == name[i - at]);
        if name[i - at] == '\\' {
            assert(name.contains('\\'));
        }
        if name[i - at] == '/' {
            assert(name.contains('/'));
        }
    }
}

/// The segments of a path whose prefix ends at `n` and that has a backslash and one segment behind it.
proof fn lemma_one_segment(path: Seq<char>, prefix: Seq<char>, segment: Seq<char>)
    requires
        path == prefix + seq!['\\'] + segment,
        prefix_length(path) == prefix.len(),
        !segment.contains('\\') && !segment.contains('/'),
    ensures
        path_base(path) == prefix.push('\\'),
        path_segments(path) == seq![Seq::empty(), segment],
{
    let n = prefix.len() as int;
    assert(path[n] == '\\');
    assert(path.take(n) =~= prefix);
    let rest = uri::swapped(path.skip(n), '/', '\\');
    let none = Seq::<char>::empty();
    assert(rest =~= none.push('\\') + segment) by {
        let other = none.push('\\') + segment;
        assert forall|i: int| 0 <= i < rest.len() implies rest[i] == other[i] by {
            if i > 0 {
                assert(path.skip(n)[i] == segment[i - 1]);
                if segment[i - 1] == '/' {
                    assert(segment.contains('/'));
                }
            }
        }
    }
    text::lemma_split_last(none, '\\', segment);
    assert(text::split(none, '\\') =~= seq![none]);
    assert(seq![none].push(segment) =~= seq![none, segment]);
}

/// Below the share of a server nothing leads further up than the share, and what is named there stays.
pub proof fn lemma_server_paths(server: Seq<char>, share: Seq<char>, segment: Seq<char>)
    requires
        one_name(server),
        one_name(share),
        server != seq!['.'],
        server != seq!['?'],
        names_entry(segment),
    ensures
        ({
            let root = seq!['\\', '\\'] + server + seq!['\\'] + share;
            &&& normalized(root + seq!['\\'] + segment) == root + seq!['\\'] + segment
            &&& normalized(root + seq!['\\'] + seq!['.', '.']) == root + seq!['\\']
        }),
{
    reveal_strlit(".");
    reveal_strlit("..");
    let root = seq!['\\', '\\'] + server + seq!['\\'] + share;
    let dots = seq!['.', '.'];
    assert(dots =~= ".."@ && seq!['.'] =~= "."@);
    lemma_share_prefix(server, share, segment);
    lemma_share_prefix(server, share, dots);
    lemma_one_segment(root + seq!['\\'] + segment, root, segment);
    lemma_one_segment(root + seq!['\\'] + dots, root, dots);
    lemma_walk_one(root.push('\\'), segment);
    lemma_walk_one(root.push('\\'), dots);
    assert(text::join(seq![segment], '\\') =~= segment);
    assert(root.push('\\') + segment =~= root + seq!['\\'] + segment);
    assert(text::join(Seq::<Seq<char>>::empty(), '\\') =~= Seq::empty());
    assert(root.push('\\') + Seq::<char>::empty() =~= root + seq!['\\']);
}

proof fn lemma_share_prefix(server: Seq<char>, share: Seq<char>, segment: Seq<char>)
    requires
        one_name(server),
        one_name(share),
        server != seq!['.'],
        server != seq!['?'],
    ensures
        ({
            let root = seq!['\\', '\\'] + server + seq!['\\'] + share;
            prefix_length(root + seq!['\\'] + segment) == root.len()
        }),
{
    reveal_strlit("\\\\?\\");
    let root = seq!['\\', '\\'] + server + seq!['\\'] + share;
    let path = root + seq!['\\'] + segment;
    let a = 2 + server.len() as int;
    let b = root.len() as int;
    assert(path.subrange(2, a) =~= server);
    assert(path.subrange(a + 1, b) =~= share);
    lemma_names_at(path, server, 2);
    lemma_names_at(path, share, a + 1);
    assert(path[a] == '\\' && path[b] == '\\');
    lemma_part_ends(path, 2, a, false);
    lemma_part_ends(path, a + 1, b, false);
    assert(!is_verbatim(path)) by {
        if is_verbatim(path) {
            let start = path.subrange(0, 4);
            assert(start[2] == '?' && start[3] == '\\');
            assert(path[2] == server[0]);
            if server.len() > 1 {
                assert(path[3] != '\\');
            } else {
                assert(server =~= seq!['?']);
            }
        }
    }
    assert(!(path[2] == '.' && is_separator(path[3]))) by {
        if path[2] == '.' && is_separator(path[3]) {
            assert(path[2] == server[0]);
            if server.len() == 1 {
                assert(server =~= seq!['.']);
            }
        }
    }
}

proof fn lemma_walk_one(base: Seq<char>, segment: Seq<char>)
    ensures
        ({
            let segments = seq![Seq::<char>::empty(), segment];
            &&& names_entry(segment) ==> walked(base, segments, 2) == (base, seq![segment])
            &&& segment == ".."@ ==> walked(base, segments, 2) == (base, Seq::<Seq<char>>::empty())
            &&& drive_at(segment, 0) ==> walked(base, segments, 2) == (
                segment.take(2),
                if segment.len() > 2 {
                    seq![segment.skip(2)]
                } else {
                    Seq::empty()
                },
            )
        }),
{
    reveal_strlit(".");
    reveal_strlit("..");
    assert("."@ =~= seq!['.'] && ".."@ =~= seq!['.', '.']);
    let segments = seq![Seq::<char>::empty(), segment];
    assert(walked(base, segments, 0) == (base, Seq::<Seq<char>>::empty()));
    assert(walked(base, segments, 1) == (base, Seq::<Seq<char>>::empty()));
    assert(Seq::<Seq<char>>::empty().push(segment) =~= seq![segment]);
    if drive_at(segment, 0) {
        assert(segment[1] == ':');
    }
}

/// A segment that begins with a drive leads there, from whatever drive it is met on.
pub proof fn lemma_other_drive(drive: char, other: char, rest: Seq<char>)
    requires
        'a' <= drive <= 'z' || 'A' <= drive <= 'Z',
        'a' <= other <= 'z' || 'A' <= other <= 'Z',
        !rest.contains('\\') && !rest.contains('/'),
    ensures
        normalized(seq![drive, ':', '\\', other, ':'] + rest) == seq![other, ':'] + rest,
{
    let prefix = seq![drive, ':'];
    let segment = seq![other, ':'] + rest;
    let path = seq![drive, ':', '\\', other, ':'] + rest;
    assert(path =~= prefix + seq!['\\'] + segment);
    lemma_drive_prefix(path);
    assert(!segment.contains('\\') && !segment.contains('/')) by {
        assert forall|c: char| segment.contains(c) implies c == other || c == ':' || rest.contains(
            c,
        ) by {
            let i = choose|i: int| 0 <= i < segment.len() && segment[i] == c;
            if i >= 2 {
                assert(rest[i - 2] == c);
            }
        }
    }
    lemma_one_segment(path, prefix, segment);
    lemma_walk_one(prefix.push('\\'), segment);
    assert(segment.take(2) =~= seq![other, ':']);
    assert(segment.skip(2) =~= rest);
    if rest.len() > 0 {
        assert(text::join(seq![rest], '\\') =~= rest);
    } else {
        assert(text::join(Seq::<Seq<char>>::empty(), '\\') =~= Seq::empty());
        assert(seq![other, ':'] + Seq::<char>::empty() =~= seq![other, ':'] + rest);
    }
}

/// A device is named by its prefix alone, and what is named below it stays; a verbatim prefix alone stays
/// as it is.
pub proof fn lemma_devices(name: Seq<char>, segment: Seq<char>)
    requires
        one_name(name),
        names_entry(segment),
    ensures
        ({
            let device = seq!['\\', '\\', '.', '\\'] + name;
            let verbatim = seq!['\\', '\\', '?', '\\'] + name;
            &&& normalized(device + seq!['\\'] + segment) == device + seq!['\\'] + segment
            &&& normalized(verbatim) == verbatim
        }),
{
    reveal_strlit("\\\\?\\");
    reveal_strlit("\\\\?\\UNC\\");
    let device = seq!['\\', '\\', '.', '\\'] + name;
    let path = device + seq!['\\'] + segment;
    let n = device.len() as int;
    assert(path.subrange(4, n) =~= name);
    lemma_names_at(path, name, 4);
    assert(path[n] == '\\' && path[2] == '.' && path[3] == '\\');
    lemma_part_ends(path, 4, n, false);
    assert(!is_verbatim(path)) by {
        if is_verbatim(path) {
            assert(path.subrange(0, 4)[2] == '?');
        }
    }
    lemma_one_segment(path, device, segment);
    lemma_walk_one(device.push('\\'), segment);
    assert(text::join(seq![segment], '\\') =~= segment);
    assert(device.push('\\') + segment =~= path);
    let verbatim = seq!['\\', '\\', '?', '\\'] + name;
    let m = verbatim.len() as int;
    assert(verbatim.subrange(0, 4) =~= "\\\\?\\"@);
    assert(verbatim.subrange(4, m) =~= name);
    lemma_names_at(verbatim, name, 4);
    lemma_part_ends(verbatim, 4, m, true);
    assert(!text::starts_with(verbatim, "\\\\?\\UNC\\"@)) by {
        if text::starts_with(verbatim, "\\\\?\\UNC\\"@) {
            assert(verbatim.subrange(0, 8)[7] == '\\');
            assert(verbatim[7] == '\\');
        }
    }
    assert(prefix_length(verbatim) == m) by {
        if drive_at(verbatim, 4) && m > 6 {
            assert(verbatim[6] != '\\' && verbatim[6] != '/');
        }
    }
    assert(verbatim.take(m) =~= verbatim);
    let none = Seq::<char>::empty();
    let rest = uri::swapped(verbatim.skip(m), '/', '\\');
    assert(rest =~= none);
    assert(text::split(none, '\\') =~= seq![none]);
    let segments = seq![none];
    assert(walked(verbatim, segments, 0) == (verbatim, Seq::<Seq<char>>::empty()));
    assert(walked(verbatim, segments, 1) == (verbatim, Seq::<Seq<char>>::empty()));
    assert(text::join(Seq::<Seq<char>>::empty(), '\\') =~= none);
    assert(verbatim + none =~= verbatim);
}

} // verus!
