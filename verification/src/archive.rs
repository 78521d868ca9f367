//! Archive type detection, image-name filtering and page ordering.
use vstd::prelude::*;
use crate::text::{ascii_lower, chars_eq, chars_of, concat2, to_ascii_lower};

verus! {

/// Supported archive types.
#[derive(Debug, Clone, Copy, PartialEq, Eq, Structural)]
pub enum ArchiveType {
    /// CBZ — ZIP archive
    Cbz,
    /// CBR — RAR archive
    Cbr,
    /// CB7 — 7z archive
    Cb7,
    /// CBT — tar archive
    Cbt,
    /// Plain directory on disk
    Folder,
}

/// `p` with trailing separators and trailing `.` components removed, as a path's
/// components see it.
pub open spec fn strip_tail(p: Seq<char>) -> Seq<char>
    decreases p.len(),
{
    if p.len() == 0 {
        p
    } else if p.last() == '/' {
        strip_tail(p.drop_last())
    } else if p.len() == 1 && p[0] == '.' {
        Seq::empty()
    } else if p.len() >= 2 && p.last() == '.' && p[p.len() - 2] == '/' {
        strip_tail(p.take(p.len() - 2))
    } else {
        p
    }
}

/// The characters of `q` after its last occurrence of `c` (all of `q` when there is none).
pub open spec fn after_last(q: Seq<char>, c: char) -> Seq<char>
    decreases q.len(),
{
    if q.len() == 0 {
        q
    } else if q.last() == c {
        Seq::empty()
    } else {
        after_last(q.drop_last(), c).push(q.last())
    }
}

/// The final component of a path, unless the path ends in `..` or has none.
pub open spec fn file_name(p: Seq<char>) -> Option<Seq<char>> {
    let name = after_last(strip_tail(p), '/');
    if name.len() == 0 || name == seq!['.', '.'] {
        None
    } else {
        Some(name)
    }
}

/// The extension of a file name: what follows its last `.`, provided that dot is not
/// the name's first character.
pub open spec fn name_extension(name: Seq<char>) -> Option<Seq<char>> {
    let ext = after_last(name, '.');
    if ext.len() == name.len() || ext.len() + 1 == name.len() {
        None
    } else {
        Some(ext)
    }
}

/// The extension of a path's final component.
pub open spec fn path_extension(p: Seq<char>) -> Option<Seq<char>> {
    match file_name(p) {
        Some(name) => name_extension(name),
        None => None,
    }
}

/// `a` and `b` are equal up to the case of ASCII letters in `a` (`b` is lower case).
/// For the ASCII names compared here this is the same as comparing the Unicode
/// lower-case form of `a`: no other character lower-cases to an ASCII letter of
/// these names.
pub open spec fn eq_ignore_ascii_case(a: Seq<char>, b: Seq<char>) -> bool {
    a.len() == b.len() && forall|i: int| 0 <= i < a.len() ==> ascii_lower(#[trigger] a[i]) == b[i]
}


/// The lower-case extensions that [`ArchiveType::from_path`] recognizes, and the type
/// each names; `None` for an extension it does not.
pub open spec fn archive_type_of_extension(ext: Seq<char>) -> Option<ArchiveType> {
    if eq_ignore_ascii_case(ext, seq!['c', 'b', 'z']) || eq_ignore_ascii_case(ext, seq!['z', 'i', 'p']) {
        Some(ArchiveType::Cbz)
    } else if eq_ignore_ascii_case(ext, seq!['c', 'b', 'r']) || eq_ignore_ascii_case(ext, seq!['r', 'a', 'r']) {
        Some(ArchiveType::Cbr)
    } else if eq_ignore_ascii_case(ext, seq!['c', 'b', '7']) || eq_ignore_ascii_case(ext, seq!['7', 'z']) {
        Some(ArchiveType::Cb7)
    } else if eq_ignore_ascii_case(ext, seq!['c', 'b', 't']) || eq_ignore_ascii_case(ext, seq!['t', 'a', 'r']) {
        Some(ArchiveType::Cbt)
    } else {
        None
    }
}

/// The archive type that a path names: a path whose final component has no extension
/// names a folder; otherwise the extension decides.
pub open spec fn archive_type_of_path(p: Seq<char>) -> Option<ArchiveType> {
    match path_extension(p) {
        None => Some(ArchiveType::Folder),
        Some(ext) => archive_type_of_extension(ext),
    }
}

proof fn lemma_strip_tail_prefix(p: Seq<char>)
    ensures
        strip_tail(p).len() <= p.len(),
        strip_tail(p) == p.take(strip_tail(p).len() as int),
    decreases p.len(),
{
    if p.len() == 0 {
        assert(p.take(0) =~= p);
    } else if p.last() == '/' {
        lemma_strip_tail_prefix(p.drop_last());
        let q = strip_tail(p.drop_last());
        assert(p.drop_last().take(q.len() as int) =~= p.take(q.len() as int));
    } else if p.len() == 1 && p[0] == '.' {
        assert(p.take(0) =~= Seq::<char>::empty());
    } else if p.len() >= 2 && p.last() == '.' && p[p.len() - 2] == '/' {
        lemma_strip_tail_prefix(p.take(p.len() - 2));
        let q = strip_tail(p.take(p.len() - 2));
        assert(p.take(p.len() - 2).take(q.len() as int) =~= p.take(q.len() as int));
    } else {
        assert(p.take(p.len() as int) =~= p);
    }
}

/// Length of the prefix of `p` that `strip_tail` keeps.
fn stripped_len(p: &Vec<char>) -> (n: usize)
    ensures
        n <= p.len(),
        strip_tail(p@) == p@.take(n as int),
{
    let mut end: usize = p.len();
    assert(p@.take(end as int) =~= p@);
    loop
        invariant
            end <= p.len(),
            strip_tail(p@.take(end as int)) == strip_tail(p@),
        decreases end,
    {
        let q = Ghost(p@.take(end as int));
        if end > 0 && p[end - 1] == '/' {
            assert(q@.drop_last() =~= p@.take(end - 1));
            end = end - 1;
        } else if end == 1 && p[0] == '.' {
            assert(strip_tail(q@) =~= Seq::<char>::empty());
            assert(p@.take(0) =~= Seq::<char>::empty());
            end = 0;
        } else if end >= 2 && p[end - 1] == '.' && p[end - 2] == '/' {
            assert(q@.take(q@.len() - 2) =~= p@.take(end - 2));
            end = end - 2;
        } else {
            assert(strip_tail(q@) == q@);
            return end;
        }
    }
}

/// Start of the part of `v[..end]` that follows its last `c`.
fn after_last_start(v: &Vec<char>, end: usize, c: char) -> (k: usize)
    requires
        end <= v.len(),
    ensures
        k <= end,
        after_last(v@.take(end as int), c) == v@.subrange(k as int, end as int),
{
    let mut i: usize = end;
    assert(v@.subrange(end as int, end as int) =~= Seq::<char>::empty());
    assert(after_last(v@.take(end as int), c) =~= after_last(v@.take(end as int), c) + Seq::<char>::empty());
    while i > 0 && v[i - 1] != c
        invariant
            i <= end <= v.len(),
            after_last(v@.take(end as int), c) == after_last(v@.take(i as int), c) + v@.subrange(i as int, end as int),
        decreases i,
    {
        let ghost q = v@.take(i as int);
        assert(q.drop_last() =~= v@.take(i - 1));
        assert(after_last(q, c) == after_last(v@.take(i - 1), c).push(v[i - 1]));
        assert(after_last(v@.take(i - 1), c).push(v[i - 1]) + v@.subrange(i as int, end as int)
            =~= after_last(v@.take(i - 1), c) + v@.subrange(i - 1, end as int));
        i = i - 1;
    }
    if i > 0 {
        assert(after_last(v@.take(i as int), c) =~= Seq::<char>::empty());
    } else {
        assert(v@.take(0) =~= Seq::<char>::empty());
    }
    assert(after_last(v@.take(end as int), c) =~= v@.subrange(i as int, end as int));
    i
}

/// The bounds of the extension of a path's final component, if it has one.
fn extension_bounds(p: &Vec<char>) -> (r: Option<(usize, usize)>)
    ensures
        match r {
            Some((a, b)) => a <= b <= p.len() && path_extension(p@) == Some(p@.subrange(a as int, b as int)),
            None => path_extension(p@) is None,
        },
{
    let end = stripped_len(p);
    let start = after_last_start(p, end, '/');
    let ghost name = p@.subrange(start as int, end as int);
    assert(after_last(strip_tail(p@), '/') == name);
    if end == start || (end - start == 2 && p[start] == '.' && p[start + 1] == '.') {
        if end - start == 2 && p[start] == '.' && p[start + 1] == '.' {
            assert(name =~= seq!['.', '.']);
        }
        return None;
    }
    assert(name != seq!['.', '.']) by {
        if name.len() == 2 {
            assert(name[0] == p[start as int] && name[1] == p[start + 1]);
        }
    }
    assert(file_name(p@) == Some(name));
    let dot = after_last_start(p, end, '.');
    assert(p@.take(end as int).subrange(start as int, end as int) =~= name);
    // The part after the last dot of the name is the part after the last dot of the prefix,
    // as long as that dot lies inside the name.
    let ghost ext = p@.subrange(dot as int, end as int);
    proof {
        lemma_after_last_suffix(p@.take(end as int), start as int, '.');
        assert(p@.take(end as int).subrange(start as int, end as int) =~= name);
        assert(p@.take(end as int).subrange(dot as int, end as int) =~= ext);
    }
    if dot <= start || dot == start + 1 {
        return None;
    }
    Some((dot, end))
}

/// What follows the last `c` of a suffix of `q` is the smaller of that suffix and what
/// follows the last `c` of `q`.
proof fn lemma_after_last_suffix(q: Seq<char>, s: int, c: char)
    requires
        0 <= s <= q.len(),
    ensures
        after_last(q.subrange(s, q.len() as int), c).len() <= q.len() - s,
        after_last(q, c).len() <= q.len() - s ==> after_last(q.subrange(s, q.len() as int), c) == after_last(q, c),
        after_last(q, c).len() > q.len() - s ==> after_last(q.subrange(s, q.len() as int), c) == q.subrange(s, q.len() as int),
    decreases q.len() - s,
{
    lemma_after_last_len(q, c);
    lemma_after_last_len(q.subrange(s, q.len() as int), c);
    if s == q.len() {
        assert(q.subrange(s, s) =~= Seq::<char>::empty());
    } else {
        let t = q.subrange(s, q.len() as int);
        let u = q.drop_last();
        if q.last() == c {
            assert(t.last() == c);
        } else {
            assert(t.last() == q.last());
            assert(t.drop_last() =~= u.subrange(s, u.len() as int));
            lemma_after_last_suffix(u, s, c);
            if after_last(u, c).len() > u.len() - s {
                assert(t =~= u.subrange(s, u.len() as int).push(q.last()));
            }
        }
    }
}

/// `after_last(q, c)` is a suffix of `q` without any `c`.
proof fn lemma_after_last_len(q: Seq<char>, c: char)
    ensures
        after_last(q, c).len() <= q.len(),
        after_last(q, c) == q.subrange(q.len() - after_last(q, c).len(), q.len() as int),
    decreases q.len(),
{
    if q.len() == 0 {
        assert(q.subrange(0, 0) =~= q);
    } else if q.last() == c {
        assert(q.subrange(q.len() as int, q.len() as int) =~= Seq::<char>::empty());
    } else {
        lemma_after_last_len(q.drop_last(), c);
        let a = after_last(q.drop_last(), c);
        assert(a.push(q.last()) =~= q.subrange(q.len() - a.len() - 1, q.len() as int));
    }
}

/// Whether `v[a..b]` equals the lower-case `target` up to ASCII case.
fn range_eq_ignore_case(v: &Vec<char>, a: usize, b: usize, target: &[char]) -> (r: bool)
    requires
        a <= b <= v.len(),
    ensures
        r == eq_ignore_ascii_case(v@.subrange(a as int, b as int), target@),
{
    if b - a != target.len() {
        return false;
    }
    let mut i: usize = 0;
    while i < target.len()
        invariant
            b - a == target.len(),
            a <= b <= v.len(),
            i <= target.len(),
            forall|j: int| 0 <= j < i ==> ascii_lower(#[trigger] v@[a + j]) == target@[j],
        decreases target.len() - i,
    {
        if to_ascii_lower(v[a + i]) != target[i] {
            assert(ascii_lower(v@.subrange(a as int, b as int)[i as int]) != target@[i as int]);
            return false;
        }
        i = i + 1;
    }
    assert forall|j: int| 0 <= j < target@.len() implies ascii_lower(#[trigger] v@.subrange(a as int, b as int)[j]) == target@[j] by {
        assert(v@.subrange(a as int, b as int)[j] == v@[a + j]);
    }
    true
}

/// The image extensions the reader accepts, in lower case.
pub open spec fn is_image_ext(ext: Seq<char>) -> bool {
    ||| eq_ignore_ascii_case(ext, seq!['j', 'p', 'g'])
    ||| eq_ignore_ascii_case(ext, seq!['j', 'p', 'e', 'g'])
    ||| eq_ignore_ascii_case(ext, seq!['p', 'n', 'g'])
    ||| eq_ignore_ascii_case(ext, seq!['w', 'e', 'b', 'p'])
    ||| eq_ignore_ascii_case(ext, seq!['g', 'i', 'f'])
    ||| eq_ignore_ascii_case(ext, seq!['b', 'm', 'p'])
    ||| eq_ignore_ascii_case(ext, seq!['t', 'i', 'f', 'f'])
    ||| eq_ignore_ascii_case(ext, seq!['t', 'i', 'f'])
}

/// `name` ends with the lower-case `suffix`, up to ASCII case.
pub open spec fn ends_with_ignore_ascii_case(name: Seq<char>, suffix: Seq<char>) -> bool {
    suffix.len() <= name.len() && eq_ignore_ascii_case(name.subrange(name.len() - suffix.len(), name.len() as int), suffix)
}

/// A file name that looks like an image: it ends with `.` and an image extension.
pub open spec fn is_image_name(name: Seq<char>) -> bool {
    ||| ends_with_ignore_ascii_case(name, seq!['.', 'j', 'p', 'g'])
    ||| ends_with_ignore_ascii_case(name, seq!['.', 'j', 'p', 'e', 'g'])
    ||| ends_with_ignore_ascii_case(name, seq!['.', 'p', 'n', 'g'])
    ||| ends_with_ignore_ascii_case(name, seq!['.', 'w', 'e', 'b', 'p'])
    ||| ends_with_ignore_ascii_case(name, seq!['.', 'g', 'i', 'f'])
    ||| ends_with_ignore_ascii_case(name, seq!['.', 'b', 'm', 'p'])
    ||| ends_with_ignore_ascii_case(name, seq!['.', 't', 'i', 'f', 'f'])
    ||| ends_with_ignore_ascii_case(name, seq!['.', 't', 'i', 'f'])
}

/// Whether `v` ends with the lower-case `suffix` up to ASCII case.
fn ends_with_ignore_case(v: &Vec<char>, suffix: &[char]) -> (r: bool)
    ensures
        r == ends_with_ignore_ascii_case(v@, suffix@),
{
    if suffix.len() > v.len() {
        return false;
    }
    range_eq_ignore_case(v, v.len() - suffix.len(), v.len(), suffix)
}

/// Check if a file path has a supported image extension (`jpg`, `jpeg`, `png`,
/// `webp`, `gif`, `bmp`, `tiff`, `tif`, in any case).
pub fn is_image_extension(path: &str) -> (r: bool)
    ensures
        r == (match path_extension(path@) {
            Some(ext) => is_image_ext(ext),
            None => false,
        }),
{
    let p = chars_of(path);
    match extension_bounds(&p) {
        None => false,
        Some((a, b)) => {
            range_eq_ignore_case(&p, a, b, &['j', 'p', 'g'])
                || range_eq_ignore_case(&p, a, b, &['j', 'p', 'e', 'g'])
                || range_eq_ignore_case(&p, a, b, &['p', 'n', 'g'])
                || range_eq_ignore_case(&p, a, b, &['w', 'e', 'b', 'p'])
                || range_eq_ignore_case(&p, a, b, &['g', 'i', 'f'])
                || range_eq_ignore_case(&p, a, b, &['b', 'm', 'p'])
                || range_eq_ignore_case(&p, a, b, &['t', 'i', 'f', 'f'])
                || range_eq_ignore_case(&p, a, b, &['t', 'i', 'f'])
        },
    }
}

/// Check if a file name looks like an image (by extension, in any case).
pub fn is_image_filename(name: &str) -> (r: bool)
    ensures
        r == is_image_name(name@),
{
    let v = chars_of(name);
    ends_with_ignore_case(&v, &['.', 'j', 'p', 'g'])
        || ends_with_ignore_case(&v, &['.', 'j', 'p', 'e', 'g'])
        || ends_with_ignore_case(&v, &['.', 'p', 'n', 'g'])
        || ends_with_ignore_case(&v, &['.', 'w', 'e', 'b', 'p'])
        || ends_with_ignore_case(&v, &['.', 'g', 'i', 'f'])
        || ends_with_ignore_case(&v, &['.', 'b', 'm', 'p'])
        || ends_with_ignore_case(&v, &['.', 't', 'i', 'f', 'f'])
        || ends_with_ignore_case(&v, &['.', 't', 'i', 'f'])
}

/// Whether a path's extension equals the lower-case `ext` up to ASCII case.
pub fn has_extension(path: &str, ext: &[char]) -> (r: bool)
    ensures
        r == (match path_extension(path@) {
            Some(e) => eq_ignore_ascii_case(e, ext@),
            None => false,
        }),
{
    let p = chars_of(path);
    match extension_bounds(&p) {
        None => false,
        Some((a, b)) => range_eq_ignore_case(&p, a, b, ext),
    }
}

impl ArchiveType {
    /// Detect archive type from a path as it reads: `cbz`/`zip`, `cbr`/`rar`,
    /// `cb7`/`7z` and `cbt`/`tar` (in any case) name the archive formats, and a path
    /// whose final component has no extension names a folder. A path on disk that is
    /// a directory is a folder whatever its name: see
    /// [`ArchiveType::from_path_on_disk`].
    pub fn from_path(path: &str) -> (r: Option<ArchiveType>)
        ensures
            r == archive_type_of_path(path@),
    {
        let p = chars_of(path);
        match extension_bounds(&p) {
            None => Some(ArchiveType::Folder),
            Some((a, b)) => {
                if range_eq_ignore_case(&p, a, b, &['c', 'b', 'z']) || range_eq_ignore_case(&p, a, b, &['z', 'i', 'p']) {
                    Some(ArchiveType::Cbz)
                } else if range_eq_ignore_case(&p, a, b, &['c', 'b', 'r']) || range_eq_ignore_case(&p, a, b, &['r', 'a', 'r']) {
                    Some(ArchiveType::Cbr)
                } else if range_eq_ignore_case(&p, a, b, &['c', 'b', '7']) || range_eq_ignore_case(&p, a, b, &['7', 'z']) {
                    Some(ArchiveType::Cb7)
                } else if range_eq_ignore_case(&p, a, b, &['c', 'b', 't']) || range_eq_ignore_case(&p, a, b, &['t', 'a', 'r']) {
                    Some(ArchiveType::Cbt)
                } else {
                    None
                }
            },
        }
    }
}

// ─── Path order ────────────────────────────────────────────────────

/// The pieces of `s` between its `/` separators, empty ones included.
pub open spec fn split_slash(s: Seq<char>) -> Seq<Seq<char>>
    decreases s.len(),
{
    if s.len() == 0 {
        seq![Seq::empty()]
    } else {
        let t = split_slash(s.drop_last());
        if s.last() == '/' {
            t.push(Seq::empty())
        } else {
            t.update(t.len() - 1, t.last().push(s.last()))
        }
    }
}

/// The component a piece of a path names: `(3, "")` for `..`, `(4, name)` for a name.
pub open spec fn piece_component(piece: Seq<char>) -> (u8, Seq<char>) {
    if piece == seq!['.', '.'] {
        (3u8, Seq::empty())
    } else {
        (4u8, piece)
    }
}

/// The components named by pieces of a path: empty pieces and `.` name none.
pub open spec fn piece_components(pieces: Seq<Seq<char>>) -> Seq<(u8, Seq<char>)>
    decreases pieces.len(),
{
    if pieces.len() == 0 {
        Seq::empty()
    } else {
        let r = piece_components(pieces.drop_last());
        let last = pieces.last();
        if last.len() == 0 || last == seq!['.'] {
            r
        } else {
            r.push(piece_component(last))
        }
    }
}

/// The components of a `/`-separated path, as `std::path::Path::components` gives
/// them: `(1, "")` for a leading root, `(2, "")` for a leading `.` of a relative
/// path, then `(3, "")` for each `..` and `(4, name)` for each name; empty pieces
/// and other `.` pieces name no component.
pub open spec fn path_components(p: Seq<char>) -> Seq<(u8, Seq<char>)> {
    let root = p.len() > 0 && p[0] == '/';
    let cur = !root && p.len() > 0 && p[0] == '.' && (p.len() == 1 || p[1] == '/');
    let head: Seq<(u8, Seq<char>)> = if root {
        seq![(1u8, Seq::empty())]
    } else if cur {
        seq![(2u8, Seq::empty())]
    } else {
        Seq::empty()
    };
    head + piece_components(split_slash(p))
}

/// `a` comes before `b` in the order of code points (a proper prefix comes first);
/// on UTF-8 this is the order of the bytes.
pub open spec fn chars_lt(a: Seq<char>, b: Seq<char>) -> bool
    decreases a.len(),
{
    if a.len() == 0 {
        b.len() > 0
    } else if b.len() == 0 {
        false
    } else if a[0] != b[0] {
        (a[0] as int) < (b[0] as int)
    } else {
        chars_lt(a.drop_first(), b.drop_first())
    }
}

/// Component order: root, current dir, parent dir, then names in code-point order.
pub open spec fn component_lt(a: (u8, Seq<char>), b: (u8, Seq<char>)) -> bool {
    a.0 < b.0 || (a.0 == b.0 && chars_lt(a.1, b.1))
}

/// The lexicographic order of component sequences.
pub open spec fn components_lt(a: Seq<(u8, Seq<char>)>, b: Seq<(u8, Seq<char>)>) -> bool
    decreases a.len(),
{
    if a.len() == 0 {
        b.len() > 0
    } else if b.len() == 0 {
        false
    } else if a[0] != b[0] {
        component_lt(a[0], b[0])
    } else {
        components_lt(a.drop_first(), b.drop_first())
    }
}

/// Path `a` sorts before path `b`: the order of `std::path::Path`, component by
/// component.
pub open spec fn path_lt(a: Seq<char>, b: Seq<char>) -> bool {
    components_lt(path_components(a), path_components(b))
}

/// The components held by a key vector.
pub open spec fn key_view(k: Seq<(u8, Vec<char>)>) -> Seq<(u8, Seq<char>)> {
    Seq::new(k.len(), |i: int| (k[i].0, k[i].1@))
}

/// The component that `piece` names, or none.
fn push_piece(out: &mut Vec<(u8, Vec<char>)>, piece: Vec<char>)
    ensures
        key_view(final(out)@) == if piece@.len() == 0 || piece@ == seq!['.'] {
            key_view(old(out)@)
        } else {
            key_view(old(out)@).push(piece_component(piece@))
        },
{
    if piece.len() == 0 {
        return;
    }
    if piece.len() == 1 && piece[0] == '.' {
        assert(piece@ =~= seq!['.']);
        return;
    }
    assert(piece@ != seq!['.']);
    let dots = piece.len() == 2 && piece[0] == '.' && piece[1] == '.';
    if dots {
        assert(piece@ =~= seq!['.', '.']);
        out.push((3u8, Vec::new()));
    } else {
        assert(piece@ != seq!['.', '.']);
        out.push((4u8, piece));
    }
    assert(key_view(out@) =~= key_view(old(out)@).push(piece_component(piece@)));
}

/// The components of a path.
fn path_key(path: &str) -> (k: Vec<(u8, Vec<char>)>)
    ensures
        key_view(k@) == path_components(path@),
{
    let v = chars_of(path);
    let n = v.len();
    let root = n > 0 && v[0] == '/';
    let cur = !root && n > 0 && v[0] == '.' && (n == 1 || v[1] == '/');
    let mut head: Vec<(u8, Vec<char>)> = Vec::new();
    if root {
        head.push((1u8, Vec::new()));
    } else if cur {
        head.push((2u8, Vec::new()));
    }
    let ghost h = key_view(head@);
    let mut piece: Vec<char> = Vec::new();
    let mut i: usize = 0;
    assert(v@.take(0) =~= Seq::<char>::empty());
    assert(key_view(head@) =~= h + piece_components(split_slash(v@.take(0)).drop_last()));
    while i < n
        invariant
            n == v@.len(),
            i <= n,
            key_view(head@) == h + piece_components(split_slash(v@.take(i as int)).drop_last()),
            piece@ == split_slash(v@.take(i as int)).last(),
            split_slash(v@.take(i as int)).len() > 0,
        decreases n - i,
    {
        let c = v[i];
        let ghost pre = v@.take(i as int);
        let ghost next = v@.take(i + 1);
        assert(next.drop_last() =~= pre);
        assert(next.last() == c);
        if c == '/' {
            let done = piece;
            piece = Vec::new();
            let ghost before = key_view(head@);
            push_piece(&mut head, done);
            proof {
                let t = split_slash(pre);
                assert(split_slash(next) == t.push(Seq::empty()));
                assert(split_slash(next).drop_last() =~= t);
                assert(t.drop_last().push(t.last()) =~= t);
                assert(piece_components(t) == if t.last().len() == 0 || t.last() == seq!['.'] {
                    piece_components(t.drop_last())
                } else {
                    piece_components(t.drop_last()).push(piece_component(t.last()))
                });
                assert(key_view(head@) =~= h + piece_components(split_slash(next).drop_last()));
            }
        } else {
            piece.push(c);
            proof {
                let t = split_slash(pre);
                assert(split_slash(next) == t.update(t.len() - 1, t.last().push(c)));
                assert(split_slash(next).drop_last() =~= t.drop_last());
            }
        }
        i = i + 1;
    }
    assert(v@.take(n as int) =~= path@);
    let ghost t = split_slash(path@);
    let ghost before = key_view(head@);
    push_piece(&mut head, piece);
    assert(t.drop_last().push(t.last()) =~= t);
    assert(key_view(head@) =~= h + piece_components(t));
    head
}

/// Whether `a` comes before `b` in code-point order.
pub(crate) fn chars_less(a: &Vec<char>, b: &Vec<char>) -> (r: bool)
    ensures
        r == chars_lt(a@, b@),
{
    let mut i: usize = 0;
    assert(a@.skip(0) =~= a@);
    assert(b@.skip(0) =~= b@);
    while i < a.len() && i < b.len()
        invariant
            i <= a@.len(),
            i <= b@.len(),
            chars_lt(a@, b@) == chars_lt(a@.skip(i as int), b@.skip(i as int)),
        decreases a.len() - i,
    {
        if a[i] != b[i] {
            return a[i] < b[i];
        }
        assert(a@.skip(i as int).drop_first() =~= a@.skip(i + 1));
        assert(b@.skip(i as int).drop_first() =~= b@.skip(i + 1));
        i = i + 1;
    }
    i == a.len() && i < b.len()
}

/// Whether two components are equal.
fn component_eq(a: &(u8, Vec<char>), b: &(u8, Vec<char>)) -> (r: bool)
    ensures
        r == ((a.0, a.1@) == (b.0, b.1@)),
{
    a.0 == b.0 && chars_eq(&a.1, &b.1)
}

/// Whether component sequence `a` comes before `b`.
fn components_less(a: &Vec<(u8, Vec<char>)>, b: &Vec<(u8, Vec<char>)>) -> (r: bool)
    ensures
        r == components_lt(key_view(a@), key_view(b@)),
{
    let ghost ka = key_view(a@);
    let ghost kb = key_view(b@);
    let mut i: usize = 0;
    assert(ka.skip(0) =~= ka);
    assert(kb.skip(0) =~= kb);
    while i < a.len() && i < b.len()
        invariant
            ka == key_view(a@),
            kb == key_view(b@),
            i <= a@.len(),
            i <= b@.len(),
            components_lt(ka, kb) == components_lt(ka.skip(i as int), kb.skip(i as int)),
        decreases a.len() - i,
    {
        let ghost x = ka.skip(i as int);
        let ghost y = kb.skip(i as int);
        assert(x[0] == ka[i as int]);
        assert(y[0] == kb[i as int]);
        if !component_eq(&a[i], &b[i]) {
            let less = a[i].0 < b[i].0 || (a[i].0 == b[i].0 && chars_less(&a[i].1, &b[i].1));
            return less;
        }
        assert(x.drop_first() =~= ka.skip(i + 1));
        assert(y.drop_first() =~= kb.skip(i + 1));
        i = i + 1;
    }
    i == a.len() && i < b.len()
}

/// A single image entry within an archive.
#[derive(Debug, Clone)]
pub struct ArchiveEntry {
    /// The path of the file within the archive.
    pub path: String,
    /// The raw bytes of the image.
    pub data: Vec<u8>,
    /// The 0-based page index (after sorting).
    pub page_index: usize,
}

/// `e` is inserted into `s` after every element that does not sort after it.
pub open spec fn insert_by_path(s: Seq<(Seq<char>, Seq<u8>)>, e: (Seq<char>, Seq<u8>)) -> Seq<(Seq<char>, Seq<u8>)>
    decreases s.len(),
{
    if s.len() == 0 {
        seq![e]
    } else if path_lt(e.0, s.last().0) {
        insert_by_path(s.drop_last(), e).push(s.last())
    } else {
        s.push(e)
    }
}

/// `s` in path order, stably: entries whose paths are in the same place keep their
/// order.
pub open spec fn sort_by_path(s: Seq<(Seq<char>, Seq<u8>)>) -> Seq<(Seq<char>, Seq<u8>)>
    decreases s.len(),
{
    if s.len() == 0 {
        s
    } else {
        insert_by_path(sort_by_path(s.drop_last()), s.last())
    }
}

/// Paths and bytes of raw archive entries.
pub open spec fn raw_view(s: Seq<(String, Vec<u8>)>) -> Seq<(Seq<char>, Seq<u8>)> {
    Seq::new(s.len(), |i: int| (s[i].0@, s[i].1@))
}

/// Paths and bytes of archive entries.
pub open spec fn entries_view(s: Seq<ArchiveEntry>) -> Seq<(Seq<char>, Seq<u8>)> {
    Seq::new(s.len(), |i: int| (s[i].path@, s[i].data@))
}

/// Inserting before a tail that sorts after `e` inserts into the head.
proof fn lemma_insert_split(s: Seq<(Seq<char>, Seq<u8>)>, e: (Seq<char>, Seq<u8>), j: int)
    requires
        0 <= j <= s.len(),
        forall|k: int| j <= k < s.len() ==> path_lt(e.0, #[trigger] s[k].0),
    ensures
        insert_by_path(s, e) == insert_by_path(s.take(j), e) + s.skip(j),
    decreases s.len() - j,
{
    if j == s.len() {
        assert(s.take(j) =~= s);
        assert(s.skip(j) =~= Seq::<(Seq<char>, Seq<u8>)>::empty());
        assert(insert_by_path(s.take(j), e) + s.skip(j) =~= insert_by_path(s.take(j), e));
    } else {
        let d = s.drop_last();
        assert(path_lt(e.0, s[s.len() - 1].0));
        assert forall|k: int| j <= k < d.len() implies path_lt(e.0, #[trigger] d[k].0) by {
            assert(d[k] == s[k]);
        }
        lemma_insert_split(d, e, j);
        assert(d.take(j) =~= s.take(j));
        assert(d.skip(j).push(s.last()) =~= s.skip(j));
        assert(insert_by_path(s, e) == insert_by_path(d, e).push(s.last()));
        assert((insert_by_path(d.take(j), e) + d.skip(j)).push(s.last()) =~= insert_by_path(d.take(j), e) + d.skip(j).push(s.last()));
    }
}

/// Order raw archive entries by path (stably) and number them: the pages of an
/// archive, in reading order.
pub fn order_pages(raw: Vec<(String, Vec<u8>)>) -> (pages: Vec<ArchiveEntry>)
    ensures
        entries_view(pages@) == sort_by_path(raw_view(raw@)),
        forall|i: int| 0 <= i < pages@.len() ==> #[trigger] pages@[i].page_index == i,
{
    let ghost input = raw_view(raw@);
    let mut raw = raw;
    let mut sorted: Vec<(String, Vec<u8>)> = Vec::new();
    let mut keys: Vec<Vec<(u8, Vec<char>)>> = Vec::new();
    let mut taken: usize = 0;
    let total = raw.len();
    // Take the entries in the order given, each inserted after every entry
    // that does not sort after it.
    while raw.len() > 0
        invariant
            total == input.len(),
            taken + raw@.len() == total,
            raw_view(raw@) == input.skip(taken as int),
            raw_view(sorted@) == sort_by_path(input.take(taken as int)),
            keys@.len() == sorted@.len(),
            forall|k: int| 0 <= k < keys@.len() ==> key_view(#[trigger] keys@[k]@) == path_components(sorted@[k].0@),
        decreases raw@.len(),
    {
        let ghost before = raw_view(raw@);
        let ghost raw_before = raw@;
        let e = raw.remove(0);
        let ghost s = raw_view(sorted@);
        let ghost ev = (e.0@, e.1@);
        proof {
            assert(before[0] == ev);
            assert forall|k: int| 0 <= k < raw@.len() implies #[trigger] raw_view(raw@)[k] == input.skip(taken + 1)[k] by {
                assert(raw@[k] == raw_before[k + 1]);
                assert(before[k + 1] == input.skip(taken as int)[k + 1]);
            }
            assert(raw_view(raw@) =~= input.skip(taken + 1));
            assert(input.take(taken + 1).drop_last() =~= input.take(taken as int));
            assert(input.take(taken + 1).last() == input[taken as int]);
            assert(input[taken as int] == before[0]);
        }
        let ke = path_key(e.0.as_str());
        let mut j = sorted.len();
        while j > 0 && components_less(&ke, &keys[j - 1])
            invariant
                j <= sorted@.len(),
                keys@.len() == sorted@.len(),
                s == raw_view(sorted@),
                key_view(ke@) == path_components(ev.0),
                forall|k: int| 0 <= k < keys@.len() ==> key_view(#[trigger] keys@[k]@) == path_components(sorted@[k].0@),
                forall|k: int| j <= k < s.len() ==> path_lt(ev.0, #[trigger] s[k].0),
            decreases j,
        {
            assert(key_view(keys@[j - 1]@) == path_components(s[j - 1].0));
            j = j - 1;
        }
        proof {
            lemma_insert_split(s, ev, j as int);
            if j > 0 {
                assert(key_view(keys@[j - 1]@) == path_components(s[j - 1].0));
                assert(s.take(j as int).last() == s[j - 1]);
                assert(s.take(j as int).drop_last() =~= s.take(j - 1));
                assert(!path_lt(ev.0, s.take(j as int).last().0));
                assert(insert_by_path(s.take(j as int), ev) == s.take(j as int).push(ev));
            } else {
                assert(s.take(0) =~= Seq::<(Seq<char>, Seq<u8>)>::empty());
            }
        }
        let ghost old_keys = keys@;
        let ghost old_sorted = sorted@;
        sorted.insert(j, e);
        keys.insert(j, ke);
        proof {
            assert(raw_view(sorted@) =~= s.take(j as int).push(ev) + s.skip(j as int));
            assert(raw_view(sorted@) == insert_by_path(s, ev));
            assert forall|k: int| 0 <= k < keys@.len() implies key_view(#[trigger] keys@[k]@) == path_components(sorted@[k].0@) by {
                if k < j {
                    assert(keys@[k] == old_keys[k] && sorted@[k] == old_sorted[k]);
                } else if k > j {
                    assert(keys@[k] == old_keys[k - 1] && sorted@[k] == old_sorted[k - 1]);
                }
            }
        }
        taken = taken + 1;
    }
    assert(input.take(total as int) =~= input);
    // Number the pages in their new order.
    let ghost ordered = raw_view(sorted@);
    let mut pages: Vec<ArchiveEntry> = Vec::new();
    while sorted.len() > 0
        invariant
            ordered.len() == pages@.len() + sorted@.len(),
            raw_view(sorted@) == ordered.skip(pages@.len() as int),
            entries_view(pages@) == ordered.take(pages@.len() as int),
            forall|i: int| 0 <= i < pages@.len() ==> #[trigger] pages@[i].page_index == i,
        decreases sorted@.len(),
    {
        let ghost before = raw_view(sorted@);
        let ghost n = pages@.len() as int;
        let ghost sorted_before = sorted@;
        let (path, data) = sorted.remove(0);
        let page_index = pages.len();
        pages.push(ArchiveEntry { path, data, page_index });
        proof {
            assert(before[0] == ordered[n as int]);
            assert forall|k: int| 0 <= k < sorted@.len() implies #[trigger] raw_view(sorted@)[k] == ordered.skip(n + 1)[k] by {
                assert(sorted@[k] == sorted_before[k + 1]);
                assert(before[k + 1] == ordered.skip(n)[k + 1]);
            }
            assert(raw_view(sorted@) =~= ordered.skip(n + 1));
            assert(entries_view(pages@) =~= ordered.take(n + 1));
        }
    }
    assert(ordered.take(ordered.len() as int) =~= ordered);
    pages
}

/// The archive type of a path on disk: a directory is a folder; a file is
/// recognized by its extension, and a file without one is of no known type.
pub open spec fn archive_type_on_disk(p: Seq<char>, is_dir: bool) -> Option<ArchiveType> {
    if is_dir {
        Some(ArchiveType::Folder)
    } else {
        match path_extension(p) {
            None => None,
            Some(ext) => archive_type_of_extension(ext),
        }
    }
}

impl ArchiveType {
    /// Detect the archive type of a path on disk, `is_dir` telling whether it names
    /// a directory.
    pub fn from_path_on_disk(path: &str, is_dir: bool) -> (r: Option<ArchiveType>)
        ensures
            r == archive_type_on_disk(path@, is_dir),
    {
        if is_dir {
            Some(ArchiveType::Folder)
        } else if extension_bounds(&chars_of(path)).is_none() {
            None
        } else {
            ArchiveType::from_path(path)
        }
    }
}

/// Whether an archive member is a page: a file (not a directory) whose name looks
/// like an image.
pub fn is_page_entry(name: &str, is_dir: bool) -> (r: bool)
    ensures
        r == (!is_dir && is_image_name(name@)),
{
    !is_dir && is_image_filename(name)
}

/// The image entries of `s`: those whose paths look like images, in their order.
pub open spec fn image_entries(s: Seq<(Seq<char>, Seq<u8>)>) -> Seq<(Seq<char>, Seq<u8>)> {
    s.filter(|e: (Seq<char>, Seq<u8>)| is_image_name(e.0))
}

/// Keep the entries whose paths look like images, in their order.
pub fn keep_image_entries(raw: Vec<(String, Vec<u8>)>) -> (kept: Vec<(String, Vec<u8>)>)
    ensures
        raw_view(kept@) == image_entries(raw_view(raw@)),
{
    let ghost input = raw_view(raw@);
    let mut raw = raw;
    let mut kept: Vec<(String, Vec<u8>)> = Vec::new();
    let ghost mut taken: int = 0;
    proof {
        reveal(Seq::filter);
        assert(input.take(0) =~= Seq::<(Seq<char>, Seq<u8>)>::empty());
        assert(raw_view(raw@) =~= input.skip(0));
    }
    while raw.len() > 0
        invariant
            taken + raw@.len() == input.len(),
            0 <= taken <= input.len(),
            raw_view(raw@) == input.skip(taken),
            raw_view(kept@) == image_entries(input.take(taken)),
        decreases raw@.len(),
    {
        let ghost before = raw_view(raw@);
        let ghost raw_before = raw@;
        let ghost kept_before = kept@;
        let e = raw.remove(0);
        let ghost ev = (e.0@, e.1@);
        proof {
            assert(before[0] == ev);
            assert(input[taken] == ev);
            assert forall|k: int| 0 <= k < raw@.len() implies #[trigger] raw_view(raw@)[k] == input.skip(taken + 1)[k] by {
                assert(raw@[k] == raw_before[k + 1]);
                assert(before[k + 1] == input.skip(taken)[k + 1]);
            }
            assert(raw_view(raw@) =~= input.skip(taken + 1));
            assert(input.take(taken + 1).drop_last() =~= input.take(taken));
            assert(input.take(taken + 1).last() == ev);
            reveal(Seq::filter);
        }
        if is_image_filename(e.0.as_str()) {
            kept.push(e);
            proof {
                assert(raw_view(kept@) =~= raw_view(kept_before).push(ev));
            }
        }
        proof {
            taken = taken + 1;
        }
    }
    assert(input.take(taken) =~= input);
    kept
}

/// Every page taken from the image entries of `s` and put in path order has a path
/// that looks like an image.
proof fn lemma_ordered_images(s: Seq<(Seq<char>, Seq<u8>)>)
    ensures
        forall|i: int| 0 <= i < sort_by_path(image_entries(s)).len()
            ==> is_image_name(#[trigger] sort_by_path(image_entries(s))[i].0),
{
    broadcast use vstd::seq_lib::group_to_multiset_ensures;
    broadcast use vstd::seq_lib::group_filter_ensures;
    let f = image_entries(s);
    let o = sort_by_path(f);
    law_pages_in_path_order(f);
    assert forall|i: int| 0 <= i < o.len() implies is_image_name(#[trigger] o[i].0) by {
        let x = o[i];
        assert(o.contains(x));
        assert(o.to_multiset().count(x) > 0);
        assert(f.to_multiset().count(x) > 0);
        assert(f.contains(x));
        let k = choose|k: int| 0 <= k < f.len() && f[k] == x;
        assert(f[k] == x);
    }
}

/// Extract all pages of the archive at `path` (`is_dir` telling whether it is a
/// directory): its type is detected, `read` gives the paths and bytes of its
/// entries, and those whose paths look like images are ordered by path and
/// numbered. Any other kind of file, a PDF among them (no PDF decoder is among the
/// engine's crates), is an unsupported archive type.
pub fn extract<F>(path: &str, is_dir: bool, read: F) -> (r: Result<Vec<ArchiveEntry>, String>)
    where
        F: FnOnce(ArchiveType) -> Result<Vec<(String, Vec<u8>)>, String>,
    requires
        forall|t: ArchiveType| read.requires((t,)),
    ensures
        match archive_type_on_disk(path@, is_dir) {
            None => r is Err && r->Err_0@ == "Unsupported archive type: "@ + path@,
            Some(t) => exists|raw: Result<Vec<(String, Vec<u8>)>, String>| {
                &&& read.ensures((t,), raw)
                &&& match raw {
                    Err(e) => r is Err && r->Err_0 == e,
                    Ok(v) => {
                        &&& r is Ok
                        &&& entries_view(r->Ok_0@) == sort_by_path(image_entries(raw_view(v@)))
                        &&& forall|i: int| 0 <= i < r->Ok_0@.len() ==> #[trigger] r->Ok_0@[i].page_index == i
                        &&& forall|i: int| 0 <= i < r->Ok_0@.len() ==> is_image_name(#[trigger] r->Ok_0@[i].path@)
                    },
                }
            },
        },
{
    match ArchiveType::from_path_on_disk(path, is_dir) {
        None => Err(concat2("Unsupported archive type: ", path)),
        Some(t) => {
            let raw = read(t);
            match raw {
                Err(e) => Err(e),
                Ok(v) => {
                    let ghost vv = raw_view(v@);
                    let kept = keep_image_entries(v);
                    let pages = order_pages(kept);
                    proof {
                        lemma_ordered_images(vv);
                        assert forall|i: int| 0 <= i < pages@.len() implies is_image_name(#[trigger] pages@[i].path@) by {
                            assert(entries_view(pages@)[i].0 == pages@[i].path@);
                        }
                    }
                    Ok(pages)
                },
            }
        },
    }
}

// ─── The order of pages ────────────────────────────────────────────

pub(crate) proof fn lemma_chars_lt_asym_total(a: Seq<char>, b: Seq<char>)
    ensures
        !chars_lt(a, a),
        chars_lt(a, b) ==> !chars_lt(b, a),
        a != b ==> chars_lt(a, b) || chars_lt(b, a),
    decreases a.len(),
{
    if a.len() == 0 && b.len() == 0 {
        assert(a =~= b);
    }
    if a.len() > 0 && b.len() > 0 && a[0] != b[0] {
        assert((a[0] as int) != (b[0] as int));
    }
    if a.len() > 0 {
        lemma_chars_lt_asym_total(a.drop_first(), a.drop_first());
    }
    if a.len() > 0 && b.len() > 0 {
        lemma_chars_lt_asym_total(a.drop_first(), b.drop_first());
        if a != b && a[0] == b[0] {
            assert(a.drop_first() != b.drop_first()) by {
                if a.drop_first() == b.drop_first() {
                    assert(a =~= seq![a[0]] + a.drop_first());
                    assert(b =~= seq![b[0]] + b.drop_first());
                }
            }
        }
    }
}

pub(crate) proof fn lemma_chars_lt_trans(a: Seq<char>, b: Seq<char>, c: Seq<char>)
    ensures
        chars_lt(a, b) && chars_lt(b, c) ==> chars_lt(a, c),
    decreases a.len(),
{
    if a.len() > 0 && b.len() > 0 && c.len() > 0 {
        lemma_chars_lt_trans(a.drop_first(), b.drop_first(), c.drop_first());
    }
}

proof fn lemma_components_lt_asym_total(a: Seq<(u8, Seq<char>)>, b: Seq<(u8, Seq<char>)>)
    ensures
        !components_lt(a, a),
        components_lt(a, b) ==> !components_lt(b, a),
        a != b ==> components_lt(a, b) || components_lt(b, a),
    decreases a.len(),
{
    if a.len() == 0 && b.len() == 0 {
        assert(a =~= b);
    }
    if a.len() > 0 {
        lemma_components_lt_asym_total(a.drop_first(), a.drop_first());
    }
    if a.len() > 0 && b.len() > 0 {
        lemma_components_lt_asym_total(a.drop_first(), b.drop_first());
        lemma_chars_lt_asym_total(a[0].1, b[0].1);
        if a != b && a[0] == b[0] {
            assert(a.drop_first() != b.drop_first()) by {
                if a.drop_first() == b.drop_first() {
                    assert(a =~= seq![a[0]] + a.drop_first());
                    assert(b =~= seq![b[0]] + b.drop_first());
                }
            }
        }
    }
}

proof fn lemma_components_lt_trans(a: Seq<(u8, Seq<char>)>, b: Seq<(u8, Seq<char>)>, c: Seq<(u8, Seq<char>)>)
    ensures
        components_lt(a, b) && components_lt(b, c) ==> components_lt(a, c),
    decreases a.len(),
{
    if a.len() > 0 && b.len() > 0 && c.len() > 0 {
        lemma_components_lt_trans(a.drop_first(), b.drop_first(), c.drop_first());
        lemma_chars_lt_trans(a[0].1, b[0].1, c[0].1);
        lemma_chars_lt_asym_total(a[0].1, b[0].1);
        lemma_chars_lt_asym_total(b[0].1, c[0].1);
        lemma_chars_lt_asym_total(a[0].1, c[0].1);
    }
}

/// Path order: irreflexive, asymmetric, transitive, and "sorts no later than" is
/// transitive too.
proof fn lemma_path_order(x: Seq<char>, y: Seq<char>, z: Seq<char>)
    ensures
        !path_lt(x, x),
        path_lt(x, y) ==> !path_lt(y, x),
        path_lt(x, y) && path_lt(y, z) ==> path_lt(x, z),
        !path_lt(y, x) && !path_lt(z, y) ==> !path_lt(z, x),
{
    let (a, b, c) = (path_components(x), path_components(y), path_components(z));
    lemma_components_lt_asym_total(a, b);
    lemma_components_lt_asym_total(b, c);
    lemma_components_lt_asym_total(a, c);
    lemma_components_lt_trans(a, b, c);
    lemma_components_lt_trans(c, b, a);
    lemma_components_lt_trans(c, a, b);
    lemma_components_lt_trans(b, c, a);
}

/// Entries in path order: none sorts before an entry ahead of it.
pub open spec fn in_path_order(s: Seq<(Seq<char>, Seq<u8>)>) -> bool {
    forall|i: int, j: int| 0 <= i < j < s.len() ==> !path_lt(#[trigger] s[j].0, #[trigger] s[i].0)
}

proof fn lemma_insert_by_path(s: Seq<(Seq<char>, Seq<u8>)>, e: (Seq<char>, Seq<u8>))
    requires
        in_path_order(s),
    ensures
        in_path_order(insert_by_path(s, e)),
        insert_by_path(s, e).to_multiset() == s.to_multiset().insert(e),
    decreases s.len(),
{
    broadcast use vstd::seq_lib::group_to_multiset_ensures;
    let t = insert_by_path(s, e);
    if s.len() == 0 {
        assert(seq![e] =~= Seq::<(Seq<char>, Seq<u8>)>::empty().push(e));
    } else if path_lt(e.0, s.last().0) {
        let d = s.drop_last();
        assert(in_path_order(d)) by {
            assert forall|i: int, j: int| 0 <= i < j < d.len() implies !path_lt(#[trigger] d[j].0, #[trigger] d[i].0) by {
                assert(d[i] == s[i] && d[j] == s[j]);
            }
        }
        lemma_insert_by_path(d, e);
        let u = insert_by_path(d, e);
        assert(s =~= d.push(s.last()));
        assert(t.to_multiset() =~= s.to_multiset().insert(e));
        assert forall|i: int, j: int| 0 <= i < j < t.len() implies !path_lt(#[trigger] t[j].0, #[trigger] t[i].0) by {
            if j == t.len() - 1 {
                let x = t[i];
                assert(x == u[i]);
                assert(u.contains(x));
                if x == e {
                    lemma_path_order(e.0, s.last().0, e.0);
                } else {
                    assert(u.to_multiset().count(x) > 0);
                    assert(d.to_multiset().insert(e).count(x) == d.to_multiset().count(x));
                    assert(d.to_multiset().count(x) > 0);
                    assert(d.contains(x));
                    let k = choose|k: int| 0 <= k < d.len() && d[k] == x;
                    assert(s[k] == x);
                    assert(!path_lt(s[s.len() - 1].0, s[k].0));
                }
            } else {
                assert(t[i] == u[i] && t[j] == u[j]);
            }
        }
    } else {
        assert forall|i: int, j: int| 0 <= i < j < t.len() implies !path_lt(#[trigger] t[j].0, #[trigger] t[i].0) by {
            if j == t.len() - 1 {
                if i < s.len() - 1 {
                    assert(!path_lt(s[s.len() - 1].0, s[i].0));
                    lemma_path_order(s[i].0, s[s.len() - 1].0, e.0);
                }
            } else {
                assert(t[i] == s[i] && t[j] == s[j]);
            }
        }
    }
}

/// The pages of an archive come out in path order, and they are exactly the
/// archive's image entries, each as often as it occurs there.
pub proof fn law_pages_in_path_order(s: Seq<(Seq<char>, Seq<u8>)>)
    ensures
        in_path_order(sort_by_path(s)),
        sort_by_path(s).to_multiset() == s.to_multiset(),
    decreases s.len(),
{
    broadcast use vstd::seq_lib::group_to_multiset_ensures;
    if s.len() > 0 {
        law_pages_in_path_order(s.drop_last());
        lemma_insert_by_path(sort_by_path(s.drop_last()), s.last());
        assert(s =~= s.drop_last().push(s.last()));
    }
}

} // verus!
