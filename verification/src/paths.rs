//! Paths as sequences of components: lexical normalisation, and the path of
//! a target relative to the repository root.
use vstd::prelude::*;

use vstd::utf8::{decode_utf8, valid_utf8};

use crate::text::{append_str, debug_quoted, decode, owned, quote, string_of_range};
use crate::AppError;

verus! {

/// One component of a path, as `Path::components` yields it.
#[derive(Debug, Clone)]
pub enum PathPart {
    /// The root directory `/`.
    Root,
    /// `.`
    Current,
    /// `..`
    Parent,
    /// A file or directory name, as the bytes that the platform gives.
    Normal(Vec<u8>),
}

/// A path after lexical normalisation: whether it starts at the root, and
/// its names.
pub struct NormalPath {
    pub absolute: bool,
    pub names: Vec<Vec<u8>>,
}

/// The bytes of `names`.
pub open spec fn names_view(names: Seq<Vec<u8>>) -> Seq<Seq<u8>> {
    names.map_values(|s: Vec<u8>| s@)
}

/// A copy of the bytes `v`.
fn copy_bytes(v: &Vec<u8>) -> (r: Vec<u8>)
    ensures
        r@ == v@,
{
    let mut r: Vec<u8> = Vec::new();
    let mut i: usize = 0;
    while i < v.len()
        invariant
            0 <= i <= v.len(),
            r@ == v@.take(i as int),
        decreases v.len() - i,
    {
        r.push(v[i]);
        assert(v@.take(i + 1) =~= v@.take(i as int).push(v@[i as int]));
        i += 1;
    }
    assert(v@.take(v.len() as int) =~= v@);
    r
}

/// Whether `a` and `b` hold the same bytes.
fn same_bytes(a: &Vec<u8>, b: &Vec<u8>) -> (r: bool)
    ensures
        r == (a@ == b@),
{
    if a.len() != b.len() {
        return false;
    }
    let mut i: usize = 0;
    while i < a.len()
        invariant
            0 <= i <= a.len() == b.len(),
            forall|j: int| 0 <= j < i ==> a@[j] == b@[j],
        decreases a.len() - i,
    {
        if a[i] != b[i] {
            return false;
        }
        i += 1;
    }
    assert(a@ =~= b@);
    true
}

/// The lexical normal form of `parts`: `.` dropped, `..` removing the name
/// before it where there is one, the root starting over.
pub open spec fn normalize(parts: Seq<PathPart>) -> (bool, Seq<Seq<u8>>)
    decreases parts.len(),
{
    if parts.len() == 0 {
        (false, Seq::empty())
    } else {
        let (absolute, names) = normalize(parts.drop_last());
        match parts.last() {
            PathPart::Root => (true, Seq::empty()),
            PathPart::Current => (absolute, names),
            PathPart::Parent => (absolute, if names.len() > 0 {
                names.drop_last()
            } else {
                names
            }),
            PathPart::Normal(n) => (absolute, names.push(n@)),
        }
    }
}

/// `a` and `b` are the same component: the same kind, and the same bytes
/// for a name.
pub open spec fn same_part(a: PathPart, b: PathPart) -> bool {
    match (a, b) {
        (PathPart::Root, PathPart::Root) => true,
        (PathPart::Current, PathPart::Current) => true,
        (PathPart::Parent, PathPart::Parent) => true,
        (PathPart::Normal(x), PathPart::Normal(y)) => x@ == y@,
        _ => false,
    }
}

/// `a` and `b` are the same components, in the same order.
pub open spec fn same_parts(a: Seq<PathPart>, b: Seq<PathPart>) -> bool {
    &&& a.len() == b.len()
    &&& forall|i: int| 0 <= i < a.len() ==> same_part(#[trigger] a[i], b[i])
}

/// The same components normalize alike.
proof fn lemma_normalize_same(a: Seq<PathPart>, b: Seq<PathPart>)
    requires
        same_parts(a, b),
    ensures
        normalize(a) == normalize(b),
    decreases a.len(),
{
    if a.len() > 0 {
        assert(same_parts(a.drop_last(), b.drop_last())) by {
            assert forall|i: int| 0 <= i < a.len() - 1 implies same_part(
                #[trigger] a.drop_last()[i],
                b.drop_last()[i],
            ) by {
                assert(same_part(a[i], b[i]));
            }
        }
        lemma_normalize_same(a.drop_last(), b.drop_last());
        assert(same_part(a[a.len() - 1], b[b.len() - 1]));
    }
}

/// A copy of `part`.
fn copy_part(part: &PathPart) -> (r: PathPart)
    ensures
        same_part(r, *part),
{
    match part {
        PathPart::Root => PathPart::Root,
        PathPart::Current => PathPart::Current,
        PathPart::Parent => PathPart::Parent,
        PathPart::Normal(name) => PathPart::Normal(copy_bytes(name)),
    }
}

/// Normalises a path lexically, without reading the file system.
pub fn normalize_path(parts: &Vec<PathPart>) -> (r: NormalPath)
    ensures
        (r.absolute, names_view(r.names@)) == normalize(parts@),
{
    let mut absolute = false;
    let mut names: Vec<Vec<u8>> = Vec::new();
    let mut i: usize = 0;
    while i < parts.len()
        invariant
            0 <= i <= parts.len(),
            (absolute, names_view(names@)) == normalize(parts@.take(i as int)),
        decreases parts.len() - i,
    {
        assert(parts@.take(i + 1).drop_last() =~= parts@.take(i as int));
        assert(parts@.take(i + 1).last() == parts@[i as int]);
        let ghost before = names_view(names@);
        match &parts[i] {
            PathPart::Root => {
                absolute = true;
                names = Vec::new();
                assert(names_view(names@) =~= Seq::<Seq<u8>>::empty());
            },
            PathPart::Current => {},
            PathPart::Parent => {
                if names.len() > 0 {
                    names.pop();
                    assert(names_view(names@) =~= before.drop_last());
                }
            },
            PathPart::Normal(name) => {
                names.push(copy_bytes(name));
                assert(names_view(names@) =~= before.push(name@));
            },
        }
        i += 1;
    }
    assert(parts@.take(parts.len() as int) =~= parts@);
    NormalPath { absolute, names }
}

/// The names of `path` after those of `base`, when `path` lies inside `base`.
pub open spec fn relative_names(path: (bool, Seq<Seq<u8>>), base: (bool, Seq<Seq<u8>>)) -> Option<
    Seq<Seq<u8>>,
> {
    if path.0 == base.0 && base.1.len() <= path.1.len() && path.1.take(base.1.len() as int)
        == base.1 {
        Some(path.1.skip(base.1.len() as int))
    } else {
        None
    }
}

/// The names of `path` after those of `base`, when `path` lies inside `base`.
pub fn strip_base(path: &NormalPath, base: &NormalPath) -> (r: Option<Vec<Vec<u8>>>)
    ensures
        match r {
            Some(v) => relative_names(
                (path.absolute, names_view(path.names@)),
                (base.absolute, names_view(base.names@)),
            ) == Some(names_view(v@)),
            None => relative_names(
                (path.absolute, names_view(path.names@)),
                (base.absolute, names_view(base.names@)),
            ) is None,
        },
{
    let ghost p = names_view(path.names@);
    let ghost b = names_view(base.names@);
    if path.absolute != base.absolute || base.names.len() > path.names.len() {
        return None;
    }
    let mut i: usize = 0;
    while i < base.names.len()
        invariant
            0 <= i <= base.names.len() <= path.names.len(),
            p == names_view(path.names@),
            b == names_view(base.names@),
            forall|j: int| 0 <= j < i ==> p[j] == b[j],
        decreases base.names.len() - i,
    {
        if !same_bytes(&path.names[i], &base.names[i]) {
            assert(p.take(b.len() as int)[i as int] != b[i as int]);
            return None;
        }
        i += 1;
    }
    assert(p.take(b.len() as int) =~= b);
    let mut rest: Vec<Vec<u8>> = Vec::new();
    let mut k = base.names.len();
    while k < path.names.len()
        invariant
            base.names.len() <= k <= path.names.len(),
            p == names_view(path.names@),
            names_view(rest@) == p.subrange(b.len() as int, k as int),
            b.len() == base.names.len(),
        decreases path.names.len() - k,
    {
        let ghost before = names_view(rest@);
        rest.push(copy_bytes(&path.names[k]));
        assert(names_view(rest@) =~= before.push(p[k as int]));
        k += 1;
    }
    assert(names_view(rest@) =~= p.skip(b.len() as int));
    Some(rest)
}

/// The message for a target outside the repository.
pub open spec fn outside_message(raw_path: Seq<char>) -> Seq<char> {
    "file "@ + debug_quoted(raw_path) + " is outside the current Git repository"@
}

/// `"file "`, the quoted path, and `rest`.
fn file_message(raw_path: &str, rest: &str) -> (m: String)
    ensures
        m@ == "file "@ + debug_quoted(raw_path@) + rest@,
{
    let mut m = owned("file ");
    let q = quote(raw_path);
    append_str(&mut m, q.as_str());
    append_str(&mut m, rest);
    m
}

/// The error for a target outside the repository.
pub fn outside_error(raw_path: &str) -> (e: AppError)
    ensures
        e.0@ == outside_message(raw_path@),
{
    AppError(file_message(raw_path, " is outside the current Git repository"))
}

/// The error for a target reached through a symbolic link.
pub fn symlink_error(raw_path: &str) -> (e: AppError)
    ensures
        e.0@ == "file "@ + debug_quoted(raw_path@)
            + " passes through a symbolic link; use its tracked path instead"@,
{
    AppError(file_message(raw_path, " passes through a symbolic link; use its tracked path instead"))
}

/// The error for a target that does not exist.
pub fn missing_error(raw_path: &str) -> (e: AppError)
    ensures
        e.0@ == "file "@ + debug_quoted(raw_path@) + " does not exist"@,
{
    AppError(file_message(raw_path, " does not exist"))
}

/// The error for a target that is no regular file.
pub fn not_file_error(raw_path: &str) -> (e: AppError)
    ensures
        e.0@ == debug_quoted(raw_path@) + " is not a file"@,
{
    let mut m = quote(raw_path);
    append_str(&mut m, " is not a file");
    AppError(m)
}

/// A supplied path is absolute when it starts at the root.
pub open spec fn is_absolute(parts: Seq<PathPart>) -> bool {
    parts.len() > 0 && parts[0] is Root
}

/// Where a supplied path leads: itself when absolute, else from the current
/// directory.
pub open spec fn joined(current_dir: Seq<PathPart>, supplied: Seq<PathPart>) -> Seq<PathPart> {
    if is_absolute(supplied) {
        supplied
    } else {
        current_dir + supplied
    }
}

/// The names, relative to the repository root, of the path that a target
/// supplies, read from the current directory; or the message that rejects
/// it.
pub open spec fn target_names(
    root: Seq<PathPart>,
    current_dir: Seq<PathPart>,
    supplied: Seq<PathPart>,
    raw_path: Seq<char>,
) -> Result<Seq<Seq<u8>>, Seq<char>> {
    match relative_names(normalize(joined(current_dir, supplied)), normalize(root)) {
        Some(names) => Ok(names),
        None => Err(outside_message(raw_path)),
    }
}

/// The names, relative to the repository root `root`, of the target path
/// `supplied` read from `current_dir`, after lexical normalisation.
pub fn relative_target(
    root: &Vec<PathPart>,
    current_dir: &Vec<PathPart>,
    supplied: &Vec<PathPart>,
    raw_path: &str,
) -> (r: Result<Vec<Vec<u8>>, AppError>)
    ensures
        match r {
            Ok(v) => target_names(root@, current_dir@, supplied@, raw_path@) == Ok::<
                Seq<Seq<u8>>,
                Seq<char>,
            >(names_view(v@)),
            Err(e) => target_names(root@, current_dir@, supplied@, raw_path@) == Err::<
                Seq<Seq<u8>>,
                Seq<char>,
            >(e.0@),
        },
{
    let absolute = supplied.len() > 0 && match &supplied[0] {
        PathPart::Root => true,
        _ => false,
    };
    let mut all: Vec<PathPart> = Vec::new();
    if !absolute {
        let mut i: usize = 0;
        while i < current_dir.len()
            invariant
                0 <= i <= current_dir.len(),
                same_parts(all@, current_dir@.take(i as int)),
            decreases current_dir.len() - i,
        {
            all.push(copy_part(&current_dir[i]));
            assert(same_parts(all@, current_dir@.take(i + 1))) by {
                assert forall|m: int| 0 <= m < all@.len() implies same_part(
                    #[trigger] all@[m],
                    current_dir@.take(i + 1)[m],
                ) by {
                    if m < i {
                        assert(same_part(all@[m], current_dir@.take(i as int)[m]));
                    }
                }
            }
            i += 1;
        }
    }
    let ghost front: Seq<PathPart> = if absolute {
        Seq::empty()
    } else {
        current_dir@
    };
    assert(same_parts(all@, front)) by {
        if !absolute {
            assert(current_dir@.take(current_dir.len() as int) =~= current_dir@);
        }
    }
    let mut j: usize = 0;
    while j < supplied.len()
        invariant
            0 <= j <= supplied.len(),
            same_parts(all@, front + supplied@.take(j as int)),
        decreases supplied.len() - j,
    {
        all.push(copy_part(&supplied[j]));
        assert(same_parts(all@, front + supplied@.take(j + 1))) by {
            let goal = front + supplied@.take(j + 1);
            assert forall|m: int| 0 <= m < all@.len() implies same_part(
                #[trigger] all@[m],
                goal[m],
            ) by {
                if m < all@.len() - 1 {
                    assert(same_part(all@[m], (front + supplied@.take(j as int))[m]));
                    assert(goal[m] == (front + supplied@.take(j as int))[m]);
                } else {
                    assert(goal[m] == supplied@[j as int]);
                }
            }
        }
        j += 1;
    }
    assert(supplied@.take(supplied.len() as int) =~= supplied@);
    assert(front + supplied@ =~= joined(current_dir@, supplied@));
    proof {
        lemma_normalize_same(all@, joined(current_dir@, supplied@));
    }
    let candidate = normalize_path(&all);
    let base = normalize_path(root);
    match strip_base(&candidate, &base) {
        Some(names) => Ok(names),
        None => Err(outside_error(raw_path)),
    }
}

/// The bytes of a path relative to the repository root: its names joined
/// by `/`.
pub open spec fn joined_names(names: Seq<Seq<u8>>) -> Seq<u8>
    decreases names.len(),
{
    if names.len() == 0 {
        Seq::empty()
    } else if names.len() == 1 {
        names[0]
    } else {
        joined_names(names.drop_last()) + seq![47u8] + names.last()
    }
}

/// The path that Git knows a file by, or the message for a path that is no
/// UTF-8.
pub open spec fn tracked_path_result(names: Seq<Seq<u8>>) -> Result<Seq<char>, Seq<char>> {
    if valid_utf8(joined_names(names)) {
        Ok(decode_utf8(joined_names(names)))
    } else {
        Err("non-UTF-8 file paths are not supported"@)
    }
}

/// Joins the names of a path relative to the repository root with `/`; the
/// path must be UTF-8.
pub fn tracked_path(names: &Vec<Vec<u8>>) -> (r: Result<String, AppError>)
    ensures
        match r {
            Ok(s) => tracked_path_result(names_view(names@)) == Ok::<Seq<char>, Seq<char>>(s@),
            Err(e) => tracked_path_result(names_view(names@)) == Err::<Seq<char>, Seq<char>>(
                e.0@,
            ),
        },
{
    let ghost ns = names_view(names@);
    let mut bytes: Vec<u8> = Vec::new();
    let mut i: usize = 0;
    while i < names.len()
        invariant
            0 <= i <= names.len(),
            ns == names_view(names@),
            bytes@ == joined_names(ns.take(i as int)),
        decreases names.len() - i,
    {
        assert(ns.take(i + 1).drop_last() =~= ns.take(i as int));
        assert(ns.take(i + 1).last() == names@[i as int]@);
        let ghost start = bytes@;
        if i > 0 {
            bytes.push(47u8);
        } else {
            assert(bytes@ =~= Seq::<u8>::empty());
        }
        let ghost middle = bytes@;
        let name = &names[i];
        let mut k: usize = 0;
        while k < name.len()
            invariant
                0 <= k <= name.len(),
                bytes@ == middle + name@.take(k as int),
            decreases name.len() - k,
        {
            bytes.push(name[k]);
            assert(name@.take(k + 1) =~= name@.take(k as int).push(name@[k as int]));
            k += 1;
        }
        assert(name@.take(name.len() as int) =~= name@);
        proof {
            if i > 0 {
                assert(bytes@ =~= joined_names(ns.take(i + 1)));
            } else {
                assert(ns.take(1) =~= seq![ns[0]]);
                assert(bytes@ =~= joined_names(ns.take(i + 1)));
            }
        }
        i += 1;
    }
    assert(ns.take(names.len() as int) =~= ns);
    match decode(bytes.as_slice()) {
        Some(chars) => {
            assert(chars@.subrange(0, chars@.len() as int) =~= chars@);
            Ok(string_of_range(&chars, 0, chars.len()))
        },
        None => Err(AppError(owned("non-UTF-8 file paths are not supported"))),
    }
}

/// `parts` is in normal form: the root at most at its start, every other
/// part a name.
pub open spec fn in_normal_form(parts: Seq<PathPart>) -> bool {
    forall|i: int|
        0 <= i < parts.len() ==> (#[trigger] parts[i] is Normal || (i == 0 && parts[i] is Root))
}

/// The names of `parts`, as bytes.
pub open spec fn part_names(parts: Seq<PathPart>) -> Seq<Seq<u8>>
    decreases parts.len(),
{
    if parts.len() == 0 {
        Seq::empty()
    } else {
        match parts.last() {
            PathPart::Normal(n) => part_names(parts.drop_last()).push(n@),
            _ => part_names(parts.drop_last()),
        }
    }
}

/// A path in normal form normalizes to itself: it starts at the root when
/// its first part is the root, and keeps all its names. So normalizing the
/// normal form of a path again changes nothing.
pub proof fn lemma_normalize_idempotent(parts: Seq<PathPart>)
    requires
        in_normal_form(parts),
    ensures
        normalize(parts) == (parts.len() > 0 && parts[0] is Root, part_names(parts)),
    decreases parts.len(),
{
    if parts.len() > 0 {
        let prev = parts.drop_last();
        assert forall|i: int| 0 <= i < prev.len() implies (#[trigger] prev[i] is Normal || (i == 0
            && prev[i] is Root)) by {
            assert(prev[i] == parts[i]);
        }
        lemma_normalize_idempotent(prev);
        assert(parts.last() == parts[parts.len() - 1]);
        if parts.len() > 1 {
            assert(prev[0] == parts[0]);
        } else {
            assert(prev =~= Seq::<PathPart>::empty());
        }
    }
}


/// A relative target read from a subdirectory names the same file as the
/// target with that subdirectory in front, read from the directory above.
pub proof fn lemma_target_from_subdirectory(
    root: Seq<PathPart>,
    current_dir: Seq<PathPart>,
    subdirectory: Seq<PathPart>,
    supplied: Seq<PathPart>,
    raw_path: Seq<char>,
)
    requires
        !is_absolute(subdirectory),
        !is_absolute(supplied),
    ensures
        target_names(root, current_dir + subdirectory, supplied, raw_path) == target_names(
            root,
            current_dir,
            subdirectory + supplied,
            raw_path,
        ),
{
    if subdirectory.len() > 0 {
        assert((subdirectory + supplied)[0] == subdirectory[0]);
    } else {
        assert(subdirectory + supplied =~= supplied);
    }
    assert(joined(current_dir + subdirectory, supplied) =~= joined(
        current_dir,
        subdirectory + supplied,
    ));
}

} // verus!
