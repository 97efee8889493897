//! Paths given on the command line must stay inside the project.
//!
//! The check is made on the path as the file system resolves it (symbolic
//! links followed), which the caller works out and passes in together with
//! the canonical project directory; the path as given must not name a parent
//! directory either.
//!
//! Paths are Unix paths held as text. Their components follow
//! `std::path::Path::components`: a leading `/` is the root, separators that
//! repeat or trail are ignored, `.` is dropped (at the start of a relative
//! path it stands for the current directory, which comes to the same once
//! the path is joined to a base), and `..` refers to the parent.
use vstd::prelude::*;

use crate::text::chars_of;

verus! {

/// Why a path was refused.
#[derive(PartialEq, Eq, Structural, Clone, Copy, Debug)]
pub enum PathError {
    /// The path has a `..` component.
    ParentReference,
    /// The path, resolved, is not under the project directory.
    OutsideProject,
}

impl PathError {
    /// The message shown for this error.
    pub fn message(&self) -> (s: String)
        ensures
            s@ == path_error_message(*self),
    {
        match self {
            PathError::ParentReference => String::from_str(
                "Path cannot contain parent directory references (..)",
            ),
            PathError::OutsideProject => String::from_str(
                "Path must be inside the project directory",
            ),
        }
    }
}

pub open spec fn path_error_message(e: PathError) -> Seq<char> {
    match e {
        PathError::ParentReference => "Path cannot contain parent directory references (..)"@,
        PathError::OutsideProject => "Path must be inside the project directory"@,
    }
}

/// A piece between separators that names something: neither empty nor `.`.
pub open spec fn keep_segment(done: Seq<Seq<char>>, cur: Seq<char>) -> Seq<Seq<char>> {
    if cur.len() == 0 || cur == seq!['.'] {
        done
    } else {
        done.push(cur)
    }
}

/// Splitting left to right: the segments kept so far and the piece being read.
pub open spec fn segment_state(s: Seq<char>) -> (Seq<Seq<char>>, Seq<char>)
    decreases s.len(),
{
    if s.len() == 0 {
        (Seq::empty(), Seq::empty())
    } else {
        let (done, cur) = segment_state(s.drop_last());
        if s.last() == '/' {
            (keep_segment(done, cur), Seq::empty())
        } else {
            (done, cur.push(s.last()))
        }
    }
}

/// The named components of a path, in order (`..` included).
pub open spec fn segments(s: Seq<char>) -> Seq<Seq<char>> {
    keep_segment(segment_state(s).0, segment_state(s).1)
}

/// The path starts at the root.
pub open spec fn is_rooted(s: Seq<char>) -> bool {
    s.len() > 0 && s[0] == '/'
}

/// Some component is `..`.
pub open spec fn has_parent_ref(segs: Seq<Seq<char>>) -> bool {
    exists|i: int| 0 <= i < segs.len() && segs[i] == seq!['.', '.']
}

/// A path's root flag and named components.
pub open spec fn components(p: Seq<char>) -> (bool, Seq<Seq<char>>) {
    (is_rooted(p), segments(p))
}

/// `a` lies under `b`, component by component (`Path::starts_with`).
pub open spec fn is_under(a: (bool, Seq<Seq<char>>), b: (bool, Seq<Seq<char>>)) -> bool {
    a.0 == b.0 && b.1.len() <= a.1.len() && a.1.subrange(0, b.1.len() as int) == b.1
}

/// The verdict on `path`, with `cwd` the canonical project directory and
/// `resolved` the path as the file system resolves it.
pub open spec fn project_path(path: Seq<char>, cwd: Seq<char>, resolved: Seq<char>) -> Result<
    Seq<char>,
    PathError,
> {
    if has_parent_ref(segments(path)) {
        Err(PathError::ParentReference)
    } else if !is_under(components(resolved), components(cwd)) {
        Err(PathError::OutsideProject)
    } else {
        Ok(resolved)
    }
}

/// The named components of a path.
pub fn path_segments(p: &str) -> (segs: Vec<Vec<char>>)
    ensures
        segs@.map_values(|v: Vec<char>| v@) == segments(p@),
{
    let cs = chars_of(p);
    let mut done: Vec<Vec<char>> = Vec::new();
    let mut cur: Vec<char> = Vec::new();
    let mut i: usize = 0;
    while i < cs.len()
        invariant
            i <= cs@.len(),
            cs@ == p@,
            (done@.map_values(|v: Vec<char>| v@), cur@) == segment_state(cs@.take(i as int)),
        decreases cs@.len() - i,
    {
        assert(cs@.take(i + 1).drop_last() == cs@.take(i as int));
        let c = cs[i];
        if c == '/' {
            let ghost before = done@.map_values(|v: Vec<char>| v@);
            if !(cur.len() == 0 || (cur.len() == 1 && cur[0] == '.')) {
                assert(cur@ != seq!['.']);
                done.push(cur);
                assert(done@.map_values(|v: Vec<char>| v@) =~= before.push(cur@));
            } else {
                assert(cur@.len() == 0 || cur@ =~= seq!['.']);
            }
            cur = Vec::new();
        } else {
            cur.push(c);
        }
        i = i + 1;
    }
    assert(cs@.take(cs@.len() as int) == cs@);
    let ghost before = done@.map_values(|v: Vec<char>| v@);
    if !(cur.len() == 0 || (cur.len() == 1 && cur[0] == '.')) {
        assert(cur@ != seq!['.']);
        done.push(cur);
        assert(done@.map_values(|v: Vec<char>| v@) =~= before.push(cur@));
    } else {
        assert(cur@.len() == 0 || cur@ =~= seq!['.']);
    }
    done
}

/// Whether the components `a` lie under the components `b`.
fn is_under_exec(a: &Vec<Vec<char>>, b: &Vec<Vec<char>>) -> (r: bool)
    ensures
        r == (b@.len() <= a@.len() && a@.map_values(|v: Vec<char>| v@).subrange(0, b@.len() as int)
            == b@.map_values(|v: Vec<char>| v@)),
{
    let ghost av = a@.map_values(|v: Vec<char>| v@);
    let ghost bv = b@.map_values(|v: Vec<char>| v@);
    if b.len() > a.len() {
        return false;
    }
    let mut m: usize = 0;
    while m < b.len()
        invariant
            m <= b@.len() <= a@.len(),
            av == a@.map_values(|v: Vec<char>| v@),
            bv == b@.map_values(|v: Vec<char>| v@),
            forall|q: int| 0 <= q < m ==> av[q] == bv[q],
        decreases b@.len() - m,
    {
        let x = &a[m];
        let y = &b[m];
        assert(x@ == av[m as int]);
        assert(y@ == bv[m as int]);
        let same = x.len() == y.len() && crate::text::occurs_at_exec(x, y, 0);
        if !same {
            assert(x@ != y@) by {
                if x@ == y@ {
                    assert(x@.subrange(0, y@.len() as int) == x@);
                }
            }
            assert(av.subrange(0, bv.len() as int)[m as int] != bv[m as int]);
            return false;
        }
        assert(x@ =~= y@);
        m = m + 1;
    }
    assert(av.subrange(0, bv.len() as int) =~= bv);
    true
}

/// Validates a path given for output: the path as given must not contain
/// `..`, and the path as the file system resolves it (`resolved`, symbolic
/// links followed) must lie under the canonical project directory `cwd`. The
/// result is the resolved path.
pub fn validate_project_path(path: &str, cwd: &str, resolved: &str) -> (r: Result<
    String,
    PathError,
>)
    ensures
        match r {
            Ok(s) => project_path(path@, cwd@, resolved@) == Ok::<Seq<char>, PathError>(s@),
            Err(e) => project_path(path@, cwd@, resolved@) == Err::<Seq<char>, PathError>(e),
        },
{
    let ps = path_segments(path);
    let ghost psv = ps@.map_values(|v: Vec<char>| v@);
    let mut i: usize = 0;
    while i < ps.len()
        invariant
            i <= ps@.len(),
            psv == ps@.map_values(|v: Vec<char>| v@),
            psv == segments(path@),
            forall|j: int| 0 <= j < i ==> psv[j] != seq!['.', '.'],
        decreases ps@.len() - i,
    {
        if ps[i].len() == 2 && ps[i][0] == '.' && ps[i][1] == '.' {
            assert(psv[i as int] =~= seq!['.', '.']);
            assert(has_parent_ref(segments(path@)));
            return Err(PathError::ParentReference);
        }
        assert(psv[i as int] != seq!['.', '.']);
        i = i + 1;
    }
    assert(!has_parent_ref(segments(path@)));
    let rc = chars_of(resolved);
    let cc = chars_of(cwd);
    let rooted_resolved = rc.len() > 0 && rc[0] == '/';
    let rooted_cwd = cc.len() > 0 && cc[0] == '/';
    let rs = path_segments(resolved);
    let cs = path_segments(cwd);
    if rooted_resolved != rooted_cwd || !is_under_exec(&rs, &cs) {
        return Err(PathError::OutsideProject);
    }
    Ok(String::from_str(resolved))
}

/// An accepted path is the resolved path, and it lies under the project
/// directory; a path naming a parent directory is never accepted.
pub proof fn law_accepted_paths_stay_inside(path: Seq<char>, cwd: Seq<char>, resolved: Seq<char>)
    ensures
        project_path(path, cwd, resolved) matches Ok(s) ==> s == resolved && is_under(
            components(s),
            components(cwd),
        ),
        has_parent_ref(segments(path)) ==> project_path(path, cwd, resolved) is Err,
{
}

/// A path with no `..` component whose resolved form lies under the project
/// directory, component by component, is accepted as that resolved path,
/// whether it was given relative or absolute.
pub proof fn law_paths_inside_are_accepted(path: Seq<char>, cwd: Seq<char>, resolved: Seq<char>)
    requires
        forall|i: int| 0 <= i < segments(path).len() ==> segments(path)[i] != seq!['.', '.'],
        is_rooted(resolved) == is_rooted(cwd),
        segments(cwd).len() <= segments(resolved).len(),
        forall|i: int| 0 <= i < segments(cwd).len() ==> segments(resolved)[i] == segments(cwd)[i],
    ensures
        project_path(path, cwd, resolved) == Ok::<Seq<char>, PathError>(resolved),
{
    assert(segments(resolved).subrange(0, segments(cwd).len() as int) =~= segments(cwd));
}

/// Why a path is refused: a `..` component in the path as given is refused
/// as a parent reference, whatever it resolves to; otherwise a resolved path
/// that is not under the project directory, component by component, is
/// refused as outside the project.
pub proof fn law_refused_paths(path: Seq<char>, cwd: Seq<char>, resolved: Seq<char>)
    ensures
        (exists|i: int| 0 <= i < segments(path).len() && #[trigger] segments(path)[i] == seq!['.', '.'])
            ==> project_path(path, cwd, resolved) == Err::<Seq<char>, PathError>(
            PathError::ParentReference,
        ),
        (forall|i: int| 0 <= i < segments(path).len() ==> #[trigger] segments(path)[i] != seq!['.', '.'])
            && !(is_rooted(resolved) == is_rooted(cwd) && segments(cwd).len() <= segments(
            resolved,
        ).len() && forall|i: int|
            0 <= i < segments(cwd).len() ==> #[trigger] segments(resolved)[i] == segments(cwd)[i])
            ==> project_path(path, cwd, resolved) == Err::<Seq<char>, PathError>(
            PathError::OutsideProject,
        ),
{
    if is_under(components(resolved), components(cwd)) {
        assert forall|i: int| 0 <= i < segments(cwd).len() implies #[trigger] segments(resolved)[i]
            == segments(cwd)[i] by {
            assert(segments(resolved).subrange(0, segments(cwd).len() as int)[i] == segments(
                resolved,
            )[i]);
        }
    }
    if is_rooted(resolved) == is_rooted(cwd) && segments(cwd).len() <= segments(resolved).len()
        && forall|i: int|
        0 <= i < segments(cwd).len() ==> #[trigger] segments(resolved)[i] == segments(cwd)[i] {
        assert(segments(resolved).subrange(0, segments(cwd).len() as int) =~= segments(cwd));
    }
}

} // verus!
