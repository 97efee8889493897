//! Workspace discovery: which source directories belong to the workspace,
//! from what `cargo metadata --no-deps` reports. Running cargo and parsing
//! its JSON is left to the caller.
use vstd::prelude::*;

use crate::text::{
    before_char, before_char_exec, chars_of, has_char, has_char_exec, same_chars, slice_chars,
    string_of,
};

verus! {

/// A build target of a package.
pub struct Target {
    pub kind: Vec<String>,
    pub src_path: String,
}

/// A package of the workspace.
pub struct Package {
    pub name: String,
    pub manifest_path: String,
    pub targets: Vec<Target>,
}

/// What `cargo metadata` reports.
pub struct Metadata {
    pub workspace_members: Vec<String>,
    pub packages: Vec<Package>,
}

/// The source directory of a crate.
pub struct CratePath(pub String);

/// The index of the last `c` in `s`.
pub open spec fn last_index_of(s: Seq<char>, c: char) -> Option<int>
    decreases s.len(),
{
    if s.len() == 0 {
        None
    } else if s.last() == c {
        Some(s.len() - 1)
    } else {
        last_index_of(s.drop_last(), c)
    }
}

/// The text of `s` after its last `c` (all of `s` when there is none).
pub open spec fn after_last(s: Seq<char>, c: char) -> Seq<char> {
    match last_index_of(s, c) {
        Some(k) => s.skip(k + 1),
        None => s,
    }
}

/// An ASCII letter.
pub open spec fn is_ascii_letter(c: char) -> bool {
    ('a' <= c <= 'z') || ('A' <= c <= 'Z')
}

/// The package name in a workspace member id, read as cargo reads a package
/// id spec. After the last `#` comes either `name@version`
/// (`path+file:///foo/bar#name@1.0.0`), or a name alone when it starts with a
/// letter, or a version alone, in which case the name is the last segment of
/// the URL path (`path+file:///foo/my-crate#0.1.0`, the form cargo uses when
/// the package is named after its directory). With no `#`, the id is in the
/// older form `name 0.1.0 (path+file:///...)` and the name is the text before
/// the first space.
pub open spec fn member_name(member: Seq<char>) -> Seq<char> {
    match last_index_of(member, '#') {
        Some(h) => {
            let frag = member.skip(h + 1);
            if has_char(frag, '@') {
                before_char(frag, '@')
            } else if frag.len() > 0 && is_ascii_letter(frag[0]) {
                frag
            } else {
                after_last(member.take(h), '/')
            }
        },
        None => before_char(member, ' '),
    }
}

proof fn lemma_last_index_of(s: Seq<char>, c: char)
    ensures
        last_index_of(s, c) matches Some(h) ==> 0 <= h < s.len() && s[h] == c,
        last_index_of(s, c) is None ==> forall|j: int| 0 <= j < s.len() ==> s[j] != c,
    decreases s.len(),
{
    if s.len() > 0 {
        lemma_last_index_of(s.drop_last(), c);
        if s.last() != c && last_index_of(s.drop_last(), c) is None {
            assert forall|j: int| 0 <= j < s.len() - 1 implies s[j] != c by {
                assert(s.drop_last()[j] == s[j]);
            }
        }
    }
}

/// The index of the last `c` in `v`.
fn last_index_exec(v: &Vec<char>, c: char) -> (r: Option<usize>)
    ensures
        match r {
            Some(k) => last_index_of(v@, c) == Some(k as int),
            None => last_index_of(v@, c) is None,
        },
{
    let mut i: usize = v.len();
    assert(v@.take(v@.len() as int) == v@);
    while i > 0 && v[i - 1] != c
        invariant
            i <= v@.len(),
            last_index_of(v@, c) == last_index_of(v@.take(i as int), c),
        decreases i,
    {
        assert(v@.take(i as int).drop_last() == v@.take(i - 1));
        i = i - 1;
    }
    if i > 0 {
        assert(v@.take(i as int).last() == c);
        Some(i - 1)
    } else {
        assert(v@.take(0) == Seq::<char>::empty());
        None
    }
}

/// Extracts the package name from a workspace member id (see [`member_name`]).
pub fn parse_member_name(member: &str) -> (name: String)
    ensures
        name@ == member_name(member@),
{
    let m = chars_of(member);
    match last_index_exec(&m, '#') {
        Some(h) => {
            proof {
                lemma_last_index_of(m@, '#');
            }
            let frag = slice_chars(&m, h + 1, m.len());
            assert(frag@ == member@.skip(h + 1));
            if has_char_exec(&frag, '@') {
                let name = before_char_exec(&frag, '@');
                string_of(name.as_slice())
            } else if frag.len() > 0 && (('a' <= frag[0] && frag[0] <= 'z') || ('A' <= frag[0]
                && frag[0] <= 'Z')) {
                string_of(frag.as_slice())
            } else {
                let path = slice_chars(&m, 0, h);
                assert(path@ == member@.take(h as int));
                proof {
                    lemma_last_index_of(path@, '/');
                }
                match last_index_exec(&path, '/') {
                    Some(k) => {
                        let seg = slice_chars(&path, k + 1, path.len());
                        assert(seg@ == path@.skip(k + 1));
                        string_of(seg.as_slice())
                    },
                    None => string_of(path.as_slice()),
                }
            }
        },
        None => {
            let name = before_char_exec(&m, ' ');
            string_of(name.as_slice())
        },
    }
}

/// The parent of a path, as `std::path::Path::parent` gives it.
pub uninterp spec fn path_parent(path: Seq<char>) -> Option<Seq<char>>;

/// `std::path::Path::parent`, as text. The empty path has no parent.
#[verifier::external_body]
fn parent_dir(path: &str) -> (r: Option<String>)
    ensures
        match r {
            Some(p) => path_parent(path@) == Some(p@),
            None => path_parent(path@) is None,
        },
        path@.len() == 0 ==> r is None,
{
    match std::path::Path::new(path).parent() {
        Some(p) => Some(p.to_string_lossy().into_owned()),
        None => None,
    }
}

/// A target that builds a library or a binary.
pub open spec fn is_lib_or_bin(t: Target) -> bool {
    exists|i: int| 0 <= i < t.kind@.len() && (t.kind@[i]@ == "lib"@ || t.kind@[i]@ == "bin"@)
}

/// The directory of the first library or binary target whose source path has
/// a parent.
pub open spec fn crate_dir(targets: Seq<Target>) -> Option<Seq<char>>
    decreases targets.len(),
{
    if targets.len() == 0 {
        None
    } else if is_lib_or_bin(targets[0]) && path_parent(targets[0].src_path@) is Some {
        path_parent(targets[0].src_path@)
    } else {
        crate_dir(targets.drop_first())
    }
}

/// A package name is one of the workspace members.
pub open spec fn is_member(members: Seq<String>, name: Seq<char>) -> bool {
    exists|i: int| 0 <= i < members.len() && member_name(#[trigger] members[i]@) == name
}

/// The source directories of the member packages among `packages`, in order.
pub open spec fn member_dirs(members: Seq<String>, packages: Seq<Package>) -> Seq<Seq<char>>
    decreases packages.len(),
{
    if packages.len() == 0 {
        Seq::empty()
    } else {
        let p = packages.last();
        let prev = member_dirs(members, packages.drop_last());
        if is_member(members, p.name@) && crate_dir(p.targets@) is Some {
            prev.push(crate_dir(p.targets@)->0)
        } else {
            prev
        }
    }
}

/// The workspace's source directories; `src` when none is found.
pub open spec fn workspace_dirs(meta: Metadata) -> Seq<Seq<char>> {
    let dirs = member_dirs(meta.workspace_members@, meta.packages@);
    if dirs.len() == 0 {
        seq!["src"@]
    } else {
        dirs
    }
}

fn is_lib_or_bin_exec(t: &Target) -> (r: bool)
    ensures
        r == is_lib_or_bin(*t),
{
    let lib = chars_of("lib");
    let bin = chars_of("bin");
    let mut i: usize = 0;
    while i < t.kind.len()
        invariant
            i <= t.kind@.len(),
            lib@ == "lib"@,
            bin@ == "bin"@,
            forall|j: int| 0 <= j < i ==> !(#[trigger] t.kind@[j]@ == "lib"@ || t.kind@[j]@ == "bin"@),
        decreases t.kind@.len() - i,
    {
        let k = chars_of(t.kind[i].as_str());
        if same_chars(&k, &lib) || same_chars(&k, &bin) {
            return true;
        }
        i = i + 1;
    }
    false
}

fn crate_dir_exec(targets: &Vec<Target>) -> (r: Option<String>)
    ensures
        match r {
            Some(d) => crate_dir(targets@) == Some(d@),
            None => crate_dir(targets@) is None,
        },
{
    let mut i: usize = 0;
    assert(targets@.skip(0) == targets@);
    while i < targets.len()
        invariant
            i <= targets@.len(),
            crate_dir(targets@) == crate_dir(targets@.skip(i as int)),
        decreases targets@.len() - i,
    {
        let t = &targets[i];
        assert(targets@.skip(i as int)[0] == *t);
        assert(targets@.skip(i as int).drop_first() == targets@.skip(i + 1));
        if is_lib_or_bin_exec(t) {
            match parent_dir(t.src_path.as_str()) {
                Some(p) => {
                    return Some(p);
                },
                None => {},
            }
        }
        i = i + 1;
    }
    None
}

fn is_member_exec(member_names: &Vec<String>, members: &Vec<String>, name: &String) -> (r: bool)
    requires
        member_names@.len() == members@.len(),
        forall|i: int| 0 <= i < members@.len() ==> #[trigger] member_names@[i]@ == member_name(members@[i]@),
    ensures
        r == is_member(members@, name@),
{
    let n = chars_of(name.as_str());
    let mut i: usize = 0;
    while i < member_names.len()
        invariant
            i <= member_names@.len(),
            member_names@.len() == members@.len(),
            n@ == name@,
            forall|i: int| 0 <= i < members@.len() ==> #[trigger] member_names@[i]@ == member_name(members@[i]@),
            forall|j: int| 0 <= j < i ==> member_name(#[trigger] members@[j]@) != name@,
        decreases member_names@.len() - i,
    {
        if same_chars(&chars_of(member_names[i].as_str()), &n) {
            assert(member_name(members@[i as int]@) == name@);
            return true;
        }
        i = i + 1;
    }
    false
}

/// The source directory of each member package that has a library or binary
/// target, in package order; `src` when there is none.
pub fn find_workspace_crates(meta: &Metadata) -> (dirs: Vec<String>)
    ensures
        crate::text::views(dirs@) == workspace_dirs(*meta),
{
    let mut member_names: Vec<String> = Vec::new();
    let mut i: usize = 0;
    while i < meta.workspace_members.len()
        invariant
            i <= meta.workspace_members@.len(),
            member_names@.len() == i,
            forall|j: int| 0 <= j < i ==> #[trigger] member_names@[j]@ == member_name(
                meta.workspace_members@[j]@,
            ),
        decreases meta.workspace_members@.len() - i,
    {
        member_names.push(parse_member_name(meta.workspace_members[i].as_str()));
        i = i + 1;
    }
    let mut dirs: Vec<String> = Vec::new();
    let mut k: usize = 0;
    while k < meta.packages.len()
        invariant
            k <= meta.packages@.len(),
            member_names@.len() == meta.workspace_members@.len(),
            forall|j: int| 0 <= j < meta.workspace_members@.len() ==> #[trigger] member_names@[j]@
                == member_name(meta.workspace_members@[j]@),
            crate::text::views(dirs@) == member_dirs(
                meta.workspace_members@,
                meta.packages@.take(k as int),
            ),
        decreases meta.packages@.len() - k,
    {
        let pkg = &meta.packages[k];
        assert(meta.packages@.take(k + 1).drop_last() == meta.packages@.take(k as int));
        assert(meta.packages@.take(k + 1).last() == *pkg);
        if is_member_exec(&member_names, &meta.workspace_members, &pkg.name) {
            match crate_dir_exec(&pkg.targets) {
                Some(d) => {
                    let ghost before = dirs@;
                    dirs.push(d);
                    assert(crate::text::views(dirs@) =~= crate::text::views(before).push(d@));
                },
                None => {},
            }
        }
        k = k + 1;
    }
    assert(meta.packages@.take(meta.packages@.len() as int) == meta.packages@);
    if dirs.len() == 0 {
        dirs.push(String::from_str("src"));
        assert(crate::text::views(dirs@) =~= seq!["src"@]);
    }
    dirs
}

} // verus!
