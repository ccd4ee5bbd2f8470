//! Locating a container's cgroup v2 directory inside a directory hierarchy.
//!
//! The hierarchy is handed in as a value: a tree of directory names, read off
//! the filesystem by the caller. A directory that could not be read is
//! represented as a node without children, so an unreadable branch is searched
//! no deeper but its own name still counts, which is how the search treats a
//! read failure: that branch reports "not found here" and siblings go on.

use vstd::prelude::*;
use vstd::slice::slice_subrange;
use vstd::slice::slice_to_vec;

use crate::scan::is_substring;
use crate::scan::contains_sub;
use crate::scan::bytes_eq;

verus! {

/// One directory: its base name and its subdirectories.
pub struct Dir {
    pub name: Vec<u8>,
    pub children: Vec<Dir>,
}

/// The bytes of "docker-".
pub open spec fn docker_prefix() -> Seq<u8> {
    seq![0x64u8, 0x6f, 0x63, 0x6b, 0x65, 0x72, 0x2d]
}

/// The bytes of ".scope".
pub open spec fn scope_suffix() -> Seq<u8> {
    seq![0x2eu8, 0x73, 0x63, 0x6f, 0x70, 0x65]
}

/// The bytes of "/sys/fs/cgroup".
pub open spec fn cgroup_root_path() -> Seq<u8> {
    seq![0x2fu8, 0x73, 0x79, 0x73, 0x2f, 0x66, 0x73, 0x2f, 0x63, 0x67, 0x72, 0x6f, 0x75, 0x70]
}

/// The conventional directory name "docker-<id>.scope".
pub open spec fn scope_name(id: Seq<u8>) -> Seq<u8> {
    docker_prefix() + id + scope_suffix()
}

/// The first twelve bytes of an identifier, clamped to its actual length.
pub open spec fn short_id(id: Seq<u8>) -> Seq<u8> {
    if id.len() <= 12 {
        id
    } else {
        id.subrange(0, 12)
    }
}

/// A directory name matches when it contains the full identifier or its
/// twelve-byte short form as a substring.
pub open spec fn name_matches(name: Seq<u8>, id: Seq<u8>) -> bool {
    is_substring(id, name) || is_substring(short_id(id), name)
}

/// Depth-first search below a directory, the directory's own name not
/// examined, first match in child order winning: the path of names from the
/// first matching descendant up to (and excluding) `t`.
pub open spec fn search_tree_spec(t: Dir, id: Seq<u8>) -> Option<Seq<Seq<u8>>>
    decreases t, 0int,
{
    search_children_spec(t.children@, 0, id)
}

pub open spec fn search_children_spec(cs: Seq<Dir>, from: int, id: Seq<u8>) -> Option<
    Seq<Seq<u8>>,
>
    decreases cs, cs.len() - from,
{
    if from < 0 || from >= cs.len() {
        None
    } else if name_matches(cs[from].name@, id) {
        Some(seq![cs[from].name@])
    } else {
        match search_tree_spec(cs[from], id) {
            Some(rest) => Some(seq![cs[from].name@] + rest),
            None => search_children_spec(cs, from + 1, id),
        }
    }
}

/// Some descendant of `t` (strictly below it) has a matching name.
pub open spec fn tree_has_match(t: Dir, id: Seq<u8>) -> bool
    decreases t, 0int,
{
    children_have_match(t.children@, 0, id)
}

pub open spec fn children_have_match(cs: Seq<Dir>, from: int, id: Seq<u8>) -> bool
    decreases cs, cs.len() - from,
{
    if from < 0 || from >= cs.len() {
        false
    } else {
        name_matches(cs[from].name@, id) || tree_has_match(cs[from], id)
            || children_have_match(cs, from + 1, id)
    }
}

/// `p` descends from `t` child by child and ends at a matching name.
pub open spec fn path_found_in(t: Dir, p: Seq<Seq<u8>>, id: Seq<u8>) -> bool
    decreases t, 0int,
{
    path_found_in_children(t.children@, p, id)
}

pub open spec fn path_found_in_children(cs: Seq<Dir>, p: Seq<Seq<u8>>, id: Seq<u8>) -> bool
    decreases cs, 0int,
{
    p.len() > 0 && exists|i: int|
        0 <= i < cs.len() && (#[trigger] cs[i]).name@ == p[0] && (if p.len() == 1 {
            name_matches(p[0], id)
        } else {
            path_found_in(cs[i], p.drop_first(), id)
        })
}

/// The search returns a path exactly when a matching descendant exists.
pub proof fn lemma_search_complete(t: Dir, id: Seq<u8>)
    ensures
        search_tree_spec(t, id) is Some <==> tree_has_match(t, id),
    decreases t, 0int,
{
    lemma_search_children_complete(t.children@, 0, id);
}

pub proof fn lemma_search_children_complete(cs: Seq<Dir>, from: int, id: Seq<u8>)
    ensures
        search_children_spec(cs, from, id) is Some <==> children_have_match(cs, from, id),
    decreases cs, cs.len() - from,
{
    if 0 <= from < cs.len() {
        lemma_search_complete(cs[from], id);
        lemma_search_children_complete(cs, from + 1, id);
    }
}

/// Some child of `t` bears exactly this name.
pub open spec fn has_child_named(t: Dir, nm: Seq<u8>) -> bool {
    exists|i: int| 0 <= i < t.children@.len() && (#[trigger] t.children@[i]).name@ == nm
}

/// A path the search returns really descends from `t` to a matching name:
/// the search never hands back a partial or an incorrect path.
pub proof fn lemma_search_sound(t: Dir, id: Seq<u8>)
    requires
        search_tree_spec(t, id) is Some,
    ensures
        path_found_in(t, search_tree_spec(t, id)->Some_0, id),
    decreases t, 0int,
{
    lemma_search_children_sound(t.children@, 0, id);
}

pub proof fn lemma_search_children_sound(cs: Seq<Dir>, from: int, id: Seq<u8>)
    requires
        search_children_spec(cs, from, id) is Some,
    ensures
        path_found_in_children(cs, search_children_spec(cs, from, id)->Some_0, id),
    decreases cs, cs.len() - from,
{
    if 0 <= from < cs.len() {
        let p = search_children_spec(cs, from, id)->Some_0;
        if name_matches(cs[from].name@, id) {
            assert(cs[from].name@ == p[0]);
        } else {
            match search_tree_spec(cs[from], id) {
                Some(rest) => {
                    lemma_search_sound(cs[from], id);
                    assert(p.drop_first() =~~= rest);
                },
                None => {
                    lemma_search_children_sound(cs, from + 1, id);
                },
            }
        }
    }
}

/// The whole discovery, over both subtrees, as a value: first the two
/// conventional names directly below the system subtree, then the recursive
/// search there, then the recursive search below the user subtree. A missing
/// subtree contributes nothing. The result is the path of directory names
/// from the subtree root down, or nothing.
pub open spec fn locate_spec(sys: Option<Dir>, user: Option<Dir>, id: Seq<u8>) -> Option<
    Seq<Seq<u8>>,
> {
    match sys {
        Some(t) => {
            if has_child_named(t, scope_name(id)) {
                Some(seq![t.name@, scope_name(id)])
            } else if has_child_named(t, scope_name(short_id(id))) {
                Some(seq![t.name@, scope_name(short_id(id))])
            } else {
                match search_tree_spec(t, id) {
                    Some(rest) => Some(seq![t.name@] + rest),
                    None => locate_user_spec(user, id),
                }
            }
        },
        None => locate_user_spec(user, id),
    }
}

pub open spec fn locate_user_spec(user: Option<Dir>, id: Seq<u8>) -> Option<Seq<Seq<u8>>> {
    match user {
        Some(t) => match search_tree_spec(t, id) {
            Some(rest) => Some(seq![t.name@] + rest),
            None => None,
        },
        None => None,
    }
}

/// Nothing in either subtree answers to the identifier: no conventionally
/// named child, no matching descendant.
pub open spec fn locate_misses(sys: Option<Dir>, user: Option<Dir>, id: Seq<u8>) -> bool {
    (match sys {
        Some(t) => !has_child_named(t, scope_name(id)) && !has_child_named(
            t,
            scope_name(short_id(id)),
        ) && !tree_has_match(t, id),
        None => true,
    }) && (match user {
        Some(t) => !tree_has_match(t, id),
        None => true,
    })
}

/// Discovery comes up empty exactly when nothing matches anywhere: an unknown
/// identifier is reported not found, and only then.
pub proof fn lemma_locate_complete(sys: Option<Dir>, user: Option<Dir>, id: Seq<u8>)
    ensures
        locate_spec(sys, user, id) is None <==> locate_misses(sys, user, id),
{
    if let Some(t) = sys {
        lemma_search_complete(t, id);
    }
    if let Some(t) = user {
        lemma_search_complete(t, id);
    }
}

/// A located path is never partial or incorrect: it starts at one of the two
/// subtree roots and either names a conventionally named child directly or
/// descends, child by child, to a descendant whose name matches.
pub open spec fn locate_path_ok(
    sys: Option<Dir>,
    user: Option<Dir>,
    p: Seq<Seq<u8>>,
    id: Seq<u8>,
) -> bool {
    (sys matches Some(t) && p.len() >= 1 && p[0] == t.name@ && ((p.len() == 2 && (p[1]
        == scope_name(id) || p[1] == scope_name(short_id(id))) && has_child_named(t, p[1]))
        || path_found_in(t, p.drop_first(), id))) || (user matches Some(t) && p.len() >= 1
        && p[0] == t.name@ && path_found_in(t, p.drop_first(), id))
}

pub proof fn lemma_locate_sound(sys: Option<Dir>, user: Option<Dir>, id: Seq<u8>)
    requires
        locate_spec(sys, user, id) is Some,
    ensures
        locate_path_ok(sys, user, locate_spec(sys, user, id)->Some_0, id),
{
    let p = locate_spec(sys, user, id)->Some_0;
    let sys_direct = match sys {
        Some(t) => has_child_named(t, scope_name(id)) || has_child_named(
            t,
            scope_name(short_id(id)),
        ),
        None => false,
    };
    let sys_deep = match sys {
        Some(t) => search_tree_spec(t, id) is Some,
        None => false,
    };
    if let Some(t) = sys {
        if !sys_direct && sys_deep {
            lemma_search_sound(t, id);
            assert(p.drop_first() =~~= search_tree_spec(t, id)->Some_0);
        }
    }
    if !sys_direct && !sys_deep {
        if let Some(ut) = user {
            if search_tree_spec(ut, id) is Some {
                lemma_search_sound(ut, id);
                assert(p.drop_first() =~~= search_tree_spec(ut, id)->Some_0);
            }
        }
    }
}

/// The discovery failed: no cgroup directory for this identifier, which is
/// echoed back for diagnostics.
#[derive(Debug)]
pub enum LocateError {
    NotFound(Vec<u8>),
}

/// The located cgroup directory, as the path components to join: the cgroup
/// mount root first, then one directory name per level.
pub struct CgroupManager {
    root: Vec<u8>,
}

pub open spec fn opt_dir(d: Option<&Dir>) -> Option<Dir> {
    match d {
        Some(t) => Some(*t),
        None => None,
    }
}

pub open spec fn opt_deep(r: Option<Vec<Vec<u8>>>) -> Option<Seq<Seq<u8>>> {
    match r {
        None => None,
        Some(p) => Some(p.deep_view()),
    }
}

fn dir_name_matches(name: &Vec<u8>, id: &[u8], short: &[u8]) -> (r: bool)
    requires
        short@ == short_id(id@),
    ensures
        r == name_matches(name@, id@),
{
    contains_sub(name.as_slice(), id) || contains_sub(name.as_slice(), short)
}

/// Depth-first search strictly below `t`, first match in child order winning.
pub fn search_for_container(t: &Dir, id: &[u8], short: &[u8]) -> (r: Option<Vec<Vec<u8>>>)
    requires
        short@ == short_id(id@),
    ensures
        opt_deep(r) == search_tree_spec(*t, id@),
    decreases *t, 0int,
{
    let mut j: usize = 0;
    while j < t.children.len()
        invariant
            0 <= j <= t.children@.len(),
            short@ == short_id(id@),
            search_children_spec(t.children@, 0, id@) == search_children_spec(
                t.children@,
                j as int,
                id@,
            ),
        decreases t.children@.len() - j,
    {
        let c: &Dir = &t.children[j];
        if dir_name_matches(&c.name, id, short) {
            let mut path: Vec<Vec<u8>> = Vec::new();
            path.push(slice_to_vec(c.name.as_slice()));
            proof {
                assert(path.deep_view() =~~= seq![c.name@]);
            }
            return Some(path);
        }
        proof {
            assert(decreases_to!(*t, 0int => t.children@[j as int], 0int));
        }
        match search_for_container(c, id, short) {
            Some(mut rest) => {
                let mut path: Vec<Vec<u8>> = Vec::new();
                path.push(slice_to_vec(c.name.as_slice()));
                let ghost rest_deep = rest.deep_view();
                path.append(&mut rest);
                proof {
                    assert(path.deep_view() =~~= seq![c.name@] + rest_deep);
                }
                return Some(path);
            },
            None => {},
        }
        j = j + 1;
    }
    None
}

fn find_child_named(t: &Dir, nm: &[u8]) -> (r: bool)
    ensures
        r == has_child_named(*t, nm@),
{
    let mut j: usize = 0;
    while j < t.children.len()
        invariant
            0 <= j <= t.children@.len(),
            forall|i: int| 0 <= i < j ==> (#[trigger] t.children@[i]).name@ != nm@,
        decreases t.children@.len() - j,
    {
        if bytes_eq(t.children[j].name.as_slice(), nm) {
            return true;
        }
        j = j + 1;
    }
    false
}

fn push_all(v: &mut Vec<u8>, s: &[u8])
    ensures
        final(v)@ == old(v)@ + s@,
{
    let mut k: usize = 0;
    while k < s.len()
        invariant
            0 <= k <= s@.len(),
            v@ == old(v)@ + s@.subrange(0, k as int),
        decreases s@.len() - k,
    {
        v.push(s[k]);
        proof {
            assert(v@ =~= old(v)@ + s@.subrange(0, k + 1));
        }
        k = k + 1;
    }
    proof {
        assert(v@ =~= old(v)@ + s@);
    }
}

/// The directory name "docker-<id>.scope" for an identifier.
pub fn make_scope_name(id: &[u8]) -> (r: Vec<u8>)
    ensures
        r@ == scope_name(id@),
{
    let mut v: Vec<u8> = Vec::new();
    v.push(0x64);  // d
    v.push(0x6f);  // o
    v.push(0x63);  // c
    v.push(0x6b);  // k
    v.push(0x65);  // e
    v.push(0x72);  // r
    v.push(0x2d);  // -
    proof {
        assert(v@ =~= docker_prefix());
    }
    push_all(&mut v, id);
    v.push(0x2e);  // .
    v.push(0x73);  // s
    v.push(0x63);  // c
    v.push(0x6f);  // o
    v.push(0x70);  // p
    v.push(0x65);  // e
    proof {
        assert(v@ =~= scope_name(id@));
    }
    v
}

/// The identifier clamped to its first twelve bytes.
pub fn make_short_id(id: &[u8]) -> (r: Vec<u8>)
    ensures
        r@ == short_id(id@),
{
    if id.len() <= 12 {
        slice_to_vec(id)
    } else {
        slice_to_vec(slice_subrange(id, 0, 12))
    }
}

fn path_two(root: &Vec<u8>, first: &Vec<u8>, second: Vec<u8>) -> (r: Vec<Vec<u8>>)
    ensures
        r.deep_view() == seq![root@, first@, second@],
{
    let mut path: Vec<Vec<u8>> = Vec::new();
    path.push(slice_to_vec(root.as_slice()));
    path.push(slice_to_vec(first.as_slice()));
    let ghost second_view = second@;
    path.push(second);
    proof {
        assert(path.deep_view() =~~= seq![root@, first@, second_view]);
    }
    path
}

fn path_with_rest(root: &Vec<u8>, first: &Vec<u8>, rest: Vec<Vec<u8>>) -> (r: Vec<Vec<u8>>)
    ensures
        r.deep_view() == seq![root@, first@] + rest.deep_view(),
{
    let mut path: Vec<Vec<u8>> = Vec::new();
    path.push(slice_to_vec(root.as_slice()));
    path.push(slice_to_vec(first.as_slice()));
    let ghost rest_deep = rest.deep_view();
    let mut tail = rest;
    path.append(&mut tail);
    proof {
        assert(path.deep_view() =~~= seq![root@, first@] + rest_deep);
    }
    path
}

impl CgroupManager {
    /// The path this manager prefixes every located directory with.
    pub closed spec fn root_view(&self) -> Seq<u8> {
        self.root@
    }

    /// A manager rooted at the conventional cgroup v2 mount point,
    /// "/sys/fs/cgroup". Whether that mount point exists on the running
    /// host is for the caller to establish before reading directories.
    pub fn new() -> (m: CgroupManager)
        ensures
            m.root_view() == cgroup_root_path(),
    {
        let mut v: Vec<u8> = Vec::new();
        v.push(0x2f);  // /
        v.push(0x73);  // s
        v.push(0x79);  // y
        v.push(0x73);  // s
        v.push(0x2f);  // /
        v.push(0x66);  // f
        v.push(0x73);  // s
        v.push(0x2f);  // /
        v.push(0x63);  // c
        v.push(0x67);  // g
        v.push(0x72);  // r
        v.push(0x6f);  // o
        v.push(0x75);  // u
        v.push(0x70);  // p
        proof {
            assert(v@ =~= cgroup_root_path());
        }
        CgroupManager { root: v }
    }

    /// Discover the cgroup directory of a container. `container_id` is the
    /// canonical identifier (or whatever the caller fell back to);
    /// `system_slice` and `user_slice` are the two candidate subtrees as read
    /// off the filesystem, absent when the directory does not exist. The
    /// result is the component path: the mount root, then the subtree root's
    /// name, then the names down to the located directory.
    pub fn find_container_cgroup(
        &self,
        container_id: &[u8],
        system_slice: Option<&Dir>,
        user_slice: Option<&Dir>,
    ) -> (r: Result<Vec<Vec<u8>>, LocateError>)
        ensures
            match locate_spec(opt_dir(system_slice), opt_dir(user_slice), container_id@) {
                Some(p) => r matches Ok(v) && v.deep_view() == seq![self.root_view()] + p,
                None => r matches Err(LocateError::NotFound(x)) && x@ == container_id@,
            },
    {
        let short = make_short_id(container_id);
        if let Some(t) = system_slice {
            let full_scope = make_scope_name(container_id);
            if find_child_named(t, full_scope.as_slice()) {
                let path = path_two(&self.root, &t.name, full_scope);
                proof {
                    assert(path.deep_view() =~~= seq![self.root_view()] + seq![
                        t.name@,
                        scope_name(container_id@),
                    ]);
                }
                return Ok(path);
            }
            let short_scope = make_scope_name(short.as_slice());
            if find_child_named(t, short_scope.as_slice()) {
                let path = path_two(&self.root, &t.name, short_scope);
                proof {
                    assert(path.deep_view() =~~= seq![self.root_view()] + seq![
                        t.name@,
                        scope_name(short_id(container_id@)),
                    ]);
                }
                return Ok(path);
            }
            if let Some(rest) = search_for_container(t, container_id, short.as_slice()) {
                let ghost rest_deep = rest.deep_view();
                let path = path_with_rest(&self.root, &t.name, rest);
                proof {
                    assert(path.deep_view() =~~= seq![self.root_view()] + (seq![t.name@]
                        + rest_deep));
                }
                return Ok(path);
            }
        }
        if let Some(t) = user_slice {
            if let Some(rest) = search_for_container(t, container_id, short.as_slice()) {
                let ghost rest_deep = rest.deep_view();
                let path = path_with_rest(&self.root, &t.name, rest);
                proof {
                    assert(path.deep_view() =~~= seq![self.root_view()] + (seq![t.name@]
                        + rest_deep));
                }
                return Ok(path);
            }
        }
        Err(LocateError::NotFound(slice_to_vec(container_id)))
    }
}

} // verus!
