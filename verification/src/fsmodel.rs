//! An immutable snapshot model of a filesystem tree: nodes with a device
//! and inode identity, directory children, file contents and symlink
//! targets, plus path resolution over the model.
//!
//! The walk operates on such a snapshot, so its filtering and traversal
//! logic is independent of how the snapshot was produced.

use vstd::prelude::*;
use crate::glob::{B_SLASH, find_slash, find_slash_exec};

verus! {

/// Classification of one filesystem entry.
#[derive(Clone, Copy, PartialEq, Eq, Structural, Debug)]
pub enum FileKind {
    File,
    Directory,
    Symlink,
    Other,
}

/// One directory edge: an entry name and the index of the child node.
pub struct FsChild {
    pub name: Vec<u8>,
    pub node: usize,
}

/// One node of the modelled filesystem.  `children` is meaningful for
/// directories, `content` for files, `target` for symlinks (`None` models
/// a broken link).  `readable` models whether listing a directory's
/// entries succeeds.
pub struct FsNode {
    pub kind: FileKind,
    pub dev: u64,
    pub ino: u64,
    pub readable: bool,
    pub children: Vec<FsChild>,
    pub content: Vec<u8>,
    pub target: Option<usize>,
}

/// A filesystem snapshot.  Node 0 is the filesystem root directory.
pub struct Fs {
    pub nodes: Vec<FsNode>,
}

/// Well-formedness: node 0 exists, every directory edge points to a node
/// with a strictly larger index (so the directory graph is acyclic; only
/// symlinks can point back), and symlink targets are in bounds.
pub open spec fn fs_wf(fs: Fs) -> bool {
    &&& fs.nodes@.len() > 0
    &&& forall|i: int, j: int|
        0 <= i < fs.nodes@.len() && 0 <= j < fs.nodes@[i].children@.len() ==> i < (
        #[trigger] fs.nodes@[i].children@[j]).node < fs.nodes@.len()
    &&& forall|i: int|
        0 <= i < fs.nodes@.len() ==> ((#[trigger] fs.nodes@[i]).target matches Option::Some(t)
            ==> 0 <= t < fs.nodes@.len())
}

/// The first child of `fs.nodes[node]` named `name`, searching from
/// child position `j` on.
pub open spec fn spec_find_child_from(fs: Fs, node: int, j: int, name: Seq<u8>) -> Option<int>
    decreases fs.nodes@[node].children@.len() - j,
    when 0 <= node < fs.nodes@.len() && 0 <= j <= fs.nodes@[node].children@.len()
{
    if j == fs.nodes@[node].children@.len() {
        Option::None
    } else if fs.nodes@[node].children@[j].name@ == name {
        Option::Some(fs.nodes@[node].children@[j].node as int)
    } else {
        spec_find_child_from(fs, node, j + 1, name)
    }
}

/// The first child of `fs.nodes[node]` named `name`.
pub open spec fn spec_find_child(fs: Fs, node: int, name: Seq<u8>) -> Option<int> {
    spec_find_child_from(fs, node, 0, name)
}

/// Byte-vector equality.
pub fn bytes_eq(a: &Vec<u8>, b: &Vec<u8>) -> (r: bool)
    ensures
        r == (a@ == b@),
{
    if a.len() != b.len() {
        return false;
    }
    let mut i: usize = 0;
    while i < a.len()
        invariant
            0 <= i <= a.len(),
            a@.len() == b@.len(),
            forall|j: int| 0 <= j < i ==> a@[j] == b@[j],
        decreases a.len() - i,
    {
        if a[i] != b[i] {
            return false;
        }
        i += 1;
    }
    proof {
        assert(a@ =~= b@);
    }
    true
}

/// Looks up a child by name; a found child's index is in bounds and
/// strictly larger than its parent's.
pub fn find_child(fs: &Fs, node: usize, name: &Vec<u8>) -> (r: Option<usize>)
    requires
        fs_wf(*fs),
        node < fs.nodes@.len(),
    ensures
        match spec_find_child(*fs, node as int, name@) {
            Option::Some(t) => r matches Option::Some(c) && c as int == t && node < c
                < fs.nodes@.len(),
            Option::None => r is None,
        },
{
    let children_len = fs.nodes[node].children.len();
    let mut j: usize = 0;
    while j < children_len
        invariant
            fs_wf(*fs),
            node < fs.nodes@.len(),
            0 <= j <= children_len,
            children_len == fs.nodes@[node as int].children@.len(),
            spec_find_child(*fs, node as int, name@) == spec_find_child_from(
                *fs,
                node as int,
                j as int,
                name@,
            ),
        decreases children_len - j,
    {
        if bytes_eq(&fs.nodes[node].children[j].name, name) {
            return Option::Some(fs.nodes[node].children[j].node);
        }
        j += 1;
    }
    Option::None
}

/// What following the symlink chain from `node` yields with `fuel` steps
/// allowed: the first non-symlink node, `Err(true)` for a broken link,
/// `Err(false)` for a chain that never settles within the fuel.
pub open spec fn spec_resolve_link(fs: Fs, node: int, fuel: nat) -> Result<int, bool>
    decreases fuel,
    when fs_wf(fs) && 0 <= node < fs.nodes@.len()
{
    if !(fs.nodes@[node].kind is Symlink) {
        Result::Ok(node)
    } else {
        match fs.nodes@[node].target {
            Option::Some(t) => if fuel == 0 {
                Result::Err(false)
            } else {
                spec_resolve_link(fs, t as int, (fuel - 1) as nat)
            },
            Option::None => Result::Err(true),
        }
    }
}

/// A successful chain resolution lands on an in-bounds non-symlink node.
pub proof fn lemma_resolve_link_bounds(fs: Fs, node: int, fuel: nat)
    requires
        fs_wf(fs),
        0 <= node < fs.nodes@.len(),
    ensures
        spec_resolve_link(fs, node, fuel) matches Result::Ok(t) ==> 0 <= t < fs.nodes@.len()
            && !(fs.nodes@[t].kind is Symlink),
    decreases fuel,
{
    if fs.nodes@[node].kind is Symlink {
        match fs.nodes@[node].target {
            Option::Some(t) => {
                if fuel > 0 {
                    lemma_resolve_link_bounds(fs, t as int, (fuel - 1) as nat);
                }
            },
            Option::None => {},
        }
    }
}

/// A found child's index is in bounds and larger than its parent's.
pub proof fn lemma_find_child_bounds(fs: Fs, node: int, name: Seq<u8>)
    requires
        fs_wf(fs),
        0 <= node < fs.nodes@.len(),
    ensures
        spec_find_child(fs, node, name) matches Option::Some(t) ==> node < t < fs.nodes@.len(),
{
    lemma_find_child_from_bounds(fs, node, 0, name);
}

proof fn lemma_find_child_from_bounds(fs: Fs, node: int, j: int, name: Seq<u8>)
    requires
        fs_wf(fs),
        0 <= node < fs.nodes@.len(),
        0 <= j <= fs.nodes@[node].children@.len(),
    ensures
        spec_find_child_from(fs, node, j, name) matches Option::Some(t) ==> node < t
            < fs.nodes@.len(),
    decreases fs.nodes@[node].children@.len() - j,
{
    if j < fs.nodes@[node].children@.len() {
        assert(node < fs.nodes@[node].children@[j].node < fs.nodes@.len());
        lemma_find_child_from_bounds(fs, node, j + 1, name);
    }
}

/// One resolution step: resolve `cur` through symlinks, require a
/// directory, and step into its child named `name`.
pub open spec fn spec_step_into(fs: Fs, cur: int, name: Seq<u8>) -> Result<int, bool> {
    match spec_resolve_link(fs, cur, fs.nodes@.len() as nat) {
        Result::Ok(c) => if !(fs.nodes@[c].kind is Directory) {
            Result::Err(true)
        } else {
            match spec_find_child(fs, c, name) {
                Option::Some(n) => Result::Ok(n),
                Option::None => Result::Err(true),
            }
        },
        Result::Err(b) => Result::Err(b),
    }
}

/// A successful step lands on an in-bounds node.
pub proof fn lemma_step_into_bounds(fs: Fs, cur: int, name: Seq<u8>)
    requires
        fs_wf(fs),
        0 <= cur < fs.nodes@.len(),
    ensures
        spec_step_into(fs, cur, name) matches Result::Ok(n) ==> 0 <= n < fs.nodes@.len(),
{
    lemma_resolve_link_bounds(fs, cur, fs.nodes@.len() as nat);
    match spec_resolve_link(fs, cur, fs.nodes@.len() as nat) {
        Result::Ok(c) => {
            lemma_find_child_bounds(fs, c, name);
        },
        Result::Err(_) => {},
    }
}

/// What resolving the path segments from `i` on yields, starting at node
/// `cur`: each component is resolved through symlinks, must be a
/// directory, and must hold the next segment as a child.
pub open spec fn spec_resolve_path(fs: Fs, segs: Seq<Seq<u8>>, i: int, cur: int) -> Result<
    int,
    bool,
>
    decreases segs.len() - i,
    when fs_wf(fs) && 0 <= i <= segs.len() && 0 <= cur < fs.nodes@.len()
    via spec_resolve_path_dec
{
    if i == segs.len() {
        Result::Ok(cur)
    } else {
        match spec_step_into(fs, cur, segs[i]) {
            Result::Ok(n) => spec_resolve_path(fs, segs, i + 1, n),
            Result::Err(b) => Result::Err(b),
        }
    }
}

#[via_fn]
proof fn spec_resolve_path_dec(fs: Fs, segs: Seq<Seq<u8>>, i: int, cur: int) {
    if fs_wf(fs) && 0 <= i < segs.len() && 0 <= cur < fs.nodes@.len() {
        lemma_step_into_bounds(fs, cur, segs[i]);
    }
}

/// Resolving one more segment: the resolution of `segs[..d+1]` is the
/// resolution of `segs[..d]` followed by one step into `segs[d]`.
pub proof fn lemma_resolve_path_snoc(fs: Fs, segs: Seq<Seq<u8>>, d: int, j: int, cur: int)
    requires
        fs_wf(fs),
        0 <= j <= d < segs.len(),
        0 <= cur < fs.nodes@.len(),
    ensures
        spec_resolve_path(fs, segs.subrange(0, d + 1), j, cur) == (match spec_resolve_path(
            fs,
            segs.subrange(0, d),
            j,
            cur,
        ) {
            Result::Ok(c) => spec_step_into(fs, c, segs[d]),
            Result::Err(b) => Result::<int, bool>::Err(b),
        }),
    decreases d - j,
{
    let s1 = segs.subrange(0, d + 1);
    let s2 = segs.subrange(0, d);
    assert(s1.len() == d + 1 && s2.len() == d);
    if j == d {
        assert(s1[j] == segs[d]);
        lemma_step_into_bounds(fs, cur, s1[j]);
    } else {
        assert(s1[j] == segs[j] && s2[j] == segs[j]);
        lemma_step_into_bounds(fs, cur, segs[j]);
        match spec_step_into(fs, cur, segs[j]) {
            Result::Ok(n) => {
                lemma_resolve_path_snoc(fs, segs, d, j + 1, n);
            },
            Result::Err(_) => {},
        }
    }
}

/// The directory the walk's ancestor chain holds at depth `d`: the first
/// `d` segments resolved, then that node resolved through symlinks.
pub open spec fn spec_dir_at(fs: Fs, segs: Seq<Seq<u8>>, d: int) -> Result<int, bool> {
    match spec_resolve_path(fs, segs.subrange(0, d), 0, 0) {
        Result::Ok(c) => spec_resolve_link(fs, c, fs.nodes@.len() as nat),
        Result::Err(b) => Result::Err(b),
    }
}

/// Resolution of a whole path: the components from the filesystem root,
/// then the final node itself resolved through symlinks.
pub open spec fn spec_resolve_entry(fs: Fs, segs: Seq<Seq<u8>>) -> Result<int, bool> {
    match spec_resolve_path(fs, segs, 0, 0) {
        Result::Ok(c) => spec_resolve_link(fs, c, fs.nodes@.len() as nat),
        Result::Err(b) => Result::Err(b),
    }
}

/// Follows a chain of symlinks until a non-symlink node is reached,
/// returning exactly what [`spec_resolve_link`] denotes with one step of
/// fuel per node of the snapshot.
pub fn resolve_link(fs: &Fs, node: usize) -> (r: Result<usize, bool>)
    requires
        fs_wf(*fs),
        node < fs.nodes@.len(),
    ensures
        match spec_resolve_link(*fs, node as int, fs.nodes@.len() as nat) {
            Result::Ok(t) => r matches Ok(u) && u as int == t && u < fs.nodes@.len() && !(
            fs.nodes@[t].kind is Symlink),
            Result::Err(b) => r matches Err(bb) && bb == b,
        },
{
    let mut cur = node;
    let mut fuel: usize = fs.nodes.len();
    loop
        invariant
            fs_wf(*fs),
            cur < fs.nodes@.len(),
            spec_resolve_link(*fs, node as int, fs.nodes@.len() as nat) == spec_resolve_link(
                *fs,
                cur as int,
                fuel as nat,
            ),
        decreases fuel,
    {
        let is_sym = match fs.nodes[cur].kind {
            FileKind::Symlink => true,
            _ => false,
        };
        if !is_sym {
            return Ok(cur);
        }
        match fs.nodes[cur].target {
            Option::Some(t) => {
                if fuel == 0 {
                    return Err(false);
                }
                proof {
                    assert(fs.nodes@[cur as int].target matches Option::Some(tt) && 0 <= tt
                        < fs.nodes@.len());
                }
                fuel -= 1;
                cur = t;
            },
            Option::None => {
                return Err(true);
            },
        }
    }
}

/// Resolves a segment path from the filesystem root, returning exactly
/// what [`spec_resolve_path`] denotes; `Err(true)` means some component
/// was missing or broken.
pub fn resolve_path(fs: &Fs, segs: &Vec<Vec<u8>>) -> (r: Result<usize, bool>)
    requires
        fs_wf(*fs),
    ensures
        match spec_resolve_path(*fs, segs.deep_view(), 0, 0) {
            Result::Ok(t) => r matches Ok(u) && u as int == t && u < fs.nodes@.len(),
            Result::Err(b) => r matches Err(bb) && bb == b,
        },
{
    let ghost dv = segs.deep_view();
    proof {
        assert(dv.len() == segs@.len());
    }
    let mut cur: usize = 0;
    let mut i: usize = 0;
    while i < segs.len()
        invariant
            fs_wf(*fs),
            cur < fs.nodes@.len(),
            0 <= i <= segs.len(),
            dv == segs.deep_view(),
            dv.len() == segs@.len(),
            spec_resolve_path(*fs, dv, 0, 0) == spec_resolve_path(*fs, dv, i as int, cur as int),
        decreases segs.len() - i,
    {
        let resolved = match resolve_link(fs, cur) {
            Ok(c) => c,
            Err(nf) => {
                return Err(nf);
            },
        };
        let is_dir = match fs.nodes[resolved].kind {
            FileKind::Directory => true,
            _ => false,
        };
        if !is_dir {
            return Err(true);
        }
        proof {
            assert(dv[i as int] == segs@[i as int]@);
        }
        match find_child(fs, resolved, &segs[i]) {
            Option::Some(c) => {
                cur = c;
            },
            Option::None => {
                return Err(true);
            },
        }
        i += 1;
    }
    Ok(cur)
}

/// Copies the byte range `[lo, hi)` of `s`.
pub fn copy_range(s: &Vec<u8>, lo: usize, hi: usize) -> (r: Vec<u8>)
    requires
        lo <= hi <= s.len(),
    ensures
        r@ == s@.subrange(lo as int, hi as int),
{
    let mut r: Vec<u8> = Vec::new();
    let mut i: usize = lo;
    while i < hi
        invariant
            lo <= i <= hi <= s@.len(),
            r@ == s@.subrange(lo as int, i as int),
        decreases hi - i,
    {
        r.push(s[i]);
        proof {
            assert(s@.subrange(lo as int, i + 1 as int) =~= s@.subrange(lo as int, i as int).push(
                s@[i as int],
            ));
        }
        i += 1;
    }
    r
}

/// The segments of the byte range `[lo, hi)` of a path, split on `/`.
pub open spec fn spec_split(s: Seq<u8>, lo: int, hi: int) -> Seq<Seq<u8>>
    decreases hi - lo,
    when 0 <= lo <= hi <= s.len()
    via spec_split_dec
{
    let j = find_slash(s, lo, hi);
    if j >= hi {
        seq![s.subrange(lo, hi)]
    } else {
        seq![s.subrange(lo, j)] + spec_split(s, j + 1, hi)
    }
}

#[via_fn]
proof fn spec_split_dec(s: Seq<u8>, lo: int, hi: int) {
    if 0 <= lo <= hi <= s.len() {
        crate::glob::lemma_find_slash_bounds(s, lo, hi);
    }
}

fn split_from(p: &Vec<u8>, lo: usize) -> (r: Vec<Vec<u8>>)
    requires
        lo <= p.len(),
    ensures
        r.deep_view() == spec_split(p@, lo as int, p@.len() as int),
    decreases p.len() - lo,
{
    let hi = p.len();
    let j = find_slash_exec(p, lo, hi);
    let seg = copy_range(p, lo, j);
    if j >= hi {
        let ghost sdv = seg@;
        let mut r: Vec<Vec<u8>> = Vec::new();
        r.push(seg);
        proof {
            assert(r.deep_view() =~~= seq![sdv]);
        }
        r
    } else {
        let mut rest = split_from(p, j + 1);
        let ghost restdv = rest.deep_view();
        let ghost sdv = seg@;
        rest.insert(0, seg);
        proof {
            assert(rest.deep_view() =~~= seq![sdv] + restdv);
        }
        rest
    }
}

/// Splits a path's bytes into its `/`-separated segments; the empty path
/// denotes the filesystem root and has no segments.
pub fn split_path(p: &Vec<u8>) -> (r: Vec<Vec<u8>>)
    ensures
        p@.len() == 0 ==> r.deep_view() == Seq::<Seq<u8>>::empty(),
        p@.len() > 0 ==> r.deep_view() == spec_split(p@, 0, p@.len() as int),
{
    if p.len() == 0 {
        let r: Vec<Vec<u8>> = Vec::new();
        proof {
            assert(r.deep_view() =~= Seq::<Seq<u8>>::empty());
        }
        r
    } else {
        split_from(p, 0)
    }
}

/// A segment path written back as bytes, the segments joined with `/`.
pub open spec fn spec_join(p: Seq<Seq<u8>>) -> Seq<u8>
    decreases p.len(),
{
    if p.len() == 0 {
        Seq::empty()
    } else if p.len() == 1 {
        p[0]
    } else {
        spec_join(p.drop_last()) + seq![B_SLASH] + p.last()
    }
}

/// Joins path segments with `/`.
pub fn join_path(p: &Vec<Vec<u8>>) -> (r: Vec<u8>)
    ensures
        r@ == spec_join(p.deep_view()),
{
    let mut r: Vec<u8> = Vec::new();
    let mut i: usize = 0;
    proof {
        assert(p.deep_view().len() == p@.len());
        assert(p.deep_view().take(0) =~= Seq::<Seq<u8>>::empty());
    }
    while i < p.len()
        invariant
            0 <= i <= p.len(),
            p.deep_view().len() == p@.len(),
            r@ == spec_join(p.deep_view().take(i as int)),
        decreases p.len() - i,
    {
        if i > 0 {
            r.push(B_SLASH);
        }
        let mut k: usize = 0;
        let ghost mid = r@;
        while k < p[i].len()
            invariant
                0 <= k <= p@[i as int]@.len(),
                i < p@.len(),
                r@ == mid + p@[i as int]@.take(k as int),
            decreases p[i as int].len() - k,
        {
            r.push(p[i][k]);
            proof {
                assert(p@[i as int]@.take(k + 1 as int) =~= p@[i as int]@.take(k as int).push(
                    p@[i as int]@[k as int],
                ));
            }
            k += 1;
        }
        proof {
            let dv = p.deep_view();
            assert(p@[i as int]@.take(p@[i as int]@.len() as int) =~= p@[i as int]@);
            assert(dv[i as int] == p@[i as int]@);
            assert(dv.take(i + 1 as int).drop_last() =~= dv.take(i as int));
            assert(dv.take(i + 1 as int).last() == dv[i as int]);
            if i == 0 {
                assert(r@ =~= dv.take(1)[0]);
            } else {
                assert(r@ =~= spec_join(dv.take(i as int)) + seq![B_SLASH] + dv[i as int]);
            }
        }
        i += 1;
    }
    proof {
        assert(p.deep_view().take(p@.len() as int) =~= p.deep_view());
    }
    r
}

/// Copies a segment path; the copy has the same segments.
pub fn clone_path(p: &Vec<Vec<u8>>) -> (r: Vec<Vec<u8>>)
    ensures
        r.deep_view() == p.deep_view(),
{
    let mut r: Vec<Vec<u8>> = Vec::new();
    let mut i: usize = 0;
    while i < p.len()
        invariant
            0 <= i <= p.len(),
            r.deep_view() == p.deep_view().take(i as int),
        decreases p.len() - i,
    {
        let t = crate::glob::clone_bytes(&p[i]);
        let ghost prev = r.deep_view();
        let ghost tdv = t@;
        r.push(t);
        proof {
            assert(r.deep_view() =~~= prev.push(tdv));
            assert(p.deep_view()[i as int] =~~= p@[i as int]@);
            assert(p.deep_view().take(i + 1 as int) =~~= prev.push(tdv));
        }
        i += 1;
    }
    proof {
        assert(p.deep_view().take(p@.len() as int) =~= p.deep_view());
    }
    r
}

impl Fs {
    /// A fresh snapshot holding only a readable root directory on device
    /// `root_dev`.
    pub fn new(root_dev: u64) -> (r: Fs)
        ensures
            fs_wf(r),
            r.nodes@.len() == 1,
            r.nodes@[0].kind is Directory,
            r.nodes@[0].dev == root_dev,
            r.nodes@[0].readable,
            r.nodes@[0].children@.len() == 0,
    {
        let root = FsNode {
            kind: FileKind::Directory,
            dev: root_dev,
            ino: 0,
            readable: true,
            children: Vec::new(),
            content: Vec::new(),
            target: Option::None,
        };
        let mut nodes: Vec<FsNode> = Vec::new();
        nodes.push(root);
        Fs { nodes }
    }

    /// Adds `node` as a child of `parent` under `name`, returning the new
    /// node's index.  Well-formedness is preserved; nothing else changes.
    pub fn add_node(&mut self, parent: usize, name: Vec<u8>, node: FsNode) -> (idx: usize)
        requires
            fs_wf(*old(self)),
            parent < old(self).nodes@.len(),
            node.target matches Option::Some(t) ==> t <= old(self).nodes@.len(),
            node.children@.len() == 0,
        ensures
            fs_wf(*final(self)),
            idx == old(self).nodes@.len(),
            final(self).nodes@.len() == old(self).nodes@.len() + 1,
            final(self).nodes@[idx as int] == node,
            forall|i: int|
                0 <= i < old(self).nodes@.len() && i != parent ==> final(self).nodes@[i] == old(
                    self,
                ).nodes@[i],
            final(self).nodes@[parent as int].children@ == old(self).nodes@[
                parent as int
            ].children@.push((FsChild { name, node: idx })),
            final(self).nodes@[parent as int].kind == old(self).nodes@[parent as int].kind,
            final(self).nodes@[parent as int].dev == old(self).nodes@[parent as int].dev,
            final(self).nodes@[parent as int].ino == old(self).nodes@[parent as int].ino,
            final(self).nodes@[parent as int].readable == old(self).nodes@[
                parent as int
            ].readable,
            final(self).nodes@[parent as int].content == old(self).nodes@[parent as int].content,
            final(self).nodes@[parent as int].target == old(self).nodes@[parent as int].target,
    {
        let idx = self.nodes.len();
        self.nodes.push(node);
        let child = FsChild { name, node: idx };
        let p = &mut self.nodes[parent];
        p.children.push(child);
        proof {
            let n = self.nodes@;
            let o = old(self).nodes@;
            assert forall|i: int, j: int|
                0 <= i < n.len() && 0 <= j < n[i].children@.len() implies i < (
            #[trigger] n[i].children@[j]).node < n.len() by {
                if i == parent {
                    if j < o[i].children@.len() {
                        assert(n[i].children@[j] == o[i].children@[j]);
                    } else {
                        assert(n[i].children@[j].node == idx);
                    }
                } else if i < o.len() {
                    assert(n[i] == o[i]);
                } else {
                    assert(n[i].children@.len() == 0);
                }
            }
            assert forall|i: int|
                0 <= i < n.len() implies ((#[trigger] n[i]).target matches Option::Some(t) ==> 0
                <= t < n.len()) by {
                if i == parent {
                    assert(n[i].target == o[i].target);
                } else if i < o.len() {
                    assert(n[i] == o[i]);
                }
            }
        }
        idx
    }

    /// Adds a readable directory child.
    pub fn add_dir(&mut self, parent: usize, name: Vec<u8>, dev: u64, ino: u64) -> (idx: usize)
        requires
            fs_wf(*old(self)),
            parent < old(self).nodes@.len(),
        ensures
            fs_wf(*final(self)),
            idx == old(self).nodes@.len(),
            final(self).nodes@.len() == old(self).nodes@.len() + 1,
            final(self).nodes@[idx as int].kind is Directory,
            final(self).nodes@[idx as int].dev == dev,
            final(self).nodes@[idx as int].ino == ino,
            final(self).nodes@[idx as int].readable,
            final(self).nodes@[idx as int].children@.len() == 0,
            final(self).nodes@[idx as int].content@.len() == 0,
            final(self).nodes@[idx as int].target is None,
            forall|i: int|
                0 <= i < old(self).nodes@.len() && i != parent ==> final(self).nodes@[i] == old(
                    self,
                ).nodes@[i],
            final(self).nodes@[parent as int].children@ == old(self).nodes@[
                parent as int
            ].children@.push((FsChild { name, node: idx })),
            final(self).nodes@[parent as int].kind == old(self).nodes@[parent as int].kind,
            final(self).nodes@[parent as int].dev == old(self).nodes@[parent as int].dev,
            final(self).nodes@[parent as int].ino == old(self).nodes@[parent as int].ino,
            final(self).nodes@[parent as int].readable == old(self).nodes@[
                parent as int
            ].readable,
            final(self).nodes@[parent as int].content == old(self).nodes@[parent as int].content,
            final(self).nodes@[parent as int].target == old(self).nodes@[parent as int].target,
    {
        self.add_node(
            parent,
            name,
            FsNode {
                kind: FileKind::Directory,
                dev,
                ino,
                readable: true,
                children: Vec::new(),
                content: Vec::new(),
                target: Option::None,
            },
        )
    }

    /// Adds a file child with the given contents.
    pub fn add_file(&mut self, parent: usize, name: Vec<u8>, content: Vec<u8>) -> (idx: usize)
        requires
            fs_wf(*old(self)),
            parent < old(self).nodes@.len(),
        ensures
            fs_wf(*final(self)),
            idx == old(self).nodes@.len(),
            final(self).nodes@.len() == old(self).nodes@.len() + 1,
            final(self).nodes@[idx as int].kind is File,
            final(self).nodes@[idx as int].readable,
            final(self).nodes@[idx as int].children@.len() == 0,
            final(self).nodes@[idx as int].content == content,
            final(self).nodes@[idx as int].target is None,
            forall|i: int|
                0 <= i < old(self).nodes@.len() && i != parent ==> final(self).nodes@[i] == old(
                    self,
                ).nodes@[i],
            final(self).nodes@[parent as int].children@ == old(self).nodes@[
                parent as int
            ].children@.push((FsChild { name, node: idx })),
            final(self).nodes@[parent as int].kind == old(self).nodes@[parent as int].kind,
            final(self).nodes@[parent as int].dev == old(self).nodes@[parent as int].dev,
            final(self).nodes@[parent as int].ino == old(self).nodes@[parent as int].ino,
            final(self).nodes@[parent as int].readable == old(self).nodes@[
                parent as int
            ].readable,
            final(self).nodes@[parent as int].content == old(self).nodes@[parent as int].content,
            final(self).nodes@[parent as int].target == old(self).nodes@[parent as int].target,
    {
        self.add_node(
            parent,
            name,
            FsNode {
                kind: FileKind::File,
                dev: 1,
                ino: 0,
                readable: true,
                children: Vec::new(),
                content,
                target: Option::None,
            },
        )
    }

    /// Adds a symlink child pointing at node `target`; `None` models a
    /// broken link.  The target may be any existing node, so cycles back
    /// into ancestors can be modelled.
    pub fn add_symlink(&mut self, parent: usize, name: Vec<u8>, target: Option<usize>) -> (idx:
        usize)
        requires
            fs_wf(*old(self)),
            parent < old(self).nodes@.len(),
            target matches Option::Some(t) ==> t <= old(self).nodes@.len(),
        ensures
            fs_wf(*final(self)),
            idx == old(self).nodes@.len(),
            final(self).nodes@.len() == old(self).nodes@.len() + 1,
            final(self).nodes@[idx as int].kind is Symlink,
            final(self).nodes@[idx as int].children@.len() == 0,
            final(self).nodes@[idx as int].target == target,
            forall|i: int|
                0 <= i < old(self).nodes@.len() && i != parent ==> final(self).nodes@[i] == old(
                    self,
                ).nodes@[i],
            final(self).nodes@[parent as int].children@ == old(self).nodes@[
                parent as int
            ].children@.push((FsChild { name, node: idx })),
            final(self).nodes@[parent as int].kind == old(self).nodes@[parent as int].kind,
            final(self).nodes@[parent as int].dev == old(self).nodes@[parent as int].dev,
            final(self).nodes@[parent as int].ino == old(self).nodes@[parent as int].ino,
            final(self).nodes@[parent as int].readable == old(self).nodes@[
                parent as int
            ].readable,
            final(self).nodes@[parent as int].content == old(self).nodes@[parent as int].content,
            final(self).nodes@[parent as int].target == old(self).nodes@[parent as int].target,
    {
        self.add_node(
            parent,
            name,
            FsNode {
                kind: FileKind::Symlink,
                dev: 1,
                ino: 0,
                readable: true,
                children: Vec::new(),
                content: Vec::new(),
                target,
            },
        )
    }

    /// Marks a node unreadable: listing its entries will fail.
    pub fn set_unreadable(&mut self, node: usize)
        requires
            fs_wf(*old(self)),
            node < old(self).nodes@.len(),
        ensures
            fs_wf(*final(self)),
            final(self).nodes@.len() == old(self).nodes@.len(),
    {
        let n = &mut self.nodes[node];
        n.readable = false;
        proof {
            let nn = self.nodes@;
            let o = old(self).nodes@;
            assert forall|i: int, j: int|
                0 <= i < nn.len() && 0 <= j < nn[i].children@.len() implies i < (
            #[trigger] nn[i].children@[j]).node < nn.len() by {
                if i != node {
                    assert(nn[i] == o[i]);
                } else {
                    assert(nn[i].children@[j] == o[i].children@[j]);
                }
            }
            assert forall|i: int|
                0 <= i < nn.len() implies ((#[trigger] nn[i]).target matches Option::Some(t) ==> 0
                <= t < nn.len()) by {
                if i != node {
                    assert(nn[i] == o[i]);
                }
            }
        }
    }

    /// Redirects a symlink node to an in-bounds target; `None` makes it
    /// a broken link.  Well-formedness is preserved; no other node
    /// changes.
    pub fn set_link_target(&mut self, node: usize, target: Option<usize>)
        requires
            fs_wf(*old(self)),
            node < old(self).nodes@.len(),
            target matches Option::Some(t) ==> t < old(self).nodes@.len(),
        ensures
            fs_wf(*final(self)),
            final(self).nodes@.len() == old(self).nodes@.len(),
            final(self).nodes@[node as int].target == target,
            forall|i: int|
                0 <= i < old(self).nodes@.len() && i != node ==> final(self).nodes@[i] == old(
                    self,
                ).nodes@[i],
    {
        let n = &mut self.nodes[node];
        n.target = target;
        proof {
            let nn = self.nodes@;
            let o = old(self).nodes@;
            assert forall|i: int, j: int|
                0 <= i < nn.len() && 0 <= j < nn[i].children@.len() implies i < (
            #[trigger] nn[i].children@[j]).node < nn.len() by {
                if i != node {
                    assert(nn[i] == o[i]);
                } else {
                    assert(nn[i].children@[j] == o[i].children@[j]);
                }
            }
            assert forall|i: int|
                0 <= i < nn.len() implies ((#[trigger] nn[i]).target matches Option::Some(t) ==> 0
                <= t < nn.len()) by {
                if i != node {
                    assert(nn[i] == o[i]);
                }
            }
        }
    }

    /// Sets a node's device and inode identity.
    pub fn set_identity(&mut self, node: usize, dev: u64, ino: u64)
        requires
            fs_wf(*old(self)),
            node < old(self).nodes@.len(),
        ensures
            fs_wf(*final(self)),
            final(self).nodes@.len() == old(self).nodes@.len(),
            final(self).nodes@[node as int].dev == dev,
            final(self).nodes@[node as int].ino == ino,
    {
        let n = &mut self.nodes[node];
        n.dev = dev;
        n.ino = ino;
        proof {
            let nn = self.nodes@;
            let o = old(self).nodes@;
            assert forall|i: int, j: int|
                0 <= i < nn.len() && 0 <= j < nn[i].children@.len() implies i < (
            #[trigger] nn[i].children@[j]).node < nn.len() by {
                if i != node {
                    assert(nn[i] == o[i]);
                } else {
                    assert(nn[i].children@[j] == o[i].children@[j]);
                }
            }
            assert forall|i: int|
                0 <= i < nn.len() implies ((#[trigger] nn[i]).target matches Option::Some(t) ==> 0
                <= t < nn.len()) by {
                if i != node {
                    assert(nn[i] == o[i]);
                }
            }
        }
    }
}

} // verus!
