//! The traversal state machine: a depth-first walk over a filesystem
//! snapshot driven by an explicit pending stack, consulting the layered
//! ignore context for every candidate entry, pruning whole ignored
//! subtrees, honouring the depth bound and same-filesystem confinement,
//! and detecting symlink cycles by (device, inode) identity.

use vstd::prelude::*;
use crate::Error;
use crate::glob::{GPattern, LineOutcome, Pattern, clone_bytes, spec_compile, compile};
use crate::overrides::Override;
use crate::stack::{Frame, IgnoreLayer, IgnoreStack, spec_should_skip};
use crate::fsmodel::{
    FileKind, Fs, fs_wf, find_child, resolve_link, split_path, join_path, clone_path,
};

verus! {

pub const B_NL: u8 = 10;

/// The index of the first newline at or after `lo` (or `hi` when none).
pub open spec fn find_nl(s: Seq<u8>, lo: int, hi: int) -> int
    decreases hi - lo,
    when 0 <= lo <= hi <= s.len()
{
    if lo >= hi {
        hi
    } else if s[lo] == B_NL {
        lo
    } else {
        find_nl(s, lo + 1, hi)
    }
}

proof fn lemma_find_nl_bounds(s: Seq<u8>, lo: int, hi: int)
    requires
        0 <= lo <= hi <= s.len(),
    ensures
        lo <= find_nl(s, lo, hi) <= hi,
    decreases hi - lo,
{
    if lo >= hi {
    } else if s[lo] == B_NL {
    } else {
        lemma_find_nl_bounds(s, lo + 1, hi);
    }
}

/// The lines of the byte range `[lo, hi)`, split on newlines.
pub open spec fn spec_lines(s: Seq<u8>, lo: int, hi: int) -> Seq<Seq<u8>>
    decreases hi - lo,
    when 0 <= lo <= hi <= s.len()
    via spec_lines_dec
{
    let j = find_nl(s, lo, hi);
    if j >= hi {
        seq![s.subrange(lo, hi)]
    } else {
        seq![s.subrange(lo, j)] + spec_lines(s, j + 1, hi)
    }
}

#[via_fn]
proof fn spec_lines_dec(s: Seq<u8>, lo: int, hi: int) {
    if 0 <= lo <= hi <= s.len() {
        lemma_find_nl_bounds(s, lo, hi);
    }
}

fn find_nl_exec(s: &Vec<u8>, lo: usize, hi: usize) -> (j: usize)
    requires
        lo <= hi <= s.len(),
    ensures
        j as int == find_nl(s@, lo as int, hi as int),
        lo <= j <= hi,
    decreases hi - lo,
{
    if lo >= hi {
        hi
    } else if s[lo] == B_NL {
        lo
    } else {
        find_nl_exec(s, lo + 1, hi)
    }
}

fn split_lines_from(s: &Vec<u8>, lo: usize) -> (r: Vec<Vec<u8>>)
    requires
        lo <= s.len(),
    ensures
        r.deep_view() == spec_lines(s@, lo as int, s@.len() as int),
    decreases s.len() - lo,
{
    let hi = s.len();
    let j = find_nl_exec(s, lo, hi);
    let seg = crate::fsmodel::copy_range(s, lo, j);
    if j >= hi {
        let ghost sdv = seg@;
        let mut r: Vec<Vec<u8>> = Vec::new();
        r.push(seg);
        proof {
            assert(r.deep_view() =~~= seq![sdv]);
        }
        r
    } else {
        let mut rest = split_lines_from(s, j + 1);
        let ghost restdv = rest.deep_view();
        let ghost sdv = seg@;
        rest.insert(0, seg);
        proof {
            assert(rest.deep_view() =~~= seq![sdv] + restdv);
        }
        rest
    }
}

/// The patterns that the lines from `i` on contribute: each line's
/// compiled form, with blank lines, comments and malformed lines skipped.
pub open spec fn spec_patterns_of_lines(lines: Seq<Seq<u8>>, i: int) -> Seq<GPattern>
    decreases lines.len() - i,
    when 0 <= i <= lines.len()
{
    if i == lines.len() {
        Seq::empty()
    } else {
        match spec_compile(lines[i]) {
            LineOutcome::Pat(g) => seq![g] + spec_patterns_of_lines(lines, i + 1),
            _ => spec_patterns_of_lines(lines, i + 1),
        }
    }
}

/// The first malformed line from `i` on, if any.
pub open spec fn spec_first_bad_line(lines: Seq<Seq<u8>>, i: int) -> Option<Seq<u8>>
    decreases lines.len() - i,
    when 0 <= i <= lines.len()
{
    if i == lines.len() {
        Option::None
    } else if spec_compile(lines[i]) is Bad {
        Option::Some(lines[i])
    } else {
        spec_first_bad_line(lines, i + 1)
    }
}

/// The patterns an ignore file's contents contribute, best-effort:
/// malformed lines are skipped, the rest of the file is still honoured.
pub open spec fn spec_patterns_of(content: Seq<u8>) -> Seq<GPattern> {
    if content.len() == 0 {
        Seq::empty()
    } else {
        spec_patterns_of_lines(spec_lines(content, 0, content.len() as int), 0)
    }
}

/// The first malformed line of an ignore file's contents, if any.
pub open spec fn spec_content_first_bad(content: Seq<u8>) -> Option<Seq<u8>> {
    if content.len() == 0 {
        Option::None
    } else {
        spec_first_bad_line(spec_lines(content, 0, content.len() as int), 0)
    }
}

/// Compiles an ignore file's contents, line by line, best-effort:
/// malformed lines are skipped and the first one is returned beside the
/// compiled patterns.  Contents are split on newlines alone; ignore files
/// are line-feed separated by convention, and a carriage return is an
/// ordinary byte of its line.
pub fn parse_lines(content: &Vec<u8>) -> (r: (Vec<Pattern>, Option<Vec<u8>>))
    ensures
        r.0.deep_view() == spec_patterns_of(content@),
        match spec_content_first_bad(content@) {
            Option::Some(l) => r.1 matches Option::Some(v) && v@ == l,
            Option::None => r.1 is None,
        },
{
    if content.len() == 0 {
        let ps: Vec<Pattern> = Vec::new();
        proof {
            assert(ps.deep_view() =~= Seq::<GPattern>::empty());
        }
        return (ps, Option::None);
    }
    let lines = split_lines_from(content, 0);
    let ghost ldv = lines.deep_view();
    let mut ps: Vec<Pattern> = Vec::new();
    let mut bad: Option<Vec<u8>> = Option::None;
    let mut i: usize = 0;
    proof {
        assert(ldv.len() == lines@.len());
    }
    while i < lines.len()
        invariant
            0 <= i <= lines.len(),
            ldv == lines.deep_view(),
            ldv.len() == lines@.len(),
            spec_patterns_of_lines(ldv, 0) == ps.deep_view() + spec_patterns_of_lines(ldv, i as int),
            match bad {
                Option::Some(v) => spec_first_bad_line(ldv, 0) == Option::Some(v@),
                Option::None => spec_first_bad_line(ldv, 0) == spec_first_bad_line(ldv, i as int),
            },
        decreases lines.len() - i,
    {
        proof {
            assert(ldv[i as int] == lines@[i as int]@);
        }
        match compile(&lines[i]) {
            Ok(Option::Some(p)) => {
                let ghost g = p.deep_view();
                let ghost before = ps.deep_view();
                ps.push(p);
                proof {
                    assert(ps.deep_view() =~= before.push(g));
                    assert(spec_compile(ldv[i as int]) matches LineOutcome::Pat(gg) && gg == g);
                    assert(before + (seq![g] + spec_patterns_of_lines(ldv, i + 1 as int))
                        =~= before.push(g) + spec_patterns_of_lines(ldv, i + 1 as int));
                }
            },
            Ok(Option::None) => {},
            Err(e) => {
                let keep = match &bad {
                    Option::Some(_) => false,
                    Option::None => true,
                };
                if keep {
                    match e {
                        Error::InvalidPattern { glob } => {
                            bad = Option::Some(glob);
                        },
                        _ => {},
                    }
                }
            },
        }
        i += 1;
    }
    proof {
        assert(spec_patterns_of_lines(ldv, ldv.len() as int) =~= Seq::<GPattern>::empty());
        assert(ps.deep_view() + Seq::<GPattern>::empty() =~= ps.deep_view());
    }
    (ps, bad)
}

/// Loads one ignore file (child `name` of directory `node`) into a layer
/// rooted at `dir_depth`.  Absent, non-file or unreadable children load
/// nothing; the file's lines are compiled best-effort.
fn load_ignore_layer(fs: &Fs, node: usize, name: &Vec<u8>, dir_depth: usize) -> (r: Option<
    IgnoreLayer,
>)
    requires
        fs_wf(*fs),
        node < fs.nodes@.len(),
    ensures
        r matches Option::Some(l) ==> l.dir_depth == dir_depth,
        loaded_layer_ok(*fs, node as int, name@, dir_depth as int, r),
{
    match find_child(fs, node, name) {
        Option::Some(f) => {
            let is_file = match fs.nodes[f].kind {
                FileKind::File => true,
                _ => false,
            };
            if is_file && fs.nodes[f].readable {
                let (patterns, _) = parse_lines(&fs.nodes[f].content);
                Option::Some(IgnoreLayer { dir_depth, patterns })
            } else {
                Option::None
            }
        },
        Option::None => Option::None,
    }
}

/// The name of the per-directory git ignore file.
pub open spec fn gitignore_name() -> Seq<u8> {
    seq![46u8, 103u8, 105u8, 116u8, 105u8, 103u8, 110u8, 111u8, 114u8, 101u8]
}

/// The name of the per-directory plain ignore file.
pub open spec fn dot_ignore_name() -> Seq<u8> {
    seq![46u8, 105u8, 103u8, 110u8, 111u8, 114u8, 101u8]
}

/// Exactly what loading one named ignore file of a directory produces:
/// when a readable file of that name exists, the layer at the
/// directory's depth holding exactly the file's compiled patterns; in
/// every other case — no such child, or a child that is not a readable
/// file — no layer at all.
pub open spec fn loaded_layer_ok(
    fs: Fs,
    node: int,
    name: Seq<u8>,
    dir_depth: int,
    l: Option<IgnoreLayer>,
) -> bool {
    match crate::fsmodel::spec_find_child(fs, node, name) {
        Option::Some(f) => if fs.nodes@[f].kind is File && fs.nodes@[f].readable {
            l matches Option::Some(ll) && ll.dir_depth as int == dir_depth
                && ll.patterns.deep_view() == spec_patterns_of(fs.nodes@[f].content@)
        } else {
            l is None
        },
        Option::None => l is None,
    }
}

/// The custom layers one directory contributes: one layer per configured
/// name that exists as a readable file there, in configuration order,
/// each holding exactly that file's compiled patterns.
pub open spec fn spec_custom_layers(
    fs: Fs,
    node: int,
    dir_depth: int,
    names: Seq<Seq<u8>>,
    i: int,
) -> Seq<crate::stack::GLayer>
    decreases names.len() - i,
    when 0 <= i <= names.len()
{
    if i == names.len() {
        Seq::empty()
    } else {
        let rest = spec_custom_layers(fs, node, dir_depth, names, i + 1);
        match crate::fsmodel::spec_find_child(fs, node, names[i]) {
            Option::Some(f) => if fs.nodes@[f].kind is File && fs.nodes@[f].readable {
                seq![
                    crate::stack::GLayer {
                        dir_depth,
                        patterns: spec_patterns_of(fs.nodes@[f].content@),
                    },
                ] + rest
            } else {
                rest
            },
            Option::None => rest,
        }
    }
}

/// Exactly what a directory's loaded frame holds: its custom layers are
/// the configured names' readable files, in configuration order, and its
/// `.gitignore` and `.ignore` layers are present per toggle and file.
pub open spec fn frame_ok(
    fs: Fs,
    node: int,
    dir_depth: int,
    names: Seq<Seq<u8>>,
    use_git: bool,
    use_ig: bool,
    f: Frame,
) -> bool {
    &&& f.customs.deep_view() == spec_custom_layers(fs, node, dir_depth, names, 0)
    &&& if use_git {
        loaded_layer_ok(fs, node, gitignore_name(), dir_depth, f.gitignore)
    } else {
        f.gitignore is None
    }
    &&& if use_ig {
        loaded_layer_ok(fs, node, dot_ignore_name(), dir_depth, f.ignore_file)
    } else {
        f.ignore_file is None
    }
}

/// Loads the ignore files physically present in one directory: one layer
/// per configured custom ignore filename (in configuration order), the
/// `.gitignore` layer when git ignore files are enabled and allowed, and
/// the `.ignore` layer when enabled.
fn load_frame(
    fs: &Fs,
    node: usize,
    dir_depth: usize,
    custom_names: &Vec<Vec<u8>>,
    use_gitignore: bool,
    use_ignore: bool,
) -> (f: Frame)
    requires
        fs_wf(*fs),
        node < fs.nodes@.len(),
    ensures
        frame_ok(
            *fs,
            node as int,
            dir_depth as int,
            custom_names.deep_view(),
            use_gitignore,
            use_ignore,
            f,
        ),
{
    let ghost ndv = custom_names.deep_view();
    proof {
        assert(ndv.len() == custom_names@.len());
    }
    let mut customs: Vec<IgnoreLayer> = Vec::new();
    let mut i: usize = 0;
    while i < custom_names.len()
        invariant
            fs_wf(*fs),
            node < fs.nodes@.len(),
            0 <= i <= custom_names@.len(),
            ndv == custom_names.deep_view(),
            ndv.len() == custom_names@.len(),
            spec_custom_layers(*fs, node as int, dir_depth as int, ndv, 0) == customs.deep_view()
                + spec_custom_layers(*fs, node as int, dir_depth as int, ndv, i as int),
        decreases custom_names.len() - i,
    {
        proof {
            assert(ndv[i as int] == custom_names@[i as int]@);
        }
        match load_ignore_layer(fs, node, &custom_names[i], dir_depth) {
            Option::Some(l) => {
                let ghost g = l.deep_view();
                let ghost before = customs.deep_view();
                customs.push(l);
                proof {
                    assert(customs.deep_view() =~= before.push(g));
                    assert(before + (seq![g] + spec_custom_layers(
                        *fs,
                        node as int,
                        dir_depth as int,
                        ndv,
                        i + 1 as int,
                    )) =~= before.push(g) + spec_custom_layers(
                        *fs,
                        node as int,
                        dir_depth as int,
                        ndv,
                        i + 1 as int,
                    ));
                }
            },
            Option::None => {},
        }
        i += 1;
    }
    proof {
        assert(spec_custom_layers(*fs, node as int, dir_depth as int, ndv, ndv.len() as int)
            =~= Seq::<crate::stack::GLayer>::empty());
        assert(customs.deep_view() + Seq::<crate::stack::GLayer>::empty() =~= customs.deep_view());
    }
    let gitignore = if use_gitignore {
        let name: Vec<u8> = vec![46u8, 103u8, 105u8, 116u8, 105u8, 103u8, 110u8, 111u8, 114u8, 101u8];
        proof {
            assert(name@ =~= gitignore_name());
        }
        load_ignore_layer(fs, node, &name, dir_depth)
    } else {
        Option::None
    };
    let ignore_file = if use_ignore {
        let name: Vec<u8> = vec![46u8, 105u8, 103u8, 110u8, 111u8, 114u8, 101u8];
        proof {
            assert(name@ =~= dot_ignore_name());
        }
        load_ignore_layer(fs, node, &name, dir_depth)
    } else {
        Option::None
    };
    Frame { customs, gitignore, ignore_file }
}

/// An immutable snapshot of one visited path: its joined byte path, its
/// depth relative to the walk root (root is 0), and its file-type
/// classification (the symlink target's type when links are followed).
pub struct DirEntry {
    pub path: Vec<u8>,
    pub depth: usize,
    pub kind: FileKind,
    pub parent_dev: Ghost<u64>,
}

impl DirEntry {
    /// The entry's path, segments joined with `/`.
    pub fn path(&self) -> (r: &Vec<u8>)
        ensures
            r@ == self.path@,
    {
        &self.path
    }

    /// The entry's depth below the walk root; the root itself is 0.
    pub fn depth(&self) -> (r: usize)
        ensures
            r == self.depth,
    {
        self.depth
    }

    /// The entry's file-type classification.
    pub fn file_kind(&self) -> (r: FileKind)
        ensures
            r == self.kind,
    {
        self.kind
    }
}

/// One unit of pending work: visit a path, leave a directory (popping its
/// ignore frame), or report a queued per-entry error.
pub enum Pending {
    Visit { node: usize, path: Vec<Vec<u8>>, parent_dev: Ghost<u64> },
    Leave,
    Report { err: Error },
}

/// Every pending visit is consistent with the walk it belongs to: its
/// node is in bounds, its path extends the root path, its depth respects
/// the configured bound, and under same-filesystem confinement its parent
/// directory lies on the root's device.
pub open spec fn pending_ok(
    fs: Fs,
    root_depth: int,
    max_depth: Option<usize>,
    same_fs: bool,
    root_dev: u64,
    it: Pending,
) -> bool {
    it matches Pending::Visit { node, path, parent_dev } ==> {
        &&& node < fs.nodes@.len()
        &&& path@.len() >= root_depth
        &&& (max_depth matches Option::Some(d) ==> path@.len() - root_depth <= d)
        &&& (same_fs ==> path@.len() == root_depth || parent_dev@ == root_dev)
    }
}

/// The configuration a walk never changes: the snapshot, the traversal
/// toggles, the custom names and the override context.
pub open spec fn same_config(a: Walk, b: Walk) -> bool {
    &&& b.fs == a.fs
    &&& b.follow_links == a.follow_links
    &&& b.same_file_system == a.same_file_system
    &&& b.max_depth == a.max_depth
    &&& b.custom_names == a.custom_names
    &&& b.use_ignore == a.use_ignore
    &&& b.ig.overrides == a.ig.overrides
    &&& b.ig.override_depth == a.ig.override_depth
    &&& b.ig.hidden == a.ig.hidden
}

/// The state that is fixed while one root is being walked.
pub open spec fn same_root_state(a: Walk, b: Walk) -> bool {
    &&& b.use_gitignore == a.use_gitignore
    &&& b.root_dev == a.root_dev
    &&& b.ig.root_depth == a.ig.root_depth
    &&& b.ig.exclude == a.ig.exclude
    &&& b.ig.global_layer == a.ig.global_layer
    &&& b.roots@ == a.roots@
}

/// The node an entry is classified from: a symlink is resolved when
/// links are followed, anything else stands for itself.
pub open spec fn spec_effective(fs: Fs, follow: bool, node: int) -> Result<int, bool> {
    if fs.nodes@[node].kind is Symlink && follow {
        crate::fsmodel::spec_resolve_link(fs, node, fs.nodes@.len() as nat)
    } else {
        Result::Ok(node)
    }
}

/// Leaving a directory: the marker is popped and with it the directory's
/// ignore frame; nothing else changes and nothing is yielded.
pub open spec fn leave_step(pre: Walk, post: Walk) -> bool {
    &&& pre.pending@.len() > 0
    &&& pre.pending@.last() is Leave
    &&& post.pending@ == pre.pending@.drop_last()
    &&& post.ig.frames@ == if pre.ig.frames@.len() > 0 {
        pre.ig.frames@.drop_last()
    } else {
        pre.ig.frames@
    }
    &&& post.visited == pre.visited
    &&& same_config(pre, post)
    &&& same_root_state(pre, post)
}

/// Pruning: a non-root visit whose path the ignore stack skips is
/// discarded whole — it is not yielded, no error is reported for it, and
/// no child of it is ever enqueued.
pub open spec fn skip_step(pre: Walk, post: Walk) -> bool {
    &&& pre.pending@.len() > 0
    &&& (match pre.pending@.last() {
        Pending::Visit { node, path, parent_dev } => match spec_effective(
            pre.fs,
            pre.follow_links,
            node as int,
        ) {
            Result::Ok(en) => path.deep_view().len() > pre.ig.root_depth && spec_should_skip(
                pre.ig@,
                path.deep_view(),
                pre.fs.nodes@[en].kind is Directory,
            ),
            Result::Err(_) => false,
        },
        _ => false,
    })
    &&& post.pending@ == pre.pending@.drop_last()
    &&& post.ig == pre.ig
    &&& post.visited == pre.visited
    &&& same_config(pre, post)
    &&& same_root_state(pre, post)
}

/// Beginning the next traversal root: its prepared frames, depth and
/// device are installed and its first unit of work becomes pending.
pub open spec fn root_step(pre: Walk, post: Walk) -> bool {
    &&& pre.pending@.len() == 0
    &&& pre.roots@.len() > 0
    &&& post.roots@ == pre.roots@.drop_last()
    &&& post.pending@.len() == 1
    &&& post.pending@[0] == pre.roots@.last().start
    &&& post.ig.frames == pre.roots@.last().frames
    &&& post.ig.exclude == pre.roots@.last().exclude
    &&& post.ig.global_layer == pre.roots@.last().global_layer
    &&& post.ig.root_depth == pre.roots@.last().root_depth
    &&& post.root_dev == pre.roots@.last().root_dev
    &&& post.use_gitignore == pre.roots@.last().use_gitignore
    &&& post.visited == pre.visited
    &&& same_config(pre, post)
}

/// One bookkeeping transition that yields no item.
pub open spec fn quiet_step(pre: Walk, post: Walk) -> bool {
    ||| leave_step(pre, post)
    ||| skip_step(pre, post)
    ||| root_step(pre, post)
}

/// `post` is `pre` after exactly `n` quiet transitions.
pub open spec fn quiet_reaches_n(pre: Walk, post: Walk, n: nat) -> bool
    decreases n,
{
    if n == 0 {
        post == pre
    } else {
        exists|mid: Walk| #[trigger] quiet_step(pre, mid) && quiet_reaches_n(mid, post, (n - 1) as nat)
    }
}

/// A quiet chain extends by one more quiet step at its end.
pub proof fn lemma_reaches_extend(a: Walk, b: Walk, c: Walk, n: nat)
    requires
        quiet_reaches_n(a, b, n),
        quiet_step(b, c),
    ensures
        quiet_reaches_n(a, c, n + 1),
    decreases n,
{
    if n == 0 {
        assert(quiet_step(a, c));
        assert(quiet_reaches_n(c, c, 0));
    } else {
        let mid = choose|mid: Walk|
            #[trigger] quiet_step(a, mid) && quiet_reaches_n(mid, b, (n - 1) as nat);
        lemma_reaches_extend(mid, b, c, (n - 1) as nat);
        assert(quiet_step(a, mid) && quiet_reaches_n(mid, c, n));
    }
}

/// The state changes by a pop of the top pending item and nothing else.
pub open spec fn unchanged_but_pop(pre: Walk, post: Walk) -> bool {
    &&& post.pending@ == pre.pending@.drop_last()
    &&& post.ig == pre.ig
    &&& post.visited == pre.visited
    &&& same_config(pre, post)
    &&& same_root_state(pre, post)
}

/// The top pending item is replaced by one queued report; everything up
/// the stack survives.
pub open spec fn popped_with_report(pre: Walk, post: Walk) -> bool {
    &&& post.pending@.len() == pre.pending@.len()
    &&& forall|k: int| 0 <= k < pre.pending@.len() - 1 ==> post.pending@[k] == pre.pending@[k]
    &&& post.ig == pre.ig
    &&& same_config(pre, post)
    &&& same_root_state(pre, post)
}

/// The readable directory's frontier update: the visit is replaced by a
/// leave marker and one pending visit per child, pushed in reverse so the
/// children are served in order, each at the parent's path extended by
/// its name and carrying the parent's device.
pub open spec fn children_enqueued(pre: Walk, post: Walk, en: int, dv: Seq<Seq<u8>>, dev: u64) -> bool {
    let children = pre.fs.nodes@[en].children@;
    &&& post.pending@.len() == pre.pending@.len() + children.len()
    &&& (forall|k: int| 0 <= k < pre.pending@.len() - 1 ==> post.pending@[k] == pre.pending@[k])
    &&& post.pending@[pre.pending@.len() - 1] is Leave
    &&& (forall|j: int|
        0 <= j < children.len() ==> ((#[trigger] post.pending@[pre.pending@.len() + j])
            matches Pending::Visit { node: cn, path: cp, parent_dev: cpd } && cn == children[
            children.len() - 1 - j].node && cp.deep_view() == dv.push(
            children[children.len() - 1 - j].name@,
        ) && cpd@ == dev))
}

/// What serving a pending visit yields and leaves behind: a failed
/// symlink resolution is that entry's `Io` error; otherwise the entry is
/// yielded with its joined path, its depth below the root, the resolved
/// node's classification and its parent's device, and — exactly when it
/// is an enterable directory — either the device boundary stops the
/// descent, a known (device, inode) queues a `Loop` report, an unreadable
/// directory queues its `Io` report, or the directory's ignore frame is
/// pushed and its children are enqueued, in order, at the extended path.
pub open spec fn serve_visit(
    pre: Walk,
    node: usize,
    path: Vec<Vec<u8>>,
    pd: Ghost<u64>,
    post: Walk,
    r: Option<Result<DirEntry, Error>>,
) -> bool {
    let dv = path.deep_view();
    let jp = crate::fsmodel::spec_join(dv);
    match spec_effective(pre.fs, pre.follow_links, node as int) {
        Result::Err(nf) => {
            &&& r matches Some(rr) && rr matches Err(e) && e matches Error::Io {
                path: p,
                not_found,
            } && p@ == jp && not_found == nf
            &&& unchanged_but_pop(pre, post)
        },
        Result::Ok(en) => {
            let kind = pre.fs.nodes@[en].kind;
            let is_dir = kind is Directory;
            let depth = dv.len() - pre.ig.root_depth;
            let descend = is_dir && (match pre.max_depth {
                Option::Some(d) => depth < d,
                Option::None => true,
            });
            let dev = pre.fs.nodes@[en].dev;
            let ino = pre.fs.nodes@[en].ino;
            &&& !(dv.len() > pre.ig.root_depth && spec_should_skip(pre.ig@, dv, is_dir))
            &&& r matches Some(rr) && rr matches Ok(e) && e.path@ == jp && e.depth as int == depth
                && e.kind == kind && e.parent_dev == pd
            &&& if !descend || (pre.same_file_system && dev != pre.root_dev) {
                unchanged_but_pop(pre, post)
            } else if pre.follow_links && pre.visited@.contains((dev, ino)) {
                &&& popped_with_report(pre, post)
                &&& post.visited == pre.visited
                &&& post.pending@.last() matches Pending::Report { err } && err matches Error::Loop {
                    path: lp,
                } && lp@ == jp
            } else {
                &&& if pre.follow_links {
                    post.visited@ == pre.visited@.push((dev, ino))
                } else {
                    post.visited == pre.visited
                }
                &&& if !pre.fs.nodes@[en].readable {
                    &&& popped_with_report(pre, post)
                    &&& post.pending@.last() matches Pending::Report { err }
                        && err matches Error::Io { path: p2, not_found } && p2@ == jp && !not_found
                } else {
                    let children = pre.fs.nodes@[en].children@;
                    &&& same_config(pre, post)
                    &&& same_root_state(pre, post)
                    &&& post.ig.frames@.len() == pre.ig.frames@.len() + 1
                    &&& (forall|k: int|
                        0 <= k < pre.ig.frames@.len() ==> post.ig.frames@[k]
                            == pre.ig.frames@[k])
                    &&& frame_ok(
                        pre.fs,
                        en,
                        dv.len() as int,
                        pre.custom_names.deep_view(),
                        pre.use_gitignore,
                        pre.use_ignore,
                        post.ig.frames@.last(),
                    )
                    &&& post.ig.exclude == pre.ig.exclude
                    &&& post.ig.global_layer == pre.ig.global_layer
                    &&& children_enqueued(pre, post, en, dv, dev)
                }
            }
        },
    }
}

/// What one serving step of the walk yields: the end of the walk when
/// nothing is pending, a queued report verbatim, or a pending visit per
/// [`serve_visit`].  A `Leave` marker never serves.
pub open spec fn serves(pre: Walk, post: Walk, r: Option<Result<DirEntry, Error>>) -> bool {
    if pre.pending@.len() == 0 {
        &&& pre.roots@.len() == 0
        &&& r is None
        &&& post.pending@ == pre.pending@
        &&& post.ig == pre.ig
        &&& post.visited == pre.visited
        &&& same_config(pre, post)
        &&& same_root_state(pre, post)
    } else {
        match pre.pending@.last() {
            Pending::Report { err } => {
                &&& r matches Some(rr) && rr matches Err(e) && e == err
                &&& unchanged_but_pop(pre, post)
            },
            Pending::Visit { node, path, parent_dev } => serve_visit(
                pre,
                node,
                path,
                parent_dev,
                post,
                r,
            ),
            Pending::Leave => false,
        }
    }
}

/// Accumulates the walk configuration: the filesystem snapshot, the root
/// path, the source toggles, the traversal toggles, the explicit override
/// set, custom ignore filenames, and extra root-level ignore files.
pub struct WalkBuilder {
    pub fs: Fs,
    pub root: Vec<u8>,
    pub hidden: bool,
    pub ignore: bool,
    pub git_ignore: bool,
    pub git_global: bool,
    pub git_exclude: bool,
    pub parents: bool,
    pub require_git: bool,
    pub follow_links: bool,
    pub same_file_system: bool,
    pub max_depth: Option<usize>,
    pub custom_names: Vec<Vec<u8>>,
    pub overrides: Override,
    pub global_content: Option<Vec<u8>>,
    pub extra_layers: Vec<Vec<Pattern>>,
    pub extra_roots: Vec<Vec<u8>>,
}

/// Everything that is fixed per traversal root once a walk is built: the
/// root's base ignore frames, its resolved exclude and global layers, its
/// depth and device, and the first unit of work for it.
pub struct PreparedRoot {
    pub frames: Vec<Frame>,
    pub exclude: Option<IgnoreLayer>,
    pub global_layer: Option<IgnoreLayer>,
    pub root_depth: usize,
    pub root_dev: u64,
    pub use_gitignore: bool,
    pub start: Pending,
}

/// What preparing a traversal root from the byte path `path` must yield:
/// on successful resolution, a visit of the resolved node carrying the
/// path's segments and the node's device; on failure, a report of the
/// `Io` error with that path.
pub open spec fn root_start_ok(
    fs: Fs,
    path: Seq<u8>,
    root_depth: int,
    root_dev: u64,
    start: Pending,
) -> bool {
    let segs = if path.len() == 0 {
        Seq::<Seq<u8>>::empty()
    } else {
        crate::fsmodel::spec_split(path, 0, path.len() as int)
    };
    &&& root_depth == segs.len()
    &&& match crate::fsmodel::spec_resolve_entry(fs, segs) {
        Result::Ok(n) => start matches Pending::Visit { node, path: p, parent_dev } && node as int
            == n && p.deep_view() == segs && parent_dev@ == fs.nodes@[n].dev && root_dev
            == fs.nodes@[n].dev,
        Result::Err(nf) => start matches Pending::Report { err } && err matches Error::Io {
            path: ep,
            not_found,
        } && ep@ == path && not_found == nf,
    }
}

/// A prepared root's first unit of work is consistent with the snapshot:
/// a visit starts at an in-bounds node whose path has the root's depth.
pub open spec fn prepared_ok(fs: Fs, pr: PreparedRoot) -> bool {
    pr.start matches Pending::Visit { node, path, parent_dev } ==> node < fs.nodes@.len()
        && path@.len() == pr.root_depth
}

/// The name of a repository marker directory.
pub open spec fn git_dir_name() -> Seq<u8> {
    seq![46u8, 103u8, 105u8, 116u8]
}

/// The repository metadata directory holding the exclude file.
pub open spec fn info_dir_name() -> Seq<u8> {
    seq![105u8, 110u8, 102u8, 111u8]
}

/// The repository exclude file's name.
pub open spec fn exclude_file_name() -> Seq<u8> {
    seq![101u8, 120u8, 99u8, 108u8, 117u8, 100u8, 101u8]
}

/// Whether a directory holds a repository marker.
pub open spec fn spec_has_git(fs: Fs, node: int) -> bool {
    crate::fsmodel::spec_find_child(fs, node, git_dir_name()) is Some
}

/// The depth of the nearest enclosing repository at or above depth `d`
/// along the root's ancestor chain, if any.
pub open spec fn spec_repo_at(fs: Fs, segs: Seq<Seq<u8>>, d: int) -> Option<int>
    decreases d + 1,
    when d <= segs.len()
{
    if d < 0 {
        Option::None
    } else if (crate::fsmodel::spec_dir_at(fs, segs, d) matches Result::Ok(n) && spec_has_git(
        fs,
        n,
    )) {
        Option::Some(d)
    } else {
        spec_repo_at(fs, segs, d - 1)
    }
}

/// Exactly what the repository exclude layer is: the compiled contents of
/// the repository's metadata exclude file when that file exists readable,
/// nothing otherwise.
pub open spec fn spec_exclude_ok(fs: Fs, repo: int, rd: int, l: Option<IgnoreLayer>) -> bool {
    match crate::fsmodel::spec_find_child(fs, repo, git_dir_name()) {
        Option::Some(g) => match crate::fsmodel::spec_find_child(fs, g, info_dir_name()) {
            Option::Some(inf) => loaded_layer_ok(fs, inf, exclude_file_name(), rd, l),
            Option::None => l is None,
        },
        Option::None => l is None,
    }
}

/// One ancestor directory's frame: the directory at depth `dd` along the
/// chain exists and its frame holds exactly that directory's ignore
/// files.
pub open spec fn dir_frame_ok(
    fs: Fs,
    segs: Seq<Seq<u8>>,
    dd: int,
    names: Seq<Seq<u8>>,
    use_git: bool,
    use_ig: bool,
    f: Frame,
) -> bool {
    crate::fsmodel::spec_dir_at(fs, segs, dd) matches Result::Ok(n) && frame_ok(
        fs,
        n,
        dd,
        names,
        use_git,
        use_ig,
        f,
    )
}

/// The built layer state of one traversal root, as a function of the
/// configuration and the snapshot: when the root resolves, the gitignore
/// sources are enabled exactly per the toggles and the repository
/// requirement; the base frames are the ancestor directories' frames (in
/// depth order, when `parents` is set) plus, last, one frame holding the
/// hand-added ignore files; the exclude layer is the nearest enclosing
/// repository's exclude file; the global layer is the supplied global
/// contents.  A root that does not resolve carries no layers at all.
pub open spec fn prepared_layers_ok(b: WalkBuilder, path: Seq<u8>, pr: PreparedRoot) -> bool {
    let segs = if path.len() == 0 {
        Seq::<Seq<u8>>::empty()
    } else {
        crate::fsmodel::spec_split(path, 0, path.len() as int)
    };
    match crate::fsmodel::spec_resolve_entry(b.fs, segs) {
        Result::Err(_) => {
            &&& pr.frames@.len() == 0
            &&& pr.exclude is None
            &&& pr.global_layer is None
            &&& !pr.use_gitignore
        },
        Result::Ok(_) => {
            let git_found = spec_repo_at(b.fs, segs, segs.len() as int) is Some;
            let git_ok = !b.require_git || git_found;
            let nbase: int = if b.parents {
                segs.len() as int
            } else {
                0
            };
            let nextra: int = if b.extra_layers@.len() > 0 {
                1
            } else {
                0
            };
            &&& pr.use_gitignore == (b.git_ignore && git_ok)
            &&& pr.frames@.len() == nbase + nextra
            &&& (b.parents ==> (forall|d: int|
                0 <= d < segs.len() ==> dir_frame_ok(
                    b.fs,
                    segs,
                    d,
                    b.custom_names.deep_view(),
                    b.git_ignore && git_ok,
                    b.ignore,
                    #[trigger] pr.frames@[d],
                )))
            &&& (b.extra_layers@.len() > 0 ==> {
                let ef = pr.frames@.last();
                &&& ef.gitignore is None
                &&& ef.ignore_file is None
                &&& ef.customs@.len() == b.extra_layers@.len()
                &&& (forall|e: int|
                    0 <= e < b.extra_layers@.len() ==> (#[trigger] ef.customs@[e]).dir_depth
                        as int == segs.len() && ef.customs@[e].patterns.deep_view()
                        == b.extra_layers@[e].deep_view())
            })
            &&& if b.git_exclude && git_ok {
                match spec_repo_at(b.fs, segs, segs.len() as int) {
                    Option::Some(rd) => crate::fsmodel::spec_dir_at(b.fs, segs, rd)
                        matches Result::Ok(repo) && spec_exclude_ok(b.fs, repo, rd, pr.exclude),
                    Option::None => pr.exclude is None,
                }
            } else {
                pr.exclude is None
            }
            &&& if b.git_global && git_ok {
                match b.global_content {
                    Option::Some(c) => pr.global_layer matches Option::Some(l) && l.dir_depth
                        as int == segs.len() && l.patterns.deep_view() == spec_patterns_of(c@),
                    Option::None => pr.global_layer is None,
                }
            } else {
                pr.global_layer is None
            }
        },
    }
}

/// The traversal cursor: a single-pass, forward-only sequence of
/// `Result<DirEntry, Error>` items produced one step at a time.
pub struct Walk {
    pub fs: Fs,
    pub follow_links: bool,
    pub same_file_system: bool,
    pub max_depth: Option<usize>,
    pub use_gitignore: bool,
    pub use_ignore: bool,
    pub custom_names: Vec<Vec<u8>>,
    pub ig: IgnoreStack,
    pub pending: Vec<Pending>,
    pub roots: Vec<PreparedRoot>,
    pub visited: Vec<(u64, u64)>,
    pub root_dev: u64,
}

impl Walk {
    /// The walk's structural invariant; constructors establish it and
    /// every step preserves it.
    pub open spec fn wf(self) -> bool {
        &&& fs_wf(self.fs)
        &&& forall|i: int|
            0 <= i < self.pending@.len() ==> pending_ok(
                self.fs,
                self.ig.root_depth as int,
                self.max_depth,
                self.same_file_system,
                self.root_dev,
                #[trigger] self.pending@[i],
            )
        &&& forall|i: int|
            0 <= i < self.roots@.len() ==> prepared_ok(self.fs, #[trigger] self.roots@[i])
    }

    fn visited_contains(&self, dev: u64, ino: u64) -> (r: bool)
        ensures
            r == self.visited@.contains((dev, ino)),
    {
        let mut i: usize = 0;
        while i < self.visited.len()
            invariant
                0 <= i <= self.visited@.len(),
                forall|j: int| 0 <= j < i ==> self.visited@[j] != (dev, ino),
            decreases self.visited@.len() - i,
        {
            let (d, n) = self.visited[i];
            if d == dev && n == ino {
                assert(self.visited@[i as int] == (dev, ino));
                return true;
            }
            i += 1;
        }
        assert(forall|j: int| 0 <= j < self.visited@.len() ==> self.visited@[j] != (dev, ino));
        false
    }

    /// Performs exactly one unit of work: either one quiet bookkeeping
    /// transition (`None`), or one serving step with its item (`Some`).
    #[verifier::rlimit(100)]
    #[verifier::spinoff_prover]
    fn advance(&mut self) -> (r: Option<Option<Result<DirEntry, Error>>>)
        requires
            old(self).wf(),
        ensures
            final(self).wf(),
            final(self).fs == old(self).fs,
            final(self).max_depth == old(self).max_depth,
            final(self).same_file_system == old(self).same_file_system,
            final(self).follow_links == old(self).follow_links,
            match r {
                Option::None => quiet_step(*old(self), *final(self)),
                Option::Some(x) => serves(*old(self), *final(self), x),
            },
            r is None ==> final(self).roots@.len() < old(self).roots@.len() || (final(self).roots@.len() == old(self).roots@.len() && final(self).pending@.len() < old(self).pending@.len()),
            r is None ==> final(self).pending@.len() + final(self).roots@.len() <= old(self).pending@.len() + old(self).roots@.len(),
            (r matches Some(x) && x is None) ==> final(self).pending@.len() == 0 && final(self).roots@.len() == 0 && old(self).pending@.len() == 0 && old(self).roots@.len() == 0,
            (r matches Some(x) && x matches Some(Err(e3))) ==> final(self).pending@.len() + final(self).roots@.len() < old(self).pending@.len() + old(self).roots@.len(),
            match r {
                Option::Some(x) => match x {
                    Option::Some(rr) => match rr {
                        Ok(e) => (old(self).max_depth matches Option::Some(d) ==> e.depth <= d)
                            && (old(self).same_file_system && e.depth > 0
                            ==> e.parent_dev@ == final(self).root_dev),
                        Err(_) => true,
                    },
                    Option::None => true,
                },
                Option::None => true,
            },
    {
        let item = match self.pending.pop() {
            Option::Some(it) => it,
            Option::None => {
                // the current root is exhausted; begin the next one, with
                // its own frames, depth and device
                match self.roots.pop() {
                    Option::Some(pr) => {
                        self.ig.frames = pr.frames;
                        self.ig.exclude = pr.exclude;
                        self.ig.global_layer = pr.global_layer;
                        self.ig.root_depth = pr.root_depth;
                        self.root_dev = pr.root_dev;
                        self.use_gitignore = pr.use_gitignore;
                        self.pending.push(pr.start);
                        proof {
                            assert forall|ii: int|
                                0 <= ii < self.pending@.len() implies pending_ok(
                                self.fs,
                                self.ig.root_depth as int,
                                self.max_depth,
                                self.same_file_system,
                                self.root_dev,
                                #[trigger] self.pending@[ii],
                            ) by {
                                assert(self.pending@[ii] == pr.start);
                            }
                        }
                        return Option::None;
                    },
                    Option::None => {
                        return Option::Some(Option::None);
                    },
                }
            },
        };
        proof {
            assert(pending_ok(
                self.fs,
                self.ig.root_depth as int,
                self.max_depth,
                self.same_file_system,
                self.root_dev,
                item,
            ));
        }
        match item {
            Pending::Leave => {
                let _ = self.ig.frames.pop();
                proof {
                    assert(leave_step(*old(self), *self));
                }
                Option::None
            },
            Pending::Report { err } => {
                Option::Some(Option::Some(Err(err)))
            },
            Pending::Visit { node, path, parent_dev } => {
                let ghost dv = path.deep_view();
                proof {
                    assert(dv.len() == path@.len());
                }
                let kind0 = self.fs.nodes[node].kind;
                let is_symlink = match kind0 {
                    FileKind::Symlink => true,
                    _ => false,
                };
                let mut eff_node = node;
                let mut eff_kind = kind0;
                if is_symlink && self.follow_links {
                    match resolve_link(&self.fs, node) {
                        Ok(t) => {
                            eff_node = t;
                            eff_kind = self.fs.nodes[t].kind;
                        },
                        Err(nf) => {
                            proof {
                                assert(self.fs.nodes@[node as int].kind is Symlink);
                                assert(spec_effective(self.fs, self.follow_links, node as int)
                                    == Result::<int, bool>::Err(nf));
                            }
                            return Option::Some(
                                Option::Some(
                                    Err(Error::Io { path: join_path(&path), not_found: nf }),
                                ),
                            );
                        },
                    }
                }
                proof {
                    assert(spec_effective(self.fs, self.follow_links, node as int)
                        == Result::<int, bool>::Ok(eff_node as int));
                    assert(eff_kind == self.fs.nodes@[eff_node as int].kind);
                }
                let depth = path.len() - self.ig.root_depth;
                let is_dir = match eff_kind {
                    FileKind::Directory => true,
                    _ => false,
                };
                let mut skip = false;
                if depth > 0 {
                    skip = self.ig.should_skip(&path, is_dir);
                }
                if skip {
                    proof {
                        assert(skip_step(*old(self), *self));
                    }
                    return Option::None;
                }
                let entry = DirEntry { path: join_path(&path), depth, kind: eff_kind, parent_dev };
                proof {
                    assert(old(self).pending@.len() > 0);
                    assert(old(self).pending@.last() matches Pending::Visit {
                        node: n2,
                        path: p2,
                        parent_dev: pd2,
                    } && n2 == node && p2 == path && pd2 == parent_dev);
                    assert(spec_effective(old(self).fs, old(self).follow_links, node as int)
                        == Result::<int, bool>::Ok(eff_node as int));
                    assert(!(dv.len() > old(self).ig.root_depth && spec_should_skip(
                        old(self).ig@,
                        dv,
                        self.fs.nodes@[eff_node as int].kind is Directory,
                    )));
                    assert(entry.path@ == crate::fsmodel::spec_join(dv));
                    assert(entry.depth as int == dv.len() - old(self).ig.root_depth);
                    assert(entry.kind == old(self).fs.nodes@[eff_node as int].kind);
                }
                let can_descend = match self.max_depth {
                    Option::Some(d) => depth < d,
                    Option::None => true,
                };
                if !(is_dir && can_descend) {
                    proof {
                        assert(unchanged_but_pop(*old(self), *self));
                    }
                    return Option::Some(Option::Some(Ok(entry)));
                }
                let dev = self.fs.nodes[eff_node].dev;
                let ino = self.fs.nodes[eff_node].ino;
                if self.same_file_system && dev != self.root_dev {
                    // a mount point: yielded, never entered
                    proof {
                        assert(unchanged_but_pop(*old(self), *self));
                    }
                    return Option::Some(Option::Some(Ok(entry)));
                }
                if self.follow_links && self.visited_contains(dev, ino) {
                    self.pending.push(
                        Pending::Report { err: Error::Loop { path: join_path(&path) } },
                    );
                    proof {
                        assert forall|k: int|
                            0 <= k < old(self).pending@.len() - 1 implies self.pending@[k] == old(
                            self,
                        ).pending@[k] by {
                            assert(self.pending@[k] == old(self).pending@.drop_last()[k]);
                        }
                        assert(popped_with_report(*old(self), *self));
                    }
                    return Option::Some(Option::Some(Ok(entry)));
                }
                if self.follow_links {
                    self.visited.push((dev, ino));
                }
                if !self.fs.nodes[eff_node].readable {
                    self.pending.push(
                        Pending::Report {
                            err: Error::Io { path: join_path(&path), not_found: false },
                        },
                    );
                    proof {
                        assert forall|k: int|
                            0 <= k < old(self).pending@.len() - 1 implies self.pending@[k] == old(
                            self,
                        ).pending@[k] by {
                            assert(self.pending@[k] == old(self).pending@.drop_last()[k]);
                        }
                        assert(popped_with_report(*old(self), *self));
                    }
                    return Option::Some(Option::Some(Ok(entry)));
                }
                let frame = load_frame(
                    &self.fs,
                    eff_node,
                    path.len(),
                    &self.custom_names,
                    self.use_gitignore,
                    self.use_ignore,
                );
                self.ig.frames.push(frame);
                self.pending.push(Pending::Leave);
                let ghost ig1 = self.ig;
                let ghost vis1 = self.visited;
                let nchild = self.fs.nodes[eff_node].children.len();
                let ghost rdev = self.root_dev;
                let ghost rdep = self.ig.root_depth;
                let ghost nroots = self.roots@.len();
                let ghost oldlen = old(self).pending@.len();
                let mut ci = nchild;
                while ci > 0
                    invariant
                        self.wf(),
                        self.fs == old(self).fs,
                        self.max_depth == old(self).max_depth,
                        self.same_file_system == old(self).same_file_system,
                        self.follow_links == old(self).follow_links,
                        self.custom_names == old(self).custom_names,
                        self.use_gitignore == old(self).use_gitignore,
                        self.use_ignore == old(self).use_ignore,
                        self.root_dev == rdev,
                        self.ig == ig1,
                        self.ig.root_depth == rdep,
                        self.visited == vis1,
                        self.roots@.len() == nroots,
                        self.roots@ == old(self).roots@,
                        0 <= ci <= nchild,
                        eff_node < self.fs.nodes@.len(),
                        nchild == self.fs.nodes@[eff_node as int].children@.len(),
                        path@.len() >= self.ig.root_depth,
                        dv == path.deep_view(),
                        dv.len() == path@.len(),
                        depth == path@.len() - self.ig.root_depth,
                        self.max_depth matches Option::Some(d) ==> depth < d,
                        self.same_file_system ==> dev == self.root_dev,
                        oldlen == old(self).pending@.len(),
                        oldlen > 0,
                        self.pending@.len() == oldlen + (nchild - ci),
                        forall|k: int|
                            0 <= k < oldlen - 1 ==> self.pending@[k] == old(self).pending@[k],
                        self.pending@[oldlen - 1] is Leave,
                        forall|j: int|
                            0 <= j < nchild - ci ==> ((#[trigger] self.pending@[oldlen
                                + j]) matches Pending::Visit {
                                node: cn,
                                path: cp,
                                parent_dev: cpd,
                            } && cn == self.fs.nodes@[eff_node as int].children@[nchild - 1
                                - j].node && cp.deep_view() == dv.push(
                                self.fs.nodes@[eff_node as int].children@[nchild - 1 - j].name@,
                            ) && cpd@ == dev),
                    decreases ci,
                {
                    ci -= 1;
                    proof {
                        assert(eff_node < (
                        #[trigger] self.fs.nodes@[eff_node as int].children@[ci as int]).node
                            < self.fs.nodes@.len());
                    }
                    let ch_name = clone_bytes(&self.fs.nodes[eff_node].children[ci].name);
                    let ghost nm = ch_name@;
                    let ch_node = self.fs.nodes[eff_node].children[ci].node;
                    let mut cpath = clone_path(&path);
                    proof {
                        assert(cpath.deep_view().len() == cpath@.len());
                        assert(path.deep_view().len() == path@.len());
                    }
                    cpath.push(ch_name);
                    let ghost cplen = cpath@.len();
                    let ghost cpdv = cpath.deep_view();
                    proof {
                        assert(cpdv =~~= dv.push(nm));
                    }
                    let ghost prevp = self.pending@;
                    self.pending.push(
                        Pending::Visit { node: ch_node, path: cpath, parent_dev: Ghost(dev) },
                    );
                    proof {
                        assert(cplen == path@.len() + 1);
                        let newlen = self.pending@.len();
                        assert(pending_ok(
                            self.fs,
                            self.ig.root_depth as int,
                            self.max_depth,
                            self.same_file_system,
                            self.root_dev,
                            self.pending@[newlen - 1],
                        ));
                        assert forall|ii: int|
                            0 <= ii < newlen implies pending_ok(
                            self.fs,
                            self.ig.root_depth as int,
                            self.max_depth,
                            self.same_file_system,
                            self.root_dev,
                            #[trigger] self.pending@[ii],
                        ) by {
                            if ii < newlen - 1 {
                                assert(self.pending@[ii] == prevp[ii]);
                            }
                        }
                        assert forall|j: int|
                            0 <= j < nchild - ci implies ((
                        #[trigger] self.pending@[oldlen + j]) matches Pending::Visit {
                                node: cn,
                                path: cp,
                                parent_dev: cpd,
                            } && cn == self.fs.nodes@[eff_node as int].children@[nchild - 1
                                - j].node && cp.deep_view() == dv.push(
                                self.fs.nodes@[eff_node as int].children@[nchild - 1 - j].name@,
                            ) && cpd@ == dev) by {
                            if j < nchild - ci - 1 {
                                assert(self.pending@[oldlen + j] == prevp[oldlen + j]);
                            } else {
                                assert(self.pending@[oldlen + j] == self.pending@[
                                    self.pending@.len() - 1]);
                            }
                        }
                    }
                }
                proof {
                    assert(children_enqueued(*old(self), *self, eff_node as int, dv, dev)) by {
                        assert forall|j: int|
                            0 <= j < old(self).fs.nodes@[eff_node as int].children@.len() implies ((
                        #[trigger] self.pending@[old(self).pending@.len() + j]) matches Pending::Visit {
                                node: cn,
                                path: cp,
                                parent_dev: cpd,
                            } && cn == old(self).fs.nodes@[eff_node as int].children@[old(
                            self,
                        ).fs.nodes@[eff_node as int].children@.len() - 1 - j].node
                            && cp.deep_view() == dv.push(
                                old(self).fs.nodes@[eff_node as int].children@[old(
                                    self,
                                ).fs.nodes@[eff_node as int].children@.len() - 1 - j].name@,
                            ) && cpd@ == dev) by {
                            assert(self.pending@[oldlen + j] == self.pending@[old(
                                self,
                            ).pending@.len() + j]);
                        }
                    }
                    assert(self.ig.frames@.len() == old(self).ig.frames@.len() + 1);
                    assert(forall|k: int|
                        0 <= k < old(self).ig.frames@.len() ==> self.ig.frames@[k] == old(
                            self,
                        ).ig.frames@[k]);
                    assert(frame_ok(
                        old(self).fs,
                        eff_node as int,
                        dv.len() as int,
                        old(self).custom_names.deep_view(),
                        old(self).use_gitignore,
                        old(self).use_ignore,
                        self.ig.frames@.last(),
                    ));
                    assert(self.ig.exclude == old(self).ig.exclude);
                    assert(self.ig.global_layer == old(self).ig.global_layer);
                    if old(self).follow_links {
                        assert(self.visited@ == old(self).visited@.push((dev, ino)));
                    } else {
                        assert(self.visited == old(self).visited);
                    }
                    assert(old(self).fs.nodes@[eff_node as int].kind is Directory);
                    assert(match old(self).max_depth {
                        Option::Some(d) => dv.len() - old(self).ig.root_depth < d,
                        Option::None => true,
                    });
                    assert(!(old(self).same_file_system && old(self).fs.nodes@[eff_node as int].dev
                        != old(self).root_dev));
                    assert(!(old(self).follow_links && old(self).visited@.contains((
                        old(self).fs.nodes@[eff_node as int].dev,
                        old(self).fs.nodes@[eff_node as int].ino,
                    ))));
                    assert(old(self).fs.nodes@[eff_node as int].readable);
                    assert(same_config(*old(self), *self));
                    assert(same_root_state(*old(self), *self));
                    assert(serve_visit(
                        *old(self),
                        node,
                        path,
                        parent_dev,
                        *self,
                        Option::Some(Ok(entry)),
                    ));
                    assert(serves(*old(self), *self, Option::Some(Ok(entry))));
                }
                Option::Some(Option::Some(Ok(entry)))
            },
        }
    }

    /// Produces the next item of the traversal, or `None` when the walk
    /// is exhausted.  The result and the new state are pinned down by the
    /// transition relation: some number of quiet bookkeeping transitions
    /// ([`quiet_step`]: leaving a directory, pruning a skipped subtree,
    /// beginning the next root) followed by one serving step
    /// ([`serves`]), which fixes the yielded entry — its path, depth,
    /// classification and parent device — or the reported error, and the
    /// children enqueued.
    pub fn next(&mut self) -> (r: Option<Result<DirEntry, Error>>)
        requires
            old(self).wf(),
        ensures
            final(self).wf(),
            final(self).fs == old(self).fs,
            final(self).max_depth == old(self).max_depth,
            final(self).same_file_system == old(self).same_file_system,
            final(self).follow_links == old(self).follow_links,
            old(self).pending@.len() + old(self).roots@.len() == 0 ==> r is None,
            r is None ==> final(self).pending@.len() == 0 && final(self).roots@.len() == 0,
            // only a yielded entry can extend the frontier: skipped
            // entries and per-entry errors never enqueue children, so a
            // pruned subtree contributes no further work at all
            !(r matches Some(Ok(e2))) ==> final(self).pending@.len() + final(self).roots@.len()
                <= old(self).pending@.len() + old(self).roots@.len(),
            r matches Some(Err(e3)) ==> final(self).pending@.len() + final(self).roots@.len()
                < old(self).pending@.len() + old(self).roots@.len(),
            r matches Some(Ok(e)) ==> {
                &&& (old(self).max_depth matches Option::Some(d) ==> e.depth <= d)
                &&& (old(self).same_file_system && e.depth > 0
                    ==> e.parent_dev@ == final(self).root_dev)
            },
            // the whole step is pinned: some quiet transitions, then one
            // serving step that fixes the item and the new state
            exists|mid: Walk, n: nat|
                #![auto]
                quiet_reaches_n(*old(self), mid, n) && serves(mid, *final(self), r),
    {
        let ghost mut steps: nat = 0;
        proof {
            assert(quiet_reaches_n(*old(self), *self, 0));
        }
        loop
            invariant
                self.wf(),
                self.fs == old(self).fs,
                self.max_depth == old(self).max_depth,
                self.same_file_system == old(self).same_file_system,
                self.follow_links == old(self).follow_links,
                old(self).pending@.len() + old(self).roots@.len() == 0 ==> self.pending@.len()
                    + self.roots@.len() == 0,
                self.pending@.len() + self.roots@.len()
                    <= old(self).pending@.len() + old(self).roots@.len(),
                quiet_reaches_n(*old(self), *self, steps),
                steps == 0 ==> *self == *old(self),
                steps > 0 ==> (old(self).pending@.len() > 0 ==> (match old(self).pending@.last() {
                    Pending::Report { err } => false,
                    Pending::Visit { node, path, parent_dev } => path@.len() != old(self).ig.root_depth as int,
                    Pending::Leave => true,
                })),
            decreases self.roots@.len(), self.pending@.len(),
        {
            let ghost head = *self;
            let res = self.advance();
            match res {
                Option::Some(x) => {
                    proof {
                        assert(serves(head, *self, x));
                        assert(quiet_reaches_n(*old(self), head, steps));
                        if steps == 0 && old(self).pending@.len() > 0 {
                            match old(self).pending@.last() {
                                Pending::Report { err } => {
                                    assert(x matches Some(rr) && rr matches Err(e) && e == err);
                                },
                                Pending::Visit { node, path, parent_dev } => {
                                    assert(x is Some);
                                },
                                Pending::Leave => {},
                            }
                        }
                    }
                    return x;
                },
                Option::None => {
                    proof {
                        assert(quiet_step(head, *self));
                        lemma_reaches_extend(*old(self), head, *self, steps);
                        steps = steps + 1;
                        if head == *old(self) && old(self).pending@.len() > 0 {
                            match old(self).pending@.last() {
                                Pending::Report { err } => {
                                    assert(!quiet_step(head, *self));
                                },
                                Pending::Visit { node, path, parent_dev } => {
                                    if path@.len() == old(self).ig.root_depth as int {
                                        assert(path.deep_view().len() == path@.len());
                                        assert(!quiet_step(head, *self));
                                    }
                                },
                                Pending::Leave => {},
                            }
                        }
                    }
                },
            }
        }
    }
}


impl WalkBuilder {
    /// A builder over `fs`, rooted at the `/`-separated byte path `root`
    /// (the empty path denotes the snapshot's root directory), with the
    /// conventional defaults: hidden entries skipped, `.ignore` and all
    /// git ignore sources honoured, parent directories consulted, links
    /// not followed, no depth bound, no filesystem confinement.
    pub fn new(fs: Fs, root: Vec<u8>) -> (r: WalkBuilder)
        requires
            fs_wf(fs),
        ensures
            fs_wf(r.fs),
            r.fs == fs,
            r.root == root,
            r.hidden,
            r.ignore,
            r.git_ignore,
            r.git_global,
            r.git_exclude,
            r.parents,
            !r.require_git,
            !r.follow_links,
            !r.same_file_system,
            r.max_depth is None,
            r.custom_names@ == Seq::<Vec<u8>>::empty(),
            r.overrides.patterns@ == Seq::<Pattern>::empty(),
            r.overrides.root@ == Seq::<u8>::empty(),
            r.global_content is None,
            r.extra_layers@ == Seq::<Vec<Pattern>>::empty(),
            r.extra_roots@ == Seq::<Vec<u8>>::empty(),
    {
        let r = WalkBuilder {
            fs,
            root,
            hidden: true,
            ignore: true,
            git_ignore: true,
            git_global: true,
            git_exclude: true,
            parents: true,
            require_git: false,
            follow_links: false,
            same_file_system: false,
            max_depth: Option::None,
            custom_names: Vec::new(),
            overrides: Override::empty(),
            global_content: Option::None,
            extra_layers: Vec::new(),
            extra_roots: Vec::new(),
        };
        proof {
            assert(r.custom_names@ =~= Seq::<Vec<u8>>::empty());
            assert(r.overrides.patterns@ =~= Seq::<Pattern>::empty());
            assert(r.overrides.root@ =~= Seq::<u8>::empty());
            assert(r.extra_layers@ =~= Seq::<Vec<Pattern>>::empty());
            assert(r.extra_roots@ =~= Seq::<Vec<u8>>::empty());
        }
        r
    }

    /// Adds one more traversal root; roots are walked in the order they
    /// were added, after the primary root.
    pub fn add(&mut self, path: Vec<u8>)
        ensures
            final(self).extra_roots@ == old(self).extra_roots@.push(path),
            *final(self) == (WalkBuilder { extra_roots: final(self).extra_roots, ..*old(self) }),
    {
        self.extra_roots.push(path);
    }

    /// Toggles skipping of hidden entries (names starting with `.`).
    pub fn hidden(&mut self, yes: bool)
        ensures
            *final(self) == (WalkBuilder { hidden: yes, ..*old(self) }),
    {
        self.hidden = yes;
    }

    /// Toggles `.ignore` files.
    pub fn ignore(&mut self, yes: bool)
        ensures
            *final(self) == (WalkBuilder { ignore: yes, ..*old(self) }),
    {
        self.ignore = yes;
    }

    /// Toggles `.gitignore` files.
    pub fn git_ignore(&mut self, yes: bool)
        ensures
            *final(self) == (WalkBuilder { git_ignore: yes, ..*old(self) }),
    {
        self.git_ignore = yes;
    }

    /// Toggles the global git ignore file.
    pub fn git_global(&mut self, yes: bool)
        ensures
            *final(self) == (WalkBuilder { git_global: yes, ..*old(self) }),
    {
        self.git_global = yes;
    }

    /// Toggles the repository's `.git/info/exclude` file.
    pub fn git_exclude(&mut self, yes: bool)
        ensures
            *final(self) == (WalkBuilder { git_exclude: yes, ..*old(self) }),
    {
        self.git_exclude = yes;
    }

    /// Toggles consulting ignore files in the root's parent directories.
    pub fn parents(&mut self, yes: bool)
        ensures
            *final(self) == (WalkBuilder { parents: yes, ..*old(self) }),
    {
        self.parents = yes;
    }

    /// When set, git-sourced ignore files apply only inside a repository
    /// (some directory from the root upward holds `.git`).
    pub fn require_git(&mut self, yes: bool)
        ensures
            *final(self) == (WalkBuilder { require_git: yes, ..*old(self) }),
    {
        self.require_git = yes;
    }

    /// Toggles following symlinks.
    pub fn follow_links(&mut self, yes: bool)
        ensures
            *final(self) == (WalkBuilder { follow_links: yes, ..*old(self) }),
    {
        self.follow_links = yes;
    }

    /// Toggles refusing to cross onto a different device than the root's.
    pub fn same_file_system(&mut self, yes: bool)
        ensures
            *final(self) == (WalkBuilder { same_file_system: yes, ..*old(self) }),
    {
        self.same_file_system = yes;
    }

    /// Bounds the depth: with `Some(d)`, nothing deeper than `d` below
    /// the root is yielded or entered.
    pub fn max_depth(&mut self, depth: Option<usize>)
        ensures
            *final(self) == (WalkBuilder { max_depth: depth, ..*old(self) }),
    {
        self.max_depth = depth;
    }

    /// Adds a custom ignore filename, consulted before `.gitignore` and
    /// `.ignore` in every directory, in the order the names were added.
    pub fn add_custom_ignore_filename(&mut self, name: Vec<u8>)
        ensures
            final(self).custom_names@ == old(self).custom_names@.push(name),
            *final(self) == (WalkBuilder { custom_names: final(self).custom_names, ..*old(self) }),
    {
        self.custom_names.push(name);
    }

    /// Installs the explicit override set; its verdict outranks every
    /// discovered ignore file.
    pub fn overrides(&mut self, ov: Override)
        ensures
            *final(self) == (WalkBuilder { overrides: ov, ..*old(self) }),
    {
        self.overrides = ov;
    }

    /// Supplies the contents of the global git ignore file, used when the
    /// global source is enabled.
    pub fn global_gitignore(&mut self, content: Vec<u8>)
        ensures
            *final(self) == (WalkBuilder { global_content: Option::Some(content), ..*old(self) }),
    {
        self.global_content = Option::Some(content);
    }

    /// Loads one extra ignore file, by path, into the root layer.  A
    /// missing, non-file or unreadable path is an `Io` error and leaves
    /// the builder unchanged.  Otherwise the file's well-formed lines are
    /// compiled and appended, best-effort, and the first malformed line,
    /// if any, is returned as `InvalidPattern`.
    pub fn add_ignore(&mut self, path: Vec<u8>) -> (r: Option<Error>)
        requires
            fs_wf(old(self).fs),
        ensures
            ({
                let fsv = old(self).fs;
                let segs = if path@.len() == 0 {
                    Seq::<Seq<u8>>::empty()
                } else {
                    crate::fsmodel::spec_split(path@, 0, path@.len() as int)
                };
                match crate::fsmodel::spec_resolve_path(fsv, segs, 0, 0) {
                    Result::Err(nf) => (r matches Some(e) && e matches Error::Io {
                        path: p,
                        not_found,
                    } && p@ == path@ && not_found == nf) && *final(self) == *old(self),
                    Result::Ok(n) => if !(fsv.nodes@[n].kind is File) || !fsv.nodes@[n].readable {
                        (r matches Some(e) && e matches Error::Io { path: p, not_found } && p@
                            == path@ && !not_found) && *final(self) == *old(self)
                    } else {
                        let content = fsv.nodes@[n].content@;
                        &&& final(self).extra_layers@.len() == old(self).extra_layers@.len() + 1
                        &&& forall|k: int|
                            0 <= k < old(self).extra_layers@.len() ==> final(self).extra_layers@[k]
                                == old(self).extra_layers@[k]
                        &&& final(self).extra_layers@.last().deep_view() == spec_patterns_of(
                            content,
                        )
                        &&& (*final(self) == (WalkBuilder {
                            extra_layers: final(self).extra_layers,
                            ..*old(self)
                        }))
                        &&& match spec_content_first_bad(content) {
                            Option::Some(l) => r matches Some(e) && e matches Error::InvalidPattern {
                                glob,
                            } && glob@ == l,
                            Option::None => r is None,
                        }
                    },
                }
            }),
    {
        let segs = split_path(&path);
        let node = match crate::fsmodel::resolve_path(&self.fs, &segs) {
            Ok(n) => n,
            Err(nf) => {
                return Option::Some(Error::Io { path, not_found: nf });
            },
        };
        let is_file = match self.fs.nodes[node].kind {
            FileKind::File => true,
            _ => false,
        };
        if !is_file || !self.fs.nodes[node].readable {
            return Option::Some(Error::Io { path, not_found: false });
        }
        let (patterns, bad) = parse_lines(&self.fs.nodes[node].content);
        let ghost before = self.extra_layers@;
        let ghost pdv = patterns.deep_view();
        self.extra_layers.push(patterns);
        proof {
            assert(self.extra_layers@.last().deep_view() == pdv);
        }
        match bad {
            Option::Some(line) => Option::Some(Error::InvalidPattern { glob: line }),
            Option::None => Option::None,
        }
    }

    /// Prepares one traversal root: resolves its path, locates the
    /// nearest enclosing repository, loads ancestor frames when `parents`
    /// is enabled, and resolves the exclude and global layers.  A root
    /// that cannot be resolved prepares a single `Io` report.
    fn prepare_root(&self, path: &Vec<u8>) -> (pr: PreparedRoot)
        requires
            fs_wf(self.fs),
        ensures
            prepared_ok(self.fs, pr),
            root_start_ok(self.fs, path@, pr.root_depth as int, pr.root_dev, pr.start),
            prepared_layers_ok(*self, path@, pr),
    {
        let root_segs = split_path(path);
        let ghost sdv = root_segs.deep_view();
        proof {
            assert(sdv.len() == root_segs@.len());
            assert(sdv == (if path@.len() == 0 {
                Seq::<Seq<u8>>::empty()
            } else {
                crate::fsmodel::spec_split(path@, 0, path@.len() as int)
            }));
        }
        let root_depth = root_segs.len();
        let chain = match resolve_chain(&self.fs, &root_segs) {
            Ok(c) => c,
            Err(nf) => {
                let frames: Vec<Frame> = Vec::new();
                proof {
                    assert(frames@.len() == 0);
                }
                return PreparedRoot {
                    frames,
                    exclude: Option::None,
                    global_layer: Option::None,
                    root_depth,
                    root_dev: 0,
                    use_gitignore: false,
                    start: Pending::Report {
                        err: Error::Io { path: clone_bytes(path), not_found: nf },
                    },
                };
            },
        };
        let root_node = chain[chain.len() - 1];
        let root_dev = self.fs.nodes[root_node].dev;
        // locate the nearest enclosing repository (a dir holding `.git`)
        let git_name: Vec<u8> = vec![46u8, 103u8, 105u8, 116u8];
        proof {
            assert(git_name@ =~= git_dir_name());
        }
        let mut git_found = false;
        let mut repo_depth: usize = 0;
        let mut d: usize = chain.len();
        while d > 0
            invariant
                fs_wf(self.fs),
                0 <= d <= chain@.len(),
                chain@.len() == sdv.len() + 1,
                git_name@ == git_dir_name(),
                forall|k: int|
                    0 <= k < chain@.len() ==> (#[trigger] chain@[k]) < self.fs.nodes@.len(),
                forall|dd: int|
                    0 <= dd < chain@.len() ==> crate::fsmodel::spec_dir_at(self.fs, sdv, dd)
                        == Result::<int, bool>::Ok((#[trigger] chain@[dd]) as int),
                git_found ==> repo_depth < chain@.len(),
                git_found ==> spec_repo_at(self.fs, sdv, sdv.len() as int) == Option::Some(
                    repo_depth as int,
                ),
                !git_found ==> spec_repo_at(self.fs, sdv, sdv.len() as int) == spec_repo_at(
                    self.fs,
                    sdv,
                    d - 1,
                ),
            decreases d,
        {
            d -= 1;
            if !git_found {
                match find_child(&self.fs, chain[d], &git_name) {
                    Option::Some(_) => {
                        proof {
                            assert(spec_has_git(self.fs, chain@[d as int] as int));
                            assert(spec_repo_at(self.fs, sdv, d as int) == Option::Some(d as int));
                        }
                        git_found = true;
                        repo_depth = d;
                    },
                    Option::None => {
                        proof {
                            assert(!spec_has_git(self.fs, chain@[d as int] as int));
                            assert(spec_repo_at(self.fs, sdv, d as int) == spec_repo_at(
                                self.fs,
                                sdv,
                                d - 1,
                            ));
                        }
                    },
                }
            }
        }
        proof {
            if !git_found {
                assert(spec_repo_at(self.fs, sdv, sdv.len() as int) == spec_repo_at(
                    self.fs,
                    sdv,
                    -1,
                ));
            }
            assert(git_found == (spec_repo_at(self.fs, sdv, sdv.len() as int) is Some));
        }
        let git_ok = !self.require_git || git_found;
        // base frames from ancestors, shallowest first
        let mut frames: Vec<Frame> = Vec::new();
        if self.parents {
            let ancestors = chain.len() - 1;
            let mut a: usize = 0;
            while a < ancestors
                invariant
                    fs_wf(self.fs),
                    0 <= a <= ancestors < chain@.len(),
                    ancestors == sdv.len(),
                    frames@.len() == a,
                    forall|k: int|
                        0 <= k < chain@.len() ==> (#[trigger] chain@[k]) < self.fs.nodes@.len(),
                    forall|dd: int|
                        0 <= dd < chain@.len() ==> crate::fsmodel::spec_dir_at(self.fs, sdv, dd)
                            == Result::<int, bool>::Ok((#[trigger] chain@[dd]) as int),
                    forall|dd: int|
                        0 <= dd < a ==> dir_frame_ok(
                            self.fs,
                            sdv,
                            dd,
                            self.custom_names.deep_view(),
                            self.git_ignore && git_ok,
                            self.ignore,
                            #[trigger] frames@[dd],
                        ),
                decreases chain@.len() - a,
            {
                let f = load_frame(
                    &self.fs,
                    chain[a],
                    a,
                    &self.custom_names,
                    self.git_ignore && git_ok,
                    self.ignore,
                );
                let ghost prevf = frames@;
                frames.push(f);
                proof {
                    assert(dir_frame_ok(
                        self.fs,
                        sdv,
                        a as int,
                        self.custom_names.deep_view(),
                        self.git_ignore && git_ok,
                        self.ignore,
                        f,
                    ));
                    assert forall|dd: int|
                        0 <= dd < a + 1 implies dir_frame_ok(
                        self.fs,
                        sdv,
                        dd,
                        self.custom_names.deep_view(),
                        self.git_ignore && git_ok,
                        self.ignore,
                        #[trigger] frames@[dd],
                    ) by {
                        if dd < a {
                            assert(frames@[dd] == prevf[dd]);
                        } else {
                            assert(frames@[dd] == f);
                        }
                    }
                }
                a += 1;
            }
        }
        let ghost nbase = frames@.len();
        // extra ignore files added by hand rank just below the root's own
        if self.extra_layers.len() > 0 {
            let mut customs: Vec<IgnoreLayer> = Vec::new();
            let mut e: usize = 0;
            while e < self.extra_layers.len()
                invariant
                    0 <= e <= self.extra_layers@.len(),
                    customs@.len() == e,
                    root_depth == sdv.len(),
                    forall|k: int|
                        0 <= k < e ==> (#[trigger] customs@[k]).dir_depth as int == sdv.len()
                            && customs@[k].patterns.deep_view()
                            == self.extra_layers@[k].deep_view(),
                decreases self.extra_layers@.len() - e,
            {
                let ghost prevc = customs@;
                customs.push(
                    IgnoreLayer {
                        dir_depth: root_depth,
                        patterns: crate::glob::clone_patterns(&self.extra_layers[e]),
                    },
                );
                proof {
                    assert forall|k: int|
                        0 <= k < e + 1 implies (#[trigger] customs@[k]).dir_depth as int
                        == sdv.len() && customs@[k].patterns.deep_view()
                        == self.extra_layers@[k].deep_view() by {
                        if k < e {
                            assert(customs@[k] == prevc[k]);
                        }
                    }
                }
                e += 1;
            }
            frames.push(
                Frame { customs, gitignore: Option::None, ignore_file: Option::None },
            );
        }
        // the repository exclude file, resolved once per root
        let exclude: Option<IgnoreLayer> = if self.git_exclude && git_ok && git_found {
            let info_name: Vec<u8> = vec![105u8, 110u8, 102u8, 111u8];
            let exclude_name: Vec<u8> = vec![
                101u8,
                120u8,
                99u8,
                108u8,
                117u8,
                100u8,
                101u8,
            ];
            proof {
                assert(info_name@ =~= info_dir_name());
                assert(exclude_name@ =~= exclude_file_name());
            }
            match find_child(&self.fs, chain[repo_depth], &git_name) {
                Option::Some(g) => {
                    match find_child(&self.fs, g, &info_name) {
                        Option::Some(inf) => load_ignore_layer(
                            &self.fs,
                            inf,
                            &exclude_name,
                            repo_depth,
                        ),
                        Option::None => Option::None,
                    }
                },
                Option::None => Option::None,
            }
        } else {
            Option::None
        };
        // the global ignore file, resolved once per root
        let global_layer: Option<IgnoreLayer> = if self.git_global && git_ok {
            match &self.global_content {
                Option::Some(c) => {
                    let (patterns, _) = parse_lines(c);
                    Option::Some(IgnoreLayer { dir_depth: root_depth, patterns })
                },
                Option::None => Option::None,
            }
        } else {
            Option::None
        };
        proof {
            assert(root_segs.deep_view().len() == root_segs@.len());
        }
        PreparedRoot {
            frames,
            exclude,
            global_layer,
            root_depth,
            root_dev,
            use_gitignore: self.git_ignore && git_ok,
            start: Pending::Visit {
                node: root_node,
                path: root_segs,
                parent_dev: Ghost(root_dev),
            },
        }
    }

    /// Finalizes the configuration into a fresh walk.  The primary root
    /// is walked first, then any roots added with `add`, in order; each
    /// root is walked with its own base layers, depth and device.
    pub fn build(self) -> (w: Walk)
        requires
            fs_wf(self.fs),
        ensures
            w.wf(),
            w.fs == self.fs,
            w.max_depth == self.max_depth,
            w.same_file_system == self.same_file_system,
            w.follow_links == self.follow_links,
            w.use_ignore == self.ignore,
            w.custom_names == self.custom_names,
            w.ig.overrides == self.overrides,
            w.ig.hidden == self.hidden,
            w.visited@ == Seq::<(u64, u64)>::empty(),
            w.pending@.len() == 1,
            root_start_ok(self.fs, self.root@, w.ig.root_depth as int, w.root_dev, w.pending@[0]),
            w.roots@.len() == self.extra_roots@.len(),
            forall|k: int|
                0 <= k < w.roots@.len() ==> root_start_ok(
                    self.fs,
                    self.extra_roots@[w.roots@.len() - 1 - k]@,
                    (#[trigger] w.roots@[k]).root_depth as int,
                    w.roots@[k].root_dev,
                    w.roots@[k].start,
                ),
            // the primary root's layer state is exactly what the
            // configuration prescribes
            prepared_layers_ok(
                self,
                self.root@,
                (PreparedRoot {
                    frames: w.ig.frames,
                    exclude: w.ig.exclude,
                    global_layer: w.ig.global_layer,
                    root_depth: w.ig.root_depth,
                    root_dev: w.root_dev,
                    use_gitignore: w.use_gitignore,
                    start: w.pending@[0],
                }),
            ),
            // and so is each extra root's
            forall|k: int|
                0 <= k < w.roots@.len() ==> prepared_layers_ok(
                    self,
                    self.extra_roots@[w.roots@.len() - 1 - k]@,
                    #[trigger] w.roots@[k],
                ),
    {
        let first = self.prepare_root(&self.root);
        let mut rest: Vec<PreparedRoot> = Vec::new();
        let mut i: usize = self.extra_roots.len();
        while i > 0
            invariant
                fs_wf(self.fs),
                0 <= i <= self.extra_roots@.len(),
                rest@.len() == self.extra_roots@.len() - i,
                forall|k: int| 0 <= k < rest@.len() ==> prepared_ok(self.fs, #[trigger] rest@[k]),
                forall|k: int|
                    0 <= k < rest@.len() ==> root_start_ok(
                        self.fs,
                        self.extra_roots@[self.extra_roots@.len() - 1 - k]@,
                        (#[trigger] rest@[k]).root_depth as int,
                        rest@[k].root_dev,
                        rest@[k].start,
                    ),
                forall|k: int|
                    0 <= k < rest@.len() ==> prepared_layers_ok(
                        self,
                        self.extra_roots@[self.extra_roots@.len() - 1 - k]@,
                        #[trigger] rest@[k],
                    ),
            decreases i,
        {
            i -= 1;
            let pr = self.prepare_root(&self.extra_roots[i]);
            rest.push(pr);
        }
        let ghost fst = first;
        let override_depth = split_path(&self.overrides.root).len();
        let mut pending: Vec<Pending> = Vec::new();
        let ig = IgnoreStack {
            overrides: self.overrides,
            override_depth,
            frames: first.frames,
            exclude: first.exclude,
            global_layer: first.global_layer,
            hidden: self.hidden,
            root_depth: first.root_depth,
        };
        pending.push(first.start);
        let w = Walk {
            fs: self.fs,
            follow_links: self.follow_links,
            same_file_system: self.same_file_system,
            max_depth: self.max_depth,
            use_gitignore: first.use_gitignore,
            use_ignore: self.ignore,
            custom_names: self.custom_names,
            ig,
            pending,
            roots: rest,
            visited: Vec::new(),
            root_dev: first.root_dev,
        };
        proof {
            assert forall|ii: int|
                0 <= ii < w.pending@.len() implies pending_ok(
                w.fs,
                w.ig.root_depth as int,
                w.max_depth,
                w.same_file_system,
                w.root_dev,
                #[trigger] w.pending@[ii],
            ) by {
                assert(w.pending@[ii] == fst.start);
            }
            assert((PreparedRoot {
                frames: w.ig.frames,
                exclude: w.ig.exclude,
                global_layer: w.ig.global_layer,
                root_depth: w.ig.root_depth,
                root_dev: w.root_dev,
                use_gitignore: w.use_gitignore,
                start: w.pending@[0],
            }) == fst);
        }
        w
    }
}

/// Resolves the walk root's path, returning the chain of resolved
/// directory nodes at each depth, ending with the resolved root itself —
/// exactly the node [`crate::fsmodel::spec_resolve_entry`] denotes.
fn resolve_chain(fs: &Fs, segs: &Vec<Vec<u8>>) -> (r: Result<Vec<usize>, bool>)
    requires
        fs_wf(*fs),
    ensures
        match crate::fsmodel::spec_resolve_entry(*fs, segs.deep_view()) {
            Result::Ok(n) => r matches Ok(ch) && ch@.len() == segs@.len() + 1 && ch@.last() as int
                == n && (forall|k: int|
                0 <= k < ch@.len() ==> (#[trigger] ch@[k]) < fs.nodes@.len()) && (forall|d: int|
                0 <= d < ch@.len() ==> crate::fsmodel::spec_dir_at(*fs, segs.deep_view(), d)
                    == Result::<int, bool>::Ok((#[trigger] ch@[d]) as int)),
            Result::Err(b) => r matches Err(bb) && bb == b,
        },
{
    let ghost dv = segs.deep_view();
    proof {
        assert(dv.len() == segs@.len());
        assert(dv.subrange(0, 0) =~= Seq::<Seq<u8>>::empty());
    }
    let mut chain: Vec<usize> = Vec::new();
    let mut cur: usize = 0;
    let mut i: usize = 0;
    while i < segs.len()
        invariant
            fs_wf(*fs),
            cur < fs.nodes@.len(),
            0 <= i <= segs@.len(),
            dv == segs.deep_view(),
            dv.len() == segs@.len(),
            crate::fsmodel::spec_resolve_path(*fs, dv, 0, 0) == crate::fsmodel::spec_resolve_path(
                *fs,
                dv,
                i as int,
                cur as int,
            ),
            crate::fsmodel::spec_resolve_path(*fs, dv.subrange(0, i as int), 0, 0)
                == Result::<int, bool>::Ok(cur as int),
            chain@.len() == i,
            forall|k: int| 0 <= k < chain@.len() ==> (#[trigger] chain@[k]) < fs.nodes@.len(),
            forall|d: int|
                0 <= d < chain@.len() ==> crate::fsmodel::spec_dir_at(*fs, dv, d)
                    == Result::<int, bool>::Ok((#[trigger] chain@[d]) as int),
        decreases segs@.len() - i,
    {
        let c = match resolve_link(fs, cur) {
            Ok(c) => c,
            Err(nf) => {
                return Err(nf);
            },
        };
        let is_dir = match fs.nodes[c].kind {
            FileKind::Directory => true,
            _ => false,
        };
        if !is_dir {
            return Err(true);
        }
        chain.push(c);
        proof {
            assert(dv[i as int] == segs@[i as int]@);
            assert(crate::fsmodel::spec_dir_at(*fs, dv, i as int) == Result::<int, bool>::Ok(
                c as int,
            ));
        }
        match find_child(fs, c, &segs[i]) {
            Option::Some(n) => {
                proof {
                    crate::fsmodel::lemma_resolve_path_snoc(*fs, dv, i as int, 0, 0);
                    assert(crate::fsmodel::spec_step_into(*fs, cur as int, dv[i as int])
                        == Result::<int, bool>::Ok(n as int));
                    assert(crate::fsmodel::spec_resolve_path(*fs, dv.subrange(0, i + 1), 0, 0)
                        == Result::<int, bool>::Ok(n as int));
                }
                cur = n;
            },
            Option::None => {
                return Err(true);
            },
        }
        i += 1;
    }
    let c = match resolve_link(fs, cur) {
        Ok(c) => c,
        Err(nf) => {
            return Err(nf);
        },
    };
    chain.push(c);
    proof {
        assert(dv.subrange(0, dv.len() as int) =~= dv);
        assert(crate::fsmodel::spec_dir_at(*fs, dv, dv.len() as int) == Result::<int, bool>::Ok(
            c as int,
        ));
    }
    Ok(chain)
}

impl Walk {
    /// A walk over `fs` rooted at `root`, with the default configuration:
    /// hidden entries skipped, all ignore sources honoured, links not
    /// followed, no depth bound, no filesystem confinement, no overrides
    /// and no extra roots.
    pub fn new(fs: Fs, root: Vec<u8>) -> (w: Walk)
        requires
            fs_wf(fs),
        ensures
            w.wf(),
            w.fs == fs,
            w.max_depth is None,
            !w.same_file_system,
            !w.follow_links,
            w.use_ignore,
            w.ig.hidden,
            w.ig.overrides.patterns@.len() == 0,
            w.visited@ == Seq::<(u64, u64)>::empty(),
            w.pending@.len() == 1,
            root_start_ok(fs, root@, w.ig.root_depth as int, w.root_dev, w.pending@[0]),
            w.roots@.len() == 0,
            // the default layer state: every gitignore source enabled, no
            // custom names, no global contents, ancestor frames loaded,
            // the nearest repository's exclude file honoured
            ({
                let segs = if root@.len() == 0 {
                    Seq::<Seq<u8>>::empty()
                } else {
                    crate::fsmodel::spec_split(root@, 0, root@.len() as int)
                };
                crate::fsmodel::spec_resolve_entry(fs, segs) is Ok ==> {
                    &&& w.use_gitignore
                    &&& w.ig.global_layer is None
                    &&& w.ig.frames@.len() == segs.len()
                    &&& (forall|d: int|
                        0 <= d < segs.len() ==> dir_frame_ok(
                            fs,
                            segs,
                            d,
                            Seq::<Seq<u8>>::empty(),
                            true,
                            true,
                            #[trigger] w.ig.frames@[d],
                        ))
                    &&& (match spec_repo_at(fs, segs, segs.len() as int) {
                        Option::Some(rd) => crate::fsmodel::spec_dir_at(fs, segs, rd)
                            matches Result::Ok(repo) && spec_exclude_ok(fs, repo, rd, w.ig.exclude),
                        Option::None => w.ig.exclude is None,
                    })
                }
            }),
    {
        let b = WalkBuilder::new(fs, root);
        let ghost gb = b;
        let w = b.build();
        proof {
            assert(gb.custom_names.deep_view() =~= Seq::<Seq<u8>>::empty());
            assert(gb.extra_layers@.len() == 0);
        }
        w
    }
}

} // verus!
