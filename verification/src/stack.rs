//! Layered precedence resolution: per-directory ignore layers stacked from
//! the traversal root down to the current directory, the explicit override
//! set, the repository exclude file, the global ignore file, and the
//! hidden-file rule, consulted in strict precedence order.

use vstd::prelude::*;
use crate::glob::{B_DOT, GPattern, Pattern};
use crate::overrides::{Override, Verdict, spec_list_verdict, list_verdict};

verus! {

/// One ignore file's worth of compiled patterns, tied to the directory
/// that held the file; `dir_depth` counts the path segments from the
/// filesystem root to that directory, so candidate paths are matched
/// relative to it.
pub struct IgnoreLayer {
    pub dir_depth: usize,
    pub patterns: Vec<Pattern>,
}

/// Mathematical form of an [`IgnoreLayer`].
pub struct GLayer {
    pub dir_depth: int,
    pub patterns: Seq<GPattern>,
}

impl DeepView for IgnoreLayer {
    type V = GLayer;

    open spec fn deep_view(&self) -> GLayer {
        GLayer { dir_depth: self.dir_depth as int, patterns: self.patterns.deep_view() }
    }
}

/// The ignore files discovered in one directory while descending: one
/// layer per configured custom ignore filename (in configuration order),
/// and the directory's `.gitignore` and `.ignore` layers when present.
pub struct Frame {
    pub customs: Vec<IgnoreLayer>,
    pub gitignore: Option<IgnoreLayer>,
    pub ignore_file: Option<IgnoreLayer>,
}

/// Mathematical form of a [`Frame`].
pub struct GFrame {
    pub customs: Seq<GLayer>,
    pub gitignore: Option<GLayer>,
    pub ignore_file: Option<GLayer>,
}

impl DeepView for Frame {
    type V = GFrame;

    open spec fn deep_view(&self) -> GFrame {
        GFrame {
            customs: self.customs.deep_view(),
            gitignore: self.gitignore.deep_view(),
            ignore_file: self.ignore_file.deep_view(),
        }
    }
}

/// One layer's opinion — its patterns, matched relative to its directory.
pub open spec fn glayer_verdict(l: GLayer, path: Seq<Seq<u8>>, is_dir: bool) -> Verdict {
    spec_list_verdict(l.patterns, path, l.dir_depth, is_dir)
}

/// The verdict of an optional layer; an absent layer has no opinion.
pub open spec fn opt_layer_verdict(l: Option<GLayer>, path: Seq<Seq<u8>>, is_dir: bool) -> Verdict {
    match l {
        Option::Some(x) => glayer_verdict(x, path, is_dir),
        Option::None => Verdict::Unspecified,
    }
}

/// The first layer (in order) with an opinion decides.
pub open spec fn layers_verdict(ls: Seq<GLayer>, path: Seq<Seq<u8>>, is_dir: bool) -> Verdict
    decreases ls.len(),
{
    if ls.len() == 0 {
        Verdict::Unspecified
    } else if glayer_verdict(ls[0], path, is_dir) != Verdict::Unspecified {
        glayer_verdict(ls[0], path, is_dir)
    } else {
        layers_verdict(ls.skip(1), path, is_dir)
    }
}

/// Custom-ignore-file verdict across the frame stack, deepest frame first.
pub open spec fn frames_custom_verdict(fs: Seq<GFrame>, path: Seq<Seq<u8>>, is_dir: bool) -> Verdict
    decreases fs.len(),
{
    if fs.len() == 0 {
        Verdict::Unspecified
    } else if layers_verdict(fs.last().customs, path, is_dir) != Verdict::Unspecified {
        layers_verdict(fs.last().customs, path, is_dir)
    } else {
        frames_custom_verdict(fs.drop_last(), path, is_dir)
    }
}

/// `.gitignore` verdict across the frame stack, deepest frame first.
pub open spec fn frames_gitignore_verdict(fs: Seq<GFrame>, path: Seq<Seq<u8>>, is_dir: bool) -> Verdict
    decreases fs.len(),
{
    if fs.len() == 0 {
        Verdict::Unspecified
    } else if opt_layer_verdict(fs.last().gitignore, path, is_dir) != Verdict::Unspecified {
        opt_layer_verdict(fs.last().gitignore, path, is_dir)
    } else {
        frames_gitignore_verdict(fs.drop_last(), path, is_dir)
    }
}

/// `.ignore` verdict across the frame stack, deepest frame first.
pub open spec fn frames_ignorefile_verdict(fs: Seq<GFrame>, path: Seq<Seq<u8>>, is_dir: bool) -> Verdict
    decreases fs.len(),
{
    if fs.len() == 0 {
        Verdict::Unspecified
    } else if opt_layer_verdict(fs.last().ignore_file, path, is_dir) != Verdict::Unspecified {
        opt_layer_verdict(fs.last().ignore_file, path, is_dir)
    } else {
        frames_ignorefile_verdict(fs.drop_last(), path, is_dir)
    }
}

/// The hidden-file rule: with `hidden` set, a basename starting with `.`
/// is skipped.
pub open spec fn spec_hidden_skip(hidden: bool, path: Seq<Seq<u8>>) -> bool {
    hidden && path.len() > 0 && path.last().len() > 0 && path.last()[0] == B_DOT
}

/// The full ignore context the walk consults for each candidate entry.
pub struct IgnoreStack {
    pub overrides: Override,
    pub override_depth: usize,
    pub frames: Vec<Frame>,
    pub exclude: Option<IgnoreLayer>,
    pub global_layer: Option<IgnoreLayer>,
    pub hidden: bool,
    pub root_depth: usize,
}

/// Mathematical form of an [`IgnoreStack`].
pub struct GStack {
    pub overrides: Seq<GPattern>,
    pub override_depth: int,
    pub frames: Seq<GFrame>,
    pub exclude: Option<GLayer>,
    pub global_layer: Option<GLayer>,
    pub hidden: bool,
    pub root_depth: int,
}

impl View for IgnoreStack {
    type V = GStack;

    open spec fn view(&self) -> GStack {
        GStack {
            overrides: self.overrides.patterns.deep_view(),
            override_depth: self.override_depth as int,
            frames: self.frames.deep_view(),
            exclude: self.exclude.deep_view(),
            global_layer: self.global_layer.deep_view(),
            hidden: self.hidden,
            root_depth: self.root_depth as int,
        }
    }
}

/// Whether the stack skips `path` (full segments from the filesystem
/// root).  Sources in strict descending precedence: the explicit override
/// set (matched relative to its own root), custom ignore files (deepest
/// directory first), `.gitignore` layers, `.ignore` layers, the repository
/// exclude file, the global ignore file, and last the hidden-file rule.
/// The first source with an opinion decides; within one source the
/// last-match-wins rule already applied.
pub open spec fn spec_should_skip(st: GStack, path: Seq<Seq<u8>>, is_dir: bool) -> bool {
    let ov = spec_list_verdict(st.overrides, path, st.override_depth, is_dir);
    let c = frames_custom_verdict(st.frames, path, is_dir);
    let gi = frames_gitignore_verdict(st.frames, path, is_dir);
    let ig = frames_ignorefile_verdict(st.frames, path, is_dir);
    let ex = opt_layer_verdict(st.exclude, path, is_dir);
    let gl = opt_layer_verdict(st.global_layer, path, is_dir);
    if ov != Verdict::Unspecified {
        ov == Verdict::Ignored
    } else if c != Verdict::Unspecified {
        c == Verdict::Ignored
    } else if gi != Verdict::Unspecified {
        gi == Verdict::Ignored
    } else if ig != Verdict::Unspecified {
        ig == Verdict::Ignored
    } else if ex != Verdict::Unspecified {
        ex == Verdict::Ignored
    } else if gl != Verdict::Unspecified {
        gl == Verdict::Ignored
    } else {
        spec_hidden_skip(st.hidden, path)
    }
}

/// An explicit override verdict is final: when the override set has an
/// opinion on a path, every lower source — discovered ignore files, the
/// exclude and global files, the hidden rule — is disregarded, whether the
/// override whitelists or ignores.
pub proof fn lemma_override_precedence(st: GStack, path: Seq<Seq<u8>>, is_dir: bool)
    requires
        spec_list_verdict(st.overrides, path, st.override_depth, is_dir) != Verdict::Unspecified,
    ensures
        spec_should_skip(st, path, is_dir) == (spec_list_verdict(
            st.overrides,
            path,
            st.override_depth,
            is_dir,
        ) == Verdict::Ignored),
{
}

/// With every pattern source silent, the hidden rule alone decides: a
/// basename starting with `.` is skipped exactly when `hidden` is set, and
/// nothing is skipped otherwise.
pub proof fn lemma_hidden_default(st: GStack, path: Seq<Seq<u8>>, is_dir: bool)
    requires
        spec_list_verdict(st.overrides, path, st.override_depth, is_dir) == Verdict::Unspecified,
        frames_custom_verdict(st.frames, path, is_dir) == Verdict::Unspecified,
        frames_gitignore_verdict(st.frames, path, is_dir) == Verdict::Unspecified,
        frames_ignorefile_verdict(st.frames, path, is_dir) == Verdict::Unspecified,
        opt_layer_verdict(st.exclude, path, is_dir) == Verdict::Unspecified,
        opt_layer_verdict(st.global_layer, path, is_dir) == Verdict::Unspecified,
    ensures
        spec_should_skip(st, path, is_dir) == spec_hidden_skip(st.hidden, path),
{
}

fn layer_verdict_exec(l: &IgnoreLayer, path: &Vec<Vec<u8>>, is_dir: bool) -> (v: Verdict)
    ensures
        v == glayer_verdict(l.deep_view(), path.deep_view(), is_dir),
{
    list_verdict(&l.patterns, path, l.dir_depth, is_dir)
}

fn opt_layer_verdict_exec(l: &Option<IgnoreLayer>, path: &Vec<Vec<u8>>, is_dir: bool) -> (v:
    Verdict)
    ensures
        v == opt_layer_verdict(l.deep_view(), path.deep_view(), is_dir),
{
    match l {
        Option::Some(x) => layer_verdict_exec(x, path, is_dir),
        Option::None => Verdict::Unspecified,
    }
}

fn layers_verdict_exec(ls: &Vec<IgnoreLayer>, path: &Vec<Vec<u8>>, is_dir: bool) -> (v: Verdict)
    ensures
        v == layers_verdict(ls.deep_view(), path.deep_view(), is_dir),
{
    proof {
        assert(ls.deep_view().skip(0) =~= ls.deep_view());
    }
    let mut i: usize = 0;
    while i < ls.len()
        invariant
            0 <= i <= ls.len(),
            layers_verdict(ls.deep_view(), path.deep_view(), is_dir) == layers_verdict(
                ls.deep_view().skip(i as int),
                path.deep_view(),
                is_dir,
            ),
        decreases ls.len() - i,
    {
        proof {
            assert(ls.deep_view().skip(i as int)[0] == ls.deep_view()[i as int]);
            assert(ls.deep_view()[i as int] == ls@[i as int].deep_view());
            assert(ls.deep_view().skip(i as int).skip(1) =~= ls.deep_view().skip(i + 1 as int));
        }
        let v = layer_verdict_exec(&ls[i], path, is_dir);
        if v != Verdict::Unspecified {
            return v;
        }
        i += 1;
    }
    proof {
        assert(ls.deep_view().skip(ls@.len() as int) =~= Seq::<GLayer>::empty());
    }
    Verdict::Unspecified
}

impl IgnoreStack {
    fn frames_custom_exec(&self, path: &Vec<Vec<u8>>, is_dir: bool) -> (v: Verdict)
        ensures
            v == frames_custom_verdict(self.frames.deep_view(), path.deep_view(), is_dir),
    {
        proof {
            assert(self.frames.deep_view().len() == self.frames@.len());
            assert(self.frames.deep_view().take(self.frames@.len() as int)
                =~= self.frames.deep_view());
        }
        let mut i: usize = self.frames.len();
        while i > 0
            invariant
                0 <= i <= self.frames.len(),
                frames_custom_verdict(self.frames.deep_view(), path.deep_view(), is_dir)
                    == frames_custom_verdict(
                    self.frames.deep_view().take(i as int),
                    path.deep_view(),
                    is_dir,
                ),
            decreases i,
        {
            i -= 1;
            proof {
                assert(self.frames.deep_view().take(i + 1 as int).last()
                    == self.frames.deep_view()[i as int]);
                assert(self.frames.deep_view()[i as int] == self.frames@[i as int].deep_view());
                assert(self.frames.deep_view().take(i + 1 as int).drop_last()
                    =~= self.frames.deep_view().take(i as int));
            }
            let v = layers_verdict_exec(&self.frames[i].customs, path, is_dir);
            if v != Verdict::Unspecified {
                return v;
            }
        }
        proof {
            assert(self.frames.deep_view().take(0) =~= Seq::<GFrame>::empty());
        }
        Verdict::Unspecified
    }

    fn frames_gitignore_exec(&self, path: &Vec<Vec<u8>>, is_dir: bool) -> (v: Verdict)
        ensures
            v == frames_gitignore_verdict(self.frames.deep_view(), path.deep_view(), is_dir),
    {
        proof {
            assert(self.frames.deep_view().len() == self.frames@.len());
            assert(self.frames.deep_view().take(self.frames@.len() as int)
                =~= self.frames.deep_view());
        }
        let mut i: usize = self.frames.len();
        while i > 0
            invariant
                0 <= i <= self.frames.len(),
                frames_gitignore_verdict(self.frames.deep_view(), path.deep_view(), is_dir)
                    == frames_gitignore_verdict(
                    self.frames.deep_view().take(i as int),
                    path.deep_view(),
                    is_dir,
                ),
            decreases i,
        {
            i -= 1;
            proof {
                assert(self.frames.deep_view().take(i + 1 as int).last()
                    == self.frames.deep_view()[i as int]);
                assert(self.frames.deep_view()[i as int] == self.frames@[i as int].deep_view());
                assert(self.frames.deep_view().take(i + 1 as int).drop_last()
                    =~= self.frames.deep_view().take(i as int));
            }
            let v = opt_layer_verdict_exec(&self.frames[i].gitignore, path, is_dir);
            if v != Verdict::Unspecified {
                return v;
            }
        }
        proof {
            assert(self.frames.deep_view().take(0) =~= Seq::<GFrame>::empty());
        }
        Verdict::Unspecified
    }

    fn frames_ignorefile_exec(&self, path: &Vec<Vec<u8>>, is_dir: bool) -> (v: Verdict)
        ensures
            v == frames_ignorefile_verdict(self.frames.deep_view(), path.deep_view(), is_dir),
    {
        proof {
            assert(self.frames.deep_view().len() == self.frames@.len());
            assert(self.frames.deep_view().take(self.frames@.len() as int)
                =~= self.frames.deep_view());
        }
        let mut i: usize = self.frames.len();
        while i > 0
            invariant
                0 <= i <= self.frames.len(),
                frames_ignorefile_verdict(self.frames.deep_view(), path.deep_view(), is_dir)
                    == frames_ignorefile_verdict(
                    self.frames.deep_view().take(i as int),
                    path.deep_view(),
                    is_dir,
                ),
            decreases i,
        {
            i -= 1;
            proof {
                assert(self.frames.deep_view().take(i + 1 as int).last()
                    == self.frames.deep_view()[i as int]);
                assert(self.frames.deep_view()[i as int] == self.frames@[i as int].deep_view());
                assert(self.frames.deep_view().take(i + 1 as int).drop_last()
                    =~= self.frames.deep_view().take(i as int));
            }
            let v = opt_layer_verdict_exec(&self.frames[i].ignore_file, path, is_dir);
            if v != Verdict::Unspecified {
                return v;
            }
        }
        proof {
            assert(self.frames.deep_view().take(0) =~= Seq::<GFrame>::empty());
        }
        Verdict::Unspecified
    }

    /// Decides whether the walk skips `path`, consulting the sources in
    /// strict precedence order; see [`spec_should_skip`].
    pub fn should_skip(&self, path: &Vec<Vec<u8>>, is_dir: bool) -> (r: bool)
        ensures
            r == spec_should_skip(self@, path.deep_view(), is_dir),
    {
        let ov = list_verdict(&self.overrides.patterns, path, self.override_depth, is_dir);
        if ov != Verdict::Unspecified {
            return ov == Verdict::Ignored;
        }
        let c = self.frames_custom_exec(path, is_dir);
        if c != Verdict::Unspecified {
            return c == Verdict::Ignored;
        }
        let gi = self.frames_gitignore_exec(path, is_dir);
        if gi != Verdict::Unspecified {
            return gi == Verdict::Ignored;
        }
        let ig = self.frames_ignorefile_exec(path, is_dir);
        if ig != Verdict::Unspecified {
            return ig == Verdict::Ignored;
        }
        let ex = opt_layer_verdict_exec(&self.exclude, path, is_dir);
        if ex != Verdict::Unspecified {
            return ex == Verdict::Ignored;
        }
        let gl = opt_layer_verdict_exec(&self.global_layer, path, is_dir);
        if gl != Verdict::Unspecified {
            return gl == Verdict::Ignored;
        }
        if path.len() > 0 {
            let last = &path[path.len() - 1];
            proof {
                assert(path.deep_view().last() == path@[path@.len() - 1]@);
                assert(path.deep_view().len() == path@.len());
            }
            if last.len() > 0 && last[0] == B_DOT {
                self.hidden
            } else {
                false
            }
        } else {
            proof {
                assert(path.deep_view().len() == path@.len());
            }
            false
        }
    }
}

} // verus!
