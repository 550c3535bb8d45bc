//! Ordered pattern sets with last-match-wins evaluation: the explicit
//! override set a caller supplies, and the shared verdict machinery that
//! per-directory ignore layers reuse.

use vstd::prelude::*;
use crate::Error;
use crate::glob::{
    GPattern, Pattern, gpattern_matches, spec_compile, LineOutcome, compile, clone_bytes,
    clone_patterns,
};

verus! {

/// What an ordered pattern set says about one path: explicitly re-admitted,
/// explicitly excluded, or no opinion.  "No opinion" is distinct from
/// "re-admitted" so that precedence across sources can fall through.
#[derive(Clone, Copy, PartialEq, Eq, Structural, Debug)]
pub enum Verdict {
    Whitelisted,
    Ignored,
    Unspecified,
}

/// The verdict of an ordered pattern list on `path`, read relative to the
/// list's own directory (the first `from` segments): the latest pattern
/// that matches decides, by its polarity; no match means no opinion.
pub open spec fn spec_list_verdict(
    ps: Seq<GPattern>,
    path: Seq<Seq<u8>>,
    from: int,
    is_dir: bool,
) -> Verdict
    decreases ps.len(),
{
    if ps.len() == 0 {
        Verdict::Unspecified
    } else if gpattern_matches(ps.last(), path, from, is_dir) {
        if ps.last().whitelist {
            Verdict::Whitelisted
        } else {
            Verdict::Ignored
        }
    } else {
        spec_list_verdict(ps.drop_last(), path, from, is_dir)
    }
}

/// Evaluating a pattern list is deterministic: the verdict depends only on
/// the list's contents and order, the path, and the directory flag, so
/// re-evaluating the same inputs never changes it.
pub proof fn lemma_verdict_deterministic(
    ps1: Seq<GPattern>,
    ps2: Seq<GPattern>,
    path1: Seq<Seq<u8>>,
    path2: Seq<Seq<u8>>,
    from: int,
    is_dir: bool,
)
    requires
        ps1 == ps2,
        path1 == path2,
    ensures
        spec_list_verdict(ps1, path1, from, is_dir) == spec_list_verdict(ps2, path2, from, is_dir),
{
}

/// Last-match-wins: if the pattern at `i` matches and no later pattern
/// does, the verdict is the polarity of the pattern at `i`.  A later rule
/// therefore overrides every earlier one.
pub proof fn lemma_last_match_wins(
    ps: Seq<GPattern>,
    path: Seq<Seq<u8>>,
    from: int,
    is_dir: bool,
    i: int,
)
    requires
        0 <= i < ps.len(),
        gpattern_matches(ps[i], path, from, is_dir),
        forall|j: int| i < j < ps.len() ==> !gpattern_matches(ps[j], path, from, is_dir),
    ensures
        spec_list_verdict(ps, path, from, is_dir) == (if ps[i].whitelist {
            Verdict::Whitelisted
        } else {
            Verdict::Ignored
        }),
    decreases ps.len(),
{
    if i == ps.len() - 1 {
    } else {
        assert(!gpattern_matches(ps.last(), path, from, is_dir));
        assert(ps.drop_last()[i] == ps[i]);
        assert forall|j: int|
            i < j < ps.drop_last().len() implies !gpattern_matches(
            ps.drop_last()[j],
            path,
            from,
            is_dir,
        ) by {
            assert(ps.drop_last()[j] == ps[j]);
        }
        lemma_last_match_wins(ps.drop_last(), path, from, is_dir, i);
    }
}

/// If no pattern in the list matches, the list has no opinion.
pub proof fn lemma_no_match_unspecified(ps: Seq<GPattern>, path: Seq<Seq<u8>>, from: int, is_dir: bool)
    requires
        forall|j: int| 0 <= j < ps.len() ==> !gpattern_matches(ps[j], path, from, is_dir),
    ensures
        spec_list_verdict(ps, path, from, is_dir) == Verdict::Unspecified,
    decreases ps.len(),
{
    if ps.len() == 0 {
    } else {
        assert forall|j: int|
            0 <= j < ps.drop_last().len() implies !gpattern_matches(
            ps.drop_last()[j],
            path,
            from,
            is_dir,
        ) by {
            assert(ps.drop_last()[j] == ps[j]);
        }
        lemma_no_match_unspecified(ps.drop_last(), path, from, is_dir);
    }
}

/// Evaluates an ordered pattern list by last-match-wins.
pub fn list_verdict(ps: &Vec<Pattern>, path: &Vec<Vec<u8>>, from: usize, is_dir: bool) -> (v:
    Verdict)
    ensures
        v == spec_list_verdict(ps.deep_view(), path.deep_view(), from as int, is_dir),
{
    proof {
        assert(ps.deep_view().len() == ps@.len());
        assert(ps.deep_view().take(ps@.len() as int) =~= ps.deep_view());
    }
    let ghost full = spec_list_verdict(ps.deep_view(), path.deep_view(), from as int, is_dir);
    let mut i: usize = ps.len();
    while i > 0
        invariant
            0 <= i <= ps.len(),
            full == spec_list_verdict(ps.deep_view(), path.deep_view(), from as int, is_dir),
            full == spec_list_verdict(
                ps.deep_view().take(i as int),
                path.deep_view(),
                from as int,
                is_dir,
            ),
        decreases i,
    {
        i -= 1;
        proof {
            assert(ps.deep_view().take(i + 1 as int).last() == ps.deep_view()[i as int]);
            assert(ps.deep_view()[i as int] == ps@[i as int].deep_view());
            assert(ps.deep_view().take(i + 1 as int).drop_last() =~= ps.deep_view().take(i as int));
        }
        if ps[i].matches_at(path, from, is_dir) {
            if ps[i].whitelist {
                return Verdict::Whitelisted;
            } else {
                return Verdict::Ignored;
            }
        }
    }
    proof {
        assert(ps.deep_view().take(0) =~= Seq::<GPattern>::empty());
    }
    Verdict::Unspecified
}

/// An immutable, caller-supplied override set: ordered compiled patterns
/// plus the root directory its relative patterns are resolved against.
/// Its verdict outranks every discovered ignore file.
pub struct Override {
    pub root: Vec<u8>,
    pub patterns: Vec<Pattern>,
}

impl Override {
    /// The verdict on `path`, whose segments are relative to this set's
    /// root, by last-match-wins.
    pub fn matched(&self, path: &Vec<Vec<u8>>, is_dir: bool) -> (v: Verdict)
        ensures
            v == spec_list_verdict(self.patterns.deep_view(), path.deep_view(), 0, is_dir),
    {
        list_verdict(&self.patterns, path, 0, is_dir)
    }

    /// An override set with no patterns; it has no opinion on anything.
    pub fn empty() -> (r: Override)
        ensures
            r.patterns@.len() == 0,
            r.root@.len() == 0,
    {
        Override { root: Vec::new(), patterns: Vec::new() }
    }

    /// True when the set holds no patterns.
    pub fn is_empty(&self) -> (r: bool)
        ensures
            r == (self.patterns@.len() == 0),
    {
        self.patterns.len() == 0
    }
}

/// Accumulates override globs, compiling each as it arrives, and finalizes
/// them into an immutable [`Override`].
pub struct OverrideBuilder {
    pub root: Vec<u8>,
    pub patterns: Vec<Pattern>,
}

impl OverrideBuilder {
    /// A new builder whose patterns will be matched relative to `root`.
    pub fn new(root: Vec<u8>) -> (r: OverrideBuilder)
        ensures
            r.root@ == root@,
            r.patterns@.len() == 0,
    {
        OverrideBuilder { root, patterns: Vec::new() }
    }

    /// Appends one glob line.  A malformed glob is rejected with
    /// `InvalidPattern` and leaves the builder unchanged; a blank or
    /// comment line adds nothing; anything else appends its compiled form.
    pub fn add(&mut self, glob: &Vec<u8>) -> (r: Result<(), Error>)
        ensures
            final(self).root == old(self).root,
            match spec_compile(glob@) {
                LineOutcome::Skip => r is Ok && final(self).patterns.deep_view()
                    == old(self).patterns.deep_view(),
                LineOutcome::Bad => (r matches Err(e) && e is InvalidPattern)
                    && final(self).patterns.deep_view() == old(self).patterns.deep_view(),
                LineOutcome::Pat(g) => r is Ok && final(self).patterns.deep_view()
                    == old(self).patterns.deep_view().push(g),
            },
    {
        match compile(glob) {
            Ok(Option::Some(p)) => {
                let ghost g = p.deep_view();
                let ghost before = self.patterns.deep_view();
                self.patterns.push(p);
                proof {
                    assert(self.patterns.deep_view() =~= before.push(g));
                }
                Ok(())
            },
            Ok(Option::None) => Ok(()),
            Err(e) => Err(e),
        }
    }

    /// Finalizes the accumulated patterns into an immutable override set.
    /// Every glob was validated as it was added, so building cannot fail.
    pub fn build(&self) -> (r: Result<Override, Error>)
        ensures
            r matches Ok(o) && o.root@ == self.root@ && o.patterns.deep_view()
                == self.patterns.deep_view(),
    {
        Ok(Override { root: clone_bytes(&self.root), patterns: clone_patterns(&self.patterns) })
    }
}

} // verus!
