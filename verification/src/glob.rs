//! Compiling one gitignore-style glob line into a matchable pattern, and
//! matching compiled patterns against slash-separated paths.
//!
//! Syntax handled here: a leading `!` flips the polarity to whitelist; a
//! leading `/` anchors the pattern to its own directory; a trailing `/`
//! restricts matches to directories; `**` standing as a whole segment
//! matches zero or more path segments; `*` and `?` never cross a `/`
//! boundary; `[...]` character classes with ranges and leading-`!`
//! negation; `\` escapes the next byte; an unescaped `#` at the start of a
//! line is a comment; trailing spaces are trimmed unless escaped.

use vstd::prelude::*;
use crate::Error;

verus! {

pub const B_SPACE: u8 = 32;
pub const B_BANG: u8 = 33;
pub const B_HASH: u8 = 35;
pub const B_STAR: u8 = 42;
pub const B_DASH: u8 = 45;
pub const B_DOT: u8 = 46;
pub const B_SLASH: u8 = 47;
pub const B_QMARK: u8 = 63;
pub const B_LBRACK: u8 = 91;
pub const B_BACKSLASH: u8 = 92;
pub const B_RBRACK: u8 = 93;

/// Mathematical form of one in-segment glob token.
pub enum GTok {
    Lit(u8),
    AnyChar,
    Star,
    Class { neg: bool, ranges: Seq<(u8, u8)> },
}

/// Mathematical form of one pattern segment.
pub enum GSeg {
    Globstar,
    Plain(Seq<GTok>),
}

/// Mathematical form of a whole compiled pattern.
pub struct GPattern {
    pub segs: Seq<GSeg>,
    pub whitelist: bool,
    pub anchored: bool,
    pub dir_only: bool,
}

/// One in-segment glob token: a literal byte, `?`, `*`, or a character
/// class with inclusive byte ranges.
pub enum SegTok {
    Lit(u8),
    AnyChar,
    Star,
    Class { neg: bool, ranges: Vec<(u8, u8)> },
}

/// One segment of a compiled pattern: `**` or a run of in-segment tokens.
pub enum Segment {
    Globstar,
    Plain(Vec<SegTok>),
}

/// A compiled pattern: its segments plus the three flags drawn from the
/// glob line's markers.  Immutable once compiled.
pub struct Pattern {
    pub segments: Vec<Segment>,
    pub whitelist: bool,
    pub anchored: bool,
    pub dir_only: bool,
}

impl DeepView for SegTok {
    type V = GTok;

    open spec fn deep_view(&self) -> GTok {
        match self {
            SegTok::Lit(b) => GTok::Lit(*b),
            SegTok::AnyChar => GTok::AnyChar,
            SegTok::Star => GTok::Star,
            SegTok::Class { neg, ranges } => GTok::Class { neg: *neg, ranges: ranges@ },
        }
    }
}

impl DeepView for Segment {
    type V = GSeg;

    open spec fn deep_view(&self) -> GSeg {
        match self {
            Segment::Globstar => GSeg::Globstar,
            Segment::Plain(toks) => GSeg::Plain(toks.deep_view()),
        }
    }
}

impl DeepView for Pattern {
    type V = GPattern;

    open spec fn deep_view(&self) -> GPattern {
        GPattern {
            segs: self.segments.deep_view(),
            whitelist: self.whitelist,
            anchored: self.anchored,
            dir_only: self.dir_only,
        }
    }
}

/// Does byte `c` fall in one of the inclusive ranges?
pub open spec fn class_hit(ranges: Seq<(u8, u8)>, c: u8) -> bool {
    exists|i: int| 0 <= i < ranges.len() && ranges[i].0 <= c && c <= ranges[i].1
}

/// Class membership with negation applied.
pub open spec fn class_matches(neg: bool, ranges: Seq<(u8, u8)>, c: u8) -> bool {
    if neg {
        !class_hit(ranges, c)
    } else {
        class_hit(ranges, c)
    }
}

/// Do the tokens from `ti` on match the bytes of `name` from `ni` on?
/// `*` matches any run of bytes within the segment.
pub open spec fn seg_match_from(toks: Seq<GTok>, ti: int, name: Seq<u8>, ni: int) -> bool
    decreases toks.len() - ti + name.len() - ni,
    when 0 <= ti <= toks.len() && 0 <= ni <= name.len()
{
    if ti == toks.len() {
        ni == name.len()
    } else {
        match toks[ti] {
            GTok::Star => seg_match_from(toks, ti + 1, name, ni) || (ni < name.len()
                && seg_match_from(toks, ti, name, ni + 1)),
            GTok::Lit(b) => ni < name.len() && name[ni] == b && seg_match_from(
                toks,
                ti + 1,
                name,
                ni + 1,
            ),
            GTok::AnyChar => ni < name.len() && seg_match_from(toks, ti + 1, name, ni + 1),
            GTok::Class { neg, ranges } => ni < name.len() && class_matches(neg, ranges, name[ni])
                && seg_match_from(toks, ti + 1, name, ni + 1),
        }
    }
}

/// Do the segments from `si` on match the path segments from `pi` on?
/// `**` consumes zero or more whole path segments.
pub open spec fn segs_match_from(segs: Seq<GSeg>, si: int, path: Seq<Seq<u8>>, pi: int) -> bool
    decreases segs.len() - si + path.len() - pi,
    when 0 <= si <= segs.len() && 0 <= pi <= path.len()
{
    if si == segs.len() {
        pi == path.len()
    } else {
        match segs[si] {
            GSeg::Globstar => segs_match_from(segs, si + 1, path, pi) || (pi < path.len()
                && segs_match_from(segs, si, path, pi + 1)),
            GSeg::Plain(toks) => pi < path.len() && seg_match_from(toks, 0, path[pi], 0)
                && segs_match_from(segs, si + 1, path, pi + 1),
        }
    }
}

/// Does pattern `p` match the candidate path, considered relative to the
/// pattern's own directory, which holds the first `from` segments of
/// `path`?  An anchored pattern must match right at its directory; an
/// unanchored one may match at any depth below it.  A directory-only
/// pattern matches only directories.
pub open spec fn gpattern_matches(p: GPattern, path: Seq<Seq<u8>>, from: int, is_dir: bool) -> bool {
    &&& (p.dir_only ==> is_dir)
    &&& 0 <= from <= path.len()
    &&& if p.anchored {
        segs_match_from(p.segs, 0, path, from)
    } else {
        exists|k: int| from <= k <= path.len() && segs_match_from(p.segs, 0, path, k)
    }
}

fn class_hit_exec(ranges: &Vec<(u8, u8)>, c: u8) -> (r: bool)
    ensures
        r == class_hit(ranges@, c),
{
    let mut i: usize = 0;
    while i < ranges.len()
        invariant
            0 <= i <= ranges.len(),
            forall|j: int| 0 <= j < i ==> !(ranges@[j].0 <= c && c <= ranges@[j].1),
        decreases ranges.len() - i,
    {
        let (lo, hi) = ranges[i];
        if lo <= c && c <= hi {
            return true;
        }
        i += 1;
    }
    false
}

fn seg_match_exec(toks: &Vec<SegTok>, ti: usize, name: &Vec<u8>, ni: usize) -> (r: bool)
    requires
        ti <= toks.len(),
        ni <= name.len(),
    ensures
        r == seg_match_from(toks.deep_view(), ti as int, name@, ni as int),
    decreases toks.len() - ti + name.len() - ni,
{
    proof {
        assert(toks.deep_view().len() == toks@.len());
    }
    if ti == toks.len() {
        ni == name.len()
    } else {
        proof {
            assert(toks.deep_view()[ti as int] == toks@[ti as int].deep_view());
        }
        match &toks[ti] {
            SegTok::Star => {
                if seg_match_exec(toks, ti + 1, name, ni) {
                    true
                } else if ni < name.len() {
                    seg_match_exec(toks, ti, name, ni + 1)
                } else {
                    false
                }
            },
            SegTok::Lit(b) => {
                if ni < name.len() && name[ni] == *b {
                    seg_match_exec(toks, ti + 1, name, ni + 1)
                } else {
                    false
                }
            },
            SegTok::AnyChar => {
                if ni < name.len() {
                    seg_match_exec(toks, ti + 1, name, ni + 1)
                } else {
                    false
                }
            },
            SegTok::Class { neg, ranges } => {
                if ni < name.len() {
                    let hit = class_hit_exec(ranges, name[ni]);
                    let ok = if *neg {
                        !hit
                    } else {
                        hit
                    };
                    if ok {
                        seg_match_exec(toks, ti + 1, name, ni + 1)
                    } else {
                        false
                    }
                } else {
                    false
                }
            },
        }
    }
}

fn segs_match_exec(segs: &Vec<Segment>, si: usize, path: &Vec<Vec<u8>>, pi: usize) -> (r: bool)
    requires
        si <= segs.len(),
        pi <= path.len(),
    ensures
        r == segs_match_from(segs.deep_view(), si as int, path.deep_view(), pi as int),
    decreases segs.len() - si + path.len() - pi,
{
    proof {
        assert(segs.deep_view().len() == segs@.len());
        assert(path.deep_view().len() == path@.len());
    }
    if si == segs.len() {
        pi == path.len()
    } else {
        proof {
            assert(segs.deep_view()[si as int] == segs@[si as int].deep_view());
        }
        match &segs[si] {
            Segment::Globstar => {
                if segs_match_exec(segs, si + 1, path, pi) {
                    true
                } else if pi < path.len() {
                    segs_match_exec(segs, si, path, pi + 1)
                } else {
                    false
                }
            },
            Segment::Plain(toks) => {
                if pi < path.len() {
                    proof {
                        assert(path.deep_view()[pi as int] == path@[pi as int]@);
                    }
                    if seg_match_exec(toks, 0, &path[pi], 0) {
                        segs_match_exec(segs, si + 1, path, pi + 1)
                    } else {
                        false
                    }
                } else {
                    false
                }
            },
        }
    }
}

impl Pattern {
    /// Does this pattern match the candidate path, whose first `from`
    /// segments lead to the pattern's own directory?  A `from` beyond the
    /// path's length matches nothing.
    pub fn matches_at(&self, path: &Vec<Vec<u8>>, from: usize, is_dir: bool) -> (r: bool)
        ensures
            r == gpattern_matches(self.deep_view(), path.deep_view(), from as int, is_dir),
    {
        if from > path.len() {
            return false;
        }
        if self.dir_only && !is_dir {
            return false;
        }
        if self.anchored {
            segs_match_exec(&self.segments, 0, path, from)
        } else {
            let mut k: usize = from;
            loop
                invariant
                    from <= k <= path.len(),
                    self.dir_only ==> is_dir,
                    !self.anchored,
                    forall|j: int|
                        from <= j < k ==> !segs_match_from(
                            self.segments.deep_view(),
                            0,
                            path.deep_view(),
                            j,
                        ),
                decreases path.len() - k + 1,
            {
                if segs_match_exec(&self.segments, 0, path, k) {
                    proof {
                        assert(gpattern_matches(
                            self.deep_view(),
                            path.deep_view(),
                            from as int,
                            is_dir,
                        )) by {
                            assert(path.deep_view().len() == path@.len());
                            assert(from as int <= k as int <= path.deep_view().len());
                            assert(segs_match_from(
                                self.deep_view().segs,
                                0,
                                path.deep_view(),
                                k as int,
                            ));
                        }
                    }
                    return true;
                }
                if k == path.len() {
                    proof {
                        assert(path.deep_view().len() == path@.len());
                    }
                    return false;
                }
                k += 1;
            }
        }
    }
}

/// The trimmed length of a glob line: trailing spaces are dropped unless
/// the space is escaped by a backslash.
pub open spec fn spec_trim_end(s: Seq<u8>, e: int) -> int
    decreases e,
    when 0 <= e <= s.len()
{
    if e > 0 && s[e - 1] == B_SPACE && !(e >= 2 && s[e - 2] == B_BACKSLASH) {
        spec_trim_end(s, e - 1)
    } else {
        e
    }
}

/// The items of a character class, read from `i` up to its closing `]`.
/// `None` means the class never closes before `hi` (a malformed glob).
pub open spec fn spec_class_items(s: Seq<u8>, i: int, hi: int) -> Option<(Seq<(u8, u8)>, int)>
    decreases hi - i,
    when 0 <= i <= hi <= s.len()
{
    if i == hi {
        Option::None
    } else if s[i] == B_RBRACK {
        Option::Some((Seq::empty(), i + 1))
    } else {
        let c = s[i];
        if i + 2 < hi && s[i + 1] == B_DASH && s[i + 2] != B_RBRACK {
            match spec_class_items(s, i + 3, hi) {
                Option::Some(t) => Option::Some((seq![(c, s[i + 2])] + t.0, t.1)),
                Option::None => Option::None,
            }
        } else {
            match spec_class_items(s, i + 1, hi) {
                Option::Some(t) => Option::Some((seq![(c, c)] + t.0, t.1)),
                Option::None => Option::None,
            }
        }
    }
}

/// Where a successful class parse ends: strictly past `i`, at most `hi`.
pub proof fn lemma_class_items_bounds(s: Seq<u8>, i: int, hi: int)
    requires
        0 <= i <= hi <= s.len(),
    ensures
        spec_class_items(s, i, hi) matches Option::Some(t) ==> i < t.1 <= hi,
    decreases hi - i,
{
    if i == hi {
    } else if s[i] == B_RBRACK {
    } else {
        if i + 2 < hi && s[i + 1] == B_DASH && s[i + 2] != B_RBRACK {
            lemma_class_items_bounds(s, i + 3, hi);
        } else {
            lemma_class_items_bounds(s, i + 1, hi);
        }
    }
}

pub open spec fn cons_tok(t: GTok, rest: Option<Seq<GTok>>) -> Option<Seq<GTok>> {
    match rest {
        Option::Some(r) => Option::Some(seq![t] + r),
        Option::None => Option::None,
    }
}

/// The tokens of one pattern segment, read from `i` up to `hi`.
/// `None` means the segment is malformed.
pub open spec fn spec_toks(s: Seq<u8>, i: int, hi: int) -> Option<Seq<GTok>>
    decreases hi - i,
    when 0 <= i <= hi <= s.len()
    via spec_toks_dec
{
    if i == hi {
        Option::Some(Seq::empty())
    } else {
        let c = s[i];
        if c == B_BACKSLASH {
            if i + 1 < hi {
                cons_tok(GTok::Lit(s[i + 1]), spec_toks(s, i + 2, hi))
            } else {
                Option::None
            }
        } else if c == B_QMARK {
            cons_tok(GTok::AnyChar, spec_toks(s, i + 1, hi))
        } else if c == B_STAR {
            cons_tok(GTok::Star, spec_toks(s, i + 1, hi))
        } else if c == B_LBRACK {
            let neg = i + 1 < hi && s[i + 1] == B_BANG;
            let start: int = if neg {
                i + 2
            } else {
                i + 1
            };
            match spec_class_items(s, start, hi) {
                Option::Some(t) => cons_tok(
                    GTok::Class { neg, ranges: t.0 },
                    spec_toks(s, t.1, hi),
                ),
                Option::None => Option::None,
            }
        } else {
            cons_tok(GTok::Lit(c), spec_toks(s, i + 1, hi))
        }
    }
}

#[via_fn]
proof fn spec_toks_dec(s: Seq<u8>, i: int, hi: int) {
    if 0 <= i <= hi <= s.len() && i < hi && s[i] == B_LBRACK {
        let neg = i + 1 < hi && s[i + 1] == B_BANG;
        let start: int = if neg {
            i + 2
        } else {
            i + 1
        };
        lemma_class_items_bounds(s, start, hi);
    }
}

/// The index of the first `/` at or after `lo` (or `hi` when none).
pub open spec fn find_slash(s: Seq<u8>, lo: int, hi: int) -> int
    decreases hi - lo,
    when 0 <= lo <= hi <= s.len()
{
    if lo >= hi {
        hi
    } else if s[lo] == B_SLASH {
        lo
    } else {
        find_slash(s, lo + 1, hi)
    }
}

pub proof fn lemma_find_slash_bounds(s: Seq<u8>, lo: int, hi: int)
    requires
        0 <= lo <= hi <= s.len(),
    ensures
        lo <= find_slash(s, lo, hi) <= hi,
    decreases hi - lo,
{
    if lo >= hi {
    } else if s[lo] == B_SLASH {
    } else {
        lemma_find_slash_bounds(s, lo + 1, hi);
    }
}

/// One segment's compiled form: `**` alone becomes a globstar, anything
/// else is tokenized.
pub open spec fn spec_segment_of(s: Seq<u8>, lo: int, j: int) -> Option<GSeg> {
    if j - lo == 2 && s[lo] == B_STAR && s[lo + 1] == B_STAR {
        Option::Some(GSeg::Globstar)
    } else {
        match spec_toks(s, lo, j) {
            Option::Some(t) => Option::Some(GSeg::Plain(t)),
            Option::None => Option::None,
        }
    }
}

/// The segments of the pattern body `s[lo..hi]`, split on `/`.
pub open spec fn spec_segments(s: Seq<u8>, lo: int, hi: int) -> Option<Seq<GSeg>>
    decreases hi - lo,
    when 0 <= lo <= hi <= s.len()
    via spec_segments_dec
{
    let j = find_slash(s, lo, hi);
    let seg = spec_segment_of(s, lo, j);
    if j >= hi {
        match seg {
            Option::Some(g) => Option::Some(seq![g]),
            Option::None => Option::None,
        }
    } else {
        match seg {
            Option::Some(g) => match spec_segments(s, j + 1, hi) {
                Option::Some(r) => Option::Some(seq![g] + r),
                Option::None => Option::None,
            },
            Option::None => Option::None,
        }
    }
}

#[via_fn]
proof fn spec_segments_dec(s: Seq<u8>, lo: int, hi: int) {
    if 0 <= lo <= hi <= s.len() {
        lemma_find_slash_bounds(s, lo, hi);
    }
}

/// What one glob line compiles to: nothing (blank line or comment), a
/// malformed-glob failure, or a pattern.
pub enum LineOutcome {
    Skip,
    Bad,
    Pat(GPattern),
}

/// The meaning of one glob line, applying the rules in order: trim
/// unescaped trailing spaces; a blank result or a leading `#` is skipped;
/// a leading `!` flips polarity; a then-leading `/` anchors; a trailing
/// `/` restricts to directories; the rest is split into segments.
pub open spec fn spec_compile(s: Seq<u8>) -> LineOutcome {
    let e = spec_trim_end(s, s.len() as int);
    if e == 0 {
        LineOutcome::Skip
    } else if s[0] == B_HASH {
        LineOutcome::Skip
    } else {
        let wl = s[0] == B_BANG;
        let lo0: int = if wl {
            1
        } else {
            0
        };
        let anch = lo0 < e && s[lo0] == B_SLASH;
        let lo: int = if anch {
            lo0 + 1
        } else {
            lo0
        };
        let dir = lo < e && s[e - 1] == B_SLASH;
        let hi: int = if dir {
            e - 1
        } else {
            e
        };
        match spec_segments(s, lo, hi) {
            Option::Some(segs) => LineOutcome::Pat(
                GPattern { segs, whitelist: wl, anchored: anch, dir_only: dir },
            ),
            Option::None => LineOutcome::Bad,
        }
    }
}

fn trim_end_exec(line: &Vec<u8>) -> (e: usize)
    ensures
        e as int == spec_trim_end(line@, line@.len() as int),
        e <= line.len(),
{
    let mut e: usize = line.len();
    while e > 0 && line[e - 1] == B_SPACE && !(e >= 2 && line[e - 2] == B_BACKSLASH)
        invariant
            0 <= e <= line.len(),
            spec_trim_end(line@, line@.len() as int) == spec_trim_end(line@, e as int),
        decreases e,
    {
        e = e - 1;
    }
    e
}

fn parse_class_items(line: &Vec<u8>, i: usize, hi: usize) -> (r: Option<(Vec<(u8, u8)>, usize)>)
    requires
        i <= hi <= line.len(),
    ensures
        match spec_class_items(line@, i as int, hi as int) {
            Option::Some(t) => r matches Option::Some(x) && x.0@ == t.0 && x.1 as int == t.1,
            Option::None => r is None,
        },
    decreases hi - i,
{
    if i == hi {
        Option::None
    } else if line[i] == B_RBRACK {
        Option::Some((Vec::new(), i + 1))
    } else {
        let c = line[i];
        if hi - i > 2 && line[i + 1] == B_DASH && line[i + 2] != B_RBRACK {
            let d = line[i + 2];
            match parse_class_items(line, i + 3, hi) {
                Option::Some((mut v, j)) => {
                    let ghost oldv = v@;
                    v.insert(0, (c, d));
                    proof {
                        assert(v@ =~= seq![(c, d)] + oldv);
                    }
                    Option::Some((v, j))
                },
                Option::None => Option::None,
            }
        } else {
            match parse_class_items(line, i + 1, hi) {
                Option::Some((mut v, j)) => {
                    let ghost oldv = v@;
                    v.insert(0, (c, c));
                    proof {
                        assert(v@ =~= seq![(c, c)] + oldv);
                    }
                    Option::Some((v, j))
                },
                Option::None => Option::None,
            }
        }
    }
}

fn tokenize(line: &Vec<u8>, i: usize, hi: usize) -> (r: Option<Vec<SegTok>>)
    requires
        i <= hi <= line.len(),
    ensures
        match spec_toks(line@, i as int, hi as int) {
            Option::Some(t) => r matches Option::Some(v) && v.deep_view() == t,
            Option::None => r is None,
        },
    decreases hi - i,
{
    if i == hi {
        let v: Vec<SegTok> = Vec::new();
        proof {
            assert(v.deep_view() =~= Seq::<GTok>::empty());
        }
        Option::Some(v)
    } else {
        let c = line[i];
        if c == B_BACKSLASH {
            if i + 1 < hi {
                let lit = line[i + 1];
                cons_exec(SegTok::Lit(lit), tokenize(line, i + 2, hi))
            } else {
                Option::None
            }
        } else if c == B_QMARK {
            cons_exec(SegTok::AnyChar, tokenize(line, i + 1, hi))
        } else if c == B_STAR {
            cons_exec(SegTok::Star, tokenize(line, i + 1, hi))
        } else if c == B_LBRACK {
            let neg = i + 1 < hi && line[i + 1] == B_BANG;
            let start: usize = if neg {
                i + 2
            } else {
                i + 1
            };
            match parse_class_items(line, start, hi) {
                Option::Some((ranges, j)) => {
                    proof {
                        lemma_class_items_bounds(line@, start as int, hi as int);
                    }
                    cons_exec(SegTok::Class { neg, ranges }, tokenize(line, j, hi))
                },
                Option::None => Option::None,
            }
        } else {
            cons_exec(SegTok::Lit(c), tokenize(line, i + 1, hi))
        }
    }
}

fn cons_exec(t: SegTok, rest: Option<Vec<SegTok>>) -> (r: Option<Vec<SegTok>>)
    ensures
        match rest {
            Option::Some(v) => r matches Option::Some(w) && w.deep_view() == seq![t.deep_view()]
                + v.deep_view(),
            Option::None => r is None,
        },
{
    match rest {
        Option::Some(mut v) => {
            let ghost oldv = v.deep_view();
            let ghost gt = t.deep_view();
            v.insert(0, t);
            proof {
                assert(v.deep_view() =~= seq![gt] + oldv);
            }
            Option::Some(v)
        },
        Option::None => Option::None,
    }
}

pub fn find_slash_exec(line: &Vec<u8>, lo: usize, hi: usize) -> (j: usize)
    requires
        lo <= hi <= line.len(),
    ensures
        j as int == find_slash(line@, lo as int, hi as int),
        lo <= j <= hi,
    decreases hi - lo,
{
    if lo >= hi {
        hi
    } else if line[lo] == B_SLASH {
        lo
    } else {
        find_slash_exec(line, lo + 1, hi)
    }
}

fn parse_segments(line: &Vec<u8>, lo: usize, hi: usize) -> (r: Option<Vec<Segment>>)
    requires
        lo <= hi <= line.len(),
    ensures
        match spec_segments(line@, lo as int, hi as int) {
            Option::Some(t) => r matches Option::Some(v) && v.deep_view() == t,
            Option::None => r is None,
        },
    decreases hi - lo,
{
    let j = find_slash_exec(line, lo, hi);
    let seg: Option<Segment> = if j - lo == 2 && line[lo] == B_STAR && line[lo + 1] == B_STAR {
        Option::Some(Segment::Globstar)
    } else {
        match tokenize(line, lo, j) {
            Option::Some(t) => Option::Some(Segment::Plain(t)),
            Option::None => Option::None,
        }
    };
    proof {
        match spec_segment_of(line@, lo as int, j as int) {
            Option::Some(g) => {
                assert(seg matches Option::Some(sg) && sg.deep_view() == g);
            },
            Option::None => {
                assert(seg is None);
            },
        }
    }
    if j >= hi {
        match seg {
            Option::Some(g) => {
                let ghost gg = g.deep_view();
                let mut v: Vec<Segment> = Vec::new();
                v.push(g);
                proof {
                    assert(v.deep_view() =~= seq![gg]);
                }
                Option::Some(v)
            },
            Option::None => Option::None,
        }
    } else {
        match seg {
            Option::Some(g) => {
                match parse_segments(line, j + 1, hi) {
                    Option::Some(mut v) => {
                        let ghost oldv = v.deep_view();
                        let ghost gg = g.deep_view();
                        v.insert(0, g);
                        proof {
                            assert(v.deep_view() =~= seq![gg] + oldv);
                        }
                        Option::Some(v)
                    },
                    Option::None => Option::None,
                }
            },
            Option::None => Option::None,
        }
    }
}

/// Copies a byte vector; the copy has the same contents.
pub fn clone_bytes(v: &Vec<u8>) -> (r: Vec<u8>)
    ensures
        r@ == v@,
{
    let mut r: Vec<u8> = Vec::new();
    let mut i: usize = 0;
    while i < v.len()
        invariant
            0 <= i <= v.len(),
            r@ == v@.take(i as int),
        decreases v.len() - i,
    {
        r.push(v[i]);
        proof {
            assert(v@.take(i + 1 as int) =~= v@.take(i as int).push(v@[i as int]));
        }
        i += 1;
    }
    proof {
        assert(v@.take(v@.len() as int) =~= v@);
    }
    r
}

fn clone_ranges(v: &Vec<(u8, u8)>) -> (r: Vec<(u8, u8)>)
    ensures
        r@ == v@,
{
    let mut r: Vec<(u8, u8)> = Vec::new();
    let mut i: usize = 0;
    while i < v.len()
        invariant
            0 <= i <= v.len(),
            r@ == v@.take(i as int),
        decreases v.len() - i,
    {
        r.push(v[i]);
        proof {
            assert(v@.take(i + 1 as int) =~= v@.take(i as int).push(v@[i as int]));
        }
        i += 1;
    }
    proof {
        assert(v@.take(v@.len() as int) =~= v@);
    }
    r
}

fn clone_tok(t: &SegTok) -> (r: SegTok)
    ensures
        r.deep_view() == t.deep_view(),
{
    match t {
        SegTok::Lit(b) => SegTok::Lit(*b),
        SegTok::AnyChar => SegTok::AnyChar,
        SegTok::Star => SegTok::Star,
        SegTok::Class { neg, ranges } => SegTok::Class { neg: *neg, ranges: clone_ranges(ranges) },
    }
}

fn clone_toks(v: &Vec<SegTok>) -> (r: Vec<SegTok>)
    ensures
        r.deep_view() == v.deep_view(),
{
    let mut r: Vec<SegTok> = Vec::new();
    let mut i: usize = 0;
    while i < v.len()
        invariant
            0 <= i <= v.len(),
            r.deep_view() == v.deep_view().take(i as int),
        decreases v.len() - i,
    {
        let t = clone_tok(&v[i]);
        let ghost prev = r.deep_view();
        let ghost tdv = t.deep_view();
        r.push(t);
        proof {
            assert(r.deep_view() =~= prev.push(tdv));
            assert(v.deep_view()[i as int] == v@[i as int].deep_view());
            assert(v.deep_view().take(i + 1 as int) =~= prev.push(tdv));
        }
        i += 1;
    }
    proof {
        assert(v.deep_view().take(v@.len() as int) =~= v.deep_view());
    }
    r
}

fn clone_segment(s: &Segment) -> (r: Segment)
    ensures
        r.deep_view() == s.deep_view(),
{
    match s {
        Segment::Globstar => Segment::Globstar,
        Segment::Plain(toks) => Segment::Plain(clone_toks(toks)),
    }
}

/// Copies a compiled pattern; the copy denotes the same pattern.
pub fn clone_pattern(p: &Pattern) -> (r: Pattern)
    ensures
        r.deep_view() == p.deep_view(),
{
    let mut segments: Vec<Segment> = Vec::new();
    let mut i: usize = 0;
    while i < p.segments.len()
        invariant
            0 <= i <= p.segments.len(),
            segments.deep_view() == p.segments.deep_view().take(i as int),
        decreases p.segments.len() - i,
    {
        let t = clone_segment(&p.segments[i]);
        let ghost prev = segments.deep_view();
        let ghost tdv = t.deep_view();
        segments.push(t);
        proof {
            assert(segments.deep_view() =~= prev.push(tdv));
            assert(p.segments.deep_view()[i as int] == p.segments@[i as int].deep_view());
            assert(p.segments.deep_view().take(i + 1 as int) =~= prev.push(tdv));
        }
        i += 1;
    }
    proof {
        assert(p.segments.deep_view().take(p.segments@.len() as int) =~= p.segments.deep_view());
    }
    Pattern {
        segments,
        whitelist: p.whitelist,
        anchored: p.anchored,
        dir_only: p.dir_only,
    }
}

/// Copies a list of compiled patterns; the copy denotes the same list.
pub fn clone_patterns(v: &Vec<Pattern>) -> (r: Vec<Pattern>)
    ensures
        r.deep_view() == v.deep_view(),
{
    let mut r: Vec<Pattern> = Vec::new();
    let mut i: usize = 0;
    while i < v.len()
        invariant
            0 <= i <= v.len(),
            r.deep_view() == v.deep_view().take(i as int),
        decreases v.len() - i,
    {
        let t = clone_pattern(&v[i]);
        let ghost prev = r.deep_view();
        let ghost tdv = t.deep_view();
        r.push(t);
        proof {
            assert(r.deep_view() =~= prev.push(tdv));
            assert(v.deep_view()[i as int] == v@[i as int].deep_view());
            assert(v.deep_view().take(i + 1 as int) =~= prev.push(tdv));
        }
        i += 1;
    }
    proof {
        assert(v.deep_view().take(v@.len() as int) =~= v.deep_view());
    }
    r
}

/// Compiles one glob line.  A blank line or a comment compiles to
/// nothing; an unbalanced character class is the malformed-glob error;
/// anything else compiles to a pattern whose flags and segments are
/// exactly those the line's markers describe.
pub fn compile(line: &Vec<u8>) -> (r: Result<Option<Pattern>, Error>)
    ensures
        match spec_compile(line@) {
            LineOutcome::Skip => r matches Ok(o) && o is None,
            LineOutcome::Bad => r matches Err(e) && e matches Error::InvalidPattern { glob } && glob@
                == line@,
            LineOutcome::Pat(g) => r matches Ok(o) && o matches Some(p) && p.deep_view() == g,
        },
{
    let e = trim_end_exec(line);
    if e == 0 {
        return Ok(Option::None);
    }
    if line[0] == B_HASH {
        return Ok(Option::None);
    }
    let wl = line[0] == B_BANG;
    let lo0: usize = if wl {
        1
    } else {
        0
    };
    let anch = lo0 < e && line[lo0] == B_SLASH;
    let lo: usize = if anch {
        lo0 + 1
    } else {
        lo0
    };
    let dir = lo < e && line[e - 1] == B_SLASH;
    let hi: usize = if dir {
        e - 1
    } else {
        e
    };
    match parse_segments(line, lo, hi) {
        Option::Some(segments) => Ok(
            Option::Some(Pattern { segments, whitelist: wl, anchored: anch, dir_only: dir }),
        ),
        Option::None => Err(Error::InvalidPattern { glob: clone_bytes(line) }),
    }
}

} // verus!
