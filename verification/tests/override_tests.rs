use ignore::overrides::{OverrideBuilder, Verdict};

fn seg(parts: &[&str]) -> Vec<Vec<u8>> {
    parts.iter().map(|p| p.as_bytes().to_vec()).collect()
}

#[test]
fn last_match_wins_negation() {
    let mut b = OverrideBuilder::new(b"".to_vec());
    b.add(&b"a/*".to_vec()).unwrap();
    b.add(&b"!a/keep.txt".to_vec()).unwrap();
    let ov = b.build().unwrap();
    assert_eq!(ov.matched(&seg(&["a", "keep.txt"]), false), Verdict::Whitelisted);
    assert_eq!(ov.matched(&seg(&["a", "drop.txt"]), false), Verdict::Ignored);
}

#[test]
fn matched_is_deterministic() {
    let mut b = OverrideBuilder::new(b"".to_vec());
    b.add(&b"*.rs".to_vec()).unwrap();
    b.add(&b"!lib.rs".to_vec()).unwrap();
    let ov = b.build().unwrap();
    let p = seg(&["src", "main.rs"]);
    let first = ov.matched(&p, false);
    for _ in 0..10 {
        assert_eq!(ov.matched(&p, false), first);
    }
    assert_eq!(first, Verdict::Ignored);
}

#[test]
fn no_match_is_unspecified() {
    let mut b = OverrideBuilder::new(b"".to_vec());
    b.add(&b"*.rs".to_vec()).unwrap();
    let ov = b.build().unwrap();
    assert_eq!(ov.matched(&seg(&["readme.md"]), false), Verdict::Unspecified);
}

#[test]
fn empty_set_has_no_opinion() {
    let b = OverrideBuilder::new(b"".to_vec());
    let ov = b.build().unwrap();
    assert!(ov.is_empty());
    assert_eq!(ov.matched(&seg(&["anything"]), false), Verdict::Unspecified);
}

#[test]
fn unbalanced_bracket_is_invalid_pattern() {
    let mut b = OverrideBuilder::new(b"".to_vec());
    let e = b.add(&b"[abc".to_vec()).unwrap_err();
    assert!(e.is_invalid_pattern());
    // the builder is unchanged and still usable
    b.add(&b"ok.txt".to_vec()).unwrap();
    let ov = b.build().unwrap();
    assert_eq!(ov.matched(&seg(&["ok.txt"]), false), Verdict::Ignored);
}

#[test]
fn comments_and_blanks_add_nothing() {
    let mut b = OverrideBuilder::new(b"".to_vec());
    b.add(&b"# just a comment".to_vec()).unwrap();
    b.add(&b"".to_vec()).unwrap();
    b.add(&b"   ".to_vec()).unwrap();
    let ov = b.build().unwrap();
    assert!(ov.is_empty());
}

#[test]
fn question_mark_and_classes() {
    let mut b = OverrideBuilder::new(b"".to_vec());
    b.add(&b"a?.txt".to_vec()).unwrap();
    let ov = b.build().unwrap();
    assert_eq!(ov.matched(&seg(&["ab.txt"]), false), Verdict::Ignored);
    assert_eq!(ov.matched(&seg(&["abc.txt"]), false), Verdict::Unspecified);

    let mut b2 = OverrideBuilder::new(b"".to_vec());
    b2.add(&b"[a-c].log".to_vec()).unwrap();
    let ov2 = b2.build().unwrap();
    assert_eq!(ov2.matched(&seg(&["b.log"]), false), Verdict::Ignored);
    assert_eq!(ov2.matched(&seg(&["d.log"]), false), Verdict::Unspecified);

    let mut b3 = OverrideBuilder::new(b"".to_vec());
    b3.add(&b"[!a].log".to_vec()).unwrap();
    let ov3 = b3.build().unwrap();
    assert_eq!(ov3.matched(&seg(&["b.log"]), false), Verdict::Ignored);
    assert_eq!(ov3.matched(&seg(&["a.log"]), false), Verdict::Unspecified);
}

#[test]
fn globstar_spans_segments() {
    let mut b = OverrideBuilder::new(b"".to_vec());
    b.add(&b"/a/**/b".to_vec()).unwrap();
    let ov = b.build().unwrap();
    assert_eq!(ov.matched(&seg(&["a", "b"]), false), Verdict::Ignored);
    assert_eq!(ov.matched(&seg(&["a", "x", "b"]), false), Verdict::Ignored);
    assert_eq!(ov.matched(&seg(&["a", "x", "y", "b"]), false), Verdict::Ignored);
    assert_eq!(ov.matched(&seg(&["c", "b"]), false), Verdict::Unspecified);
}

#[test]
fn anchored_matches_only_at_root() {
    let mut b = OverrideBuilder::new(b"".to_vec());
    b.add(&b"/top.txt".to_vec()).unwrap();
    let ov = b.build().unwrap();
    assert_eq!(ov.matched(&seg(&["top.txt"]), false), Verdict::Ignored);
    assert_eq!(ov.matched(&seg(&["sub", "top.txt"]), false), Verdict::Unspecified);
}

#[test]
fn unanchored_matches_anywhere_below() {
    let mut b = OverrideBuilder::new(b"".to_vec());
    b.add(&b"top.txt".to_vec()).unwrap();
    let ov = b.build().unwrap();
    assert_eq!(ov.matched(&seg(&["top.txt"]), false), Verdict::Ignored);
    assert_eq!(ov.matched(&seg(&["sub", "top.txt"]), false), Verdict::Ignored);
}

#[test]
fn dir_only_pattern_needs_directory() {
    let mut b = OverrideBuilder::new(b"".to_vec());
    b.add(&b"build/".to_vec()).unwrap();
    let ov = b.build().unwrap();
    assert_eq!(ov.matched(&seg(&["build"]), true), Verdict::Ignored);
    assert_eq!(ov.matched(&seg(&["build"]), false), Verdict::Unspecified);
}

#[test]
fn escaped_hash_is_a_pattern() {
    let mut b = OverrideBuilder::new(b"".to_vec());
    b.add(&b"\\#notes".to_vec()).unwrap();
    let ov = b.build().unwrap();
    assert_eq!(ov.matched(&seg(&["#notes"]), false), Verdict::Ignored);
}

#[test]
fn trailing_spaces_are_trimmed_unless_escaped() {
    let mut b = OverrideBuilder::new(b"".to_vec());
    b.add(&b"a.txt   ".to_vec()).unwrap();
    let ov = b.build().unwrap();
    assert_eq!(ov.matched(&seg(&["a.txt"]), false), Verdict::Ignored);

    let mut b2 = OverrideBuilder::new(b"".to_vec());
    b2.add(&b"b\\ ".to_vec()).unwrap();
    let ov2 = b2.build().unwrap();
    assert_eq!(ov2.matched(&seg(&["b "]), false), Verdict::Ignored);
    assert_eq!(ov2.matched(&seg(&["b"]), false), Verdict::Unspecified);
}

#[test]
fn star_does_not_cross_slash() {
    let mut b = OverrideBuilder::new(b"".to_vec());
    b.add(&b"/a*".to_vec()).unwrap();
    let ov = b.build().unwrap();
    assert_eq!(ov.matched(&seg(&["abc"]), false), Verdict::Ignored);
    assert_eq!(ov.matched(&seg(&["abc", "d"]), false), Verdict::Unspecified);
}
