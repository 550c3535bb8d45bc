use ignore::fsmodel::{FileKind, Fs};
use ignore::overrides::OverrideBuilder;
use ignore::walk::{Walk, WalkBuilder};
use ignore::Error;

/// Collects a walk into (path, depth) pairs for `Ok` items and error
/// descriptions for `Err` items.
fn collect(mut w: Walk) -> Vec<Result<(String, usize), String>> {
    let mut out = Vec::new();
    let mut guard = 0usize;
    loop {
        guard += 1;
        assert!(guard < 10_000, "walk did not terminate");
        match w.next() {
            None => break,
            Some(Ok(e)) => {
                let p = String::from_utf8(e.path().clone()).unwrap();
                out.push(Ok((p, e.depth())));
            }
            Some(Err(err)) => out.push(Err(describe(&err))),
        }
    }
    out
}

fn describe(e: &Error) -> String {
    if e.is_loop() {
        "loop".to_string()
    } else if e.is_not_found() {
        "notfound".to_string()
    } else if e.is_io() {
        "io".to_string()
    } else {
        "invalid".to_string()
    }
}

fn ok_paths(items: &[Result<(String, usize), String>]) -> Vec<String> {
    items
        .iter()
        .filter_map(|i| i.as_ref().ok().map(|(p, _)| p.clone()))
        .collect()
}

#[test]
fn dfs_order_and_idempotence() {
    let build = || {
        let mut fs = Fs::new(1);
        let b = fs.add_dir(0, b"b_dir".to_vec(), 1, 10);
        fs.add_file(b, b"z".to_vec(), Vec::new());
        fs.add_file(b, b"a".to_vec(), Vec::new());
        fs.add_file(0, b"a_file".to_vec(), Vec::new());
        Walk::new(fs, Vec::new())
    };
    let first = collect(build());
    let second = collect(build());
    assert_eq!(first, second);
    assert_eq!(
        ok_paths(&first),
        vec!["", "b_dir", "b_dir/z", "b_dir/a", "a_file"]
    );
}

#[test]
fn hidden_skipped_by_default() {
    let mk = |hidden: bool| {
        let mut fs = Fs::new(1);
        fs.add_file(0, b".secret".to_vec(), Vec::new());
        fs.add_file(0, b"open".to_vec(), Vec::new());
        let mut b = WalkBuilder::new(fs, Vec::new());
        b.hidden(hidden);
        b.build()
    };
    let with_default = collect(mk(true));
    assert_eq!(ok_paths(&with_default), vec!["", "open"]);
    let without = collect(mk(false));
    assert_eq!(ok_paths(&without), vec!["", ".secret", "open"]);
}

#[test]
fn gitignore_layer_applies() {
    let mut fs = Fs::new(1);
    fs.add_file(0, b".gitignore".to_vec(), b"*.log".to_vec());
    fs.add_file(0, b"a.log".to_vec(), Vec::new());
    fs.add_file(0, b"b.txt".to_vec(), Vec::new());
    let items = collect(Walk::new(fs, Vec::new()));
    assert_eq!(ok_paths(&items), vec!["", "b.txt"]);
}

#[test]
fn gitignore_negation_readmits() {
    let mut fs = Fs::new(1);
    fs.add_file(0, b".gitignore".to_vec(), b"a/*\n!a/keep.txt".to_vec());
    let a = fs.add_dir(0, b"a".to_vec(), 1, 11);
    fs.add_file(a, b"keep.txt".to_vec(), Vec::new());
    fs.add_file(a, b"drop.txt".to_vec(), Vec::new());
    let items = collect(Walk::new(fs, Vec::new()));
    assert_eq!(ok_paths(&items), vec!["", "a", "a/keep.txt"]);
}

#[test]
fn override_beats_deeper_gitignore() {
    let mk = |with_override: bool| {
        let mut fs = Fs::new(1);
        let d = fs.add_dir(0, b"d".to_vec(), 1, 12);
        fs.add_file(d, b".gitignore".to_vec(), b"*.txt".to_vec());
        fs.add_file(d, b"secrets.txt".to_vec(), Vec::new());
        fs.add_file(d, b"other.txt".to_vec(), Vec::new());
        let mut b = WalkBuilder::new(fs, Vec::new());
        if with_override {
            let mut ob = OverrideBuilder::new(Vec::new());
            ob.add(&b"!secrets.txt".to_vec()).unwrap();
            b.overrides(ob.build().unwrap());
        }
        b.build()
    };
    let plain = collect(mk(false));
    assert_eq!(ok_paths(&plain), vec!["", "d"]);
    let overridden = collect(mk(true));
    assert_eq!(ok_paths(&overridden), vec!["", "d", "d/secrets.txt"]);
}

#[test]
fn ignored_subtree_is_pruned_without_reading() {
    let mut fs = Fs::new(1);
    fs.add_file(0, b".gitignore".to_vec(), b"build/".to_vec());
    let b = fs.add_dir(0, b"build".to_vec(), 1, 13);
    let inner = fs.add_dir(b, b"deep".to_vec(), 1, 14);
    fs.add_file(inner, b"x".to_vec(), Vec::new());
    // the ignored directory is deliberately unreadable: touching it would
    // surface an io error, so a clean walk shows it was never opened
    fs.set_unreadable(b);
    fs.add_file(0, b"kept".to_vec(), Vec::new());
    let items = collect(Walk::new(fs, Vec::new()));
    assert!(items.iter().all(|i| i.is_ok()));
    assert_eq!(ok_paths(&items), vec!["", "kept"]);
}

#[test]
fn dir_only_pattern_keeps_file_of_same_name() {
    let mut fs = Fs::new(1);
    fs.add_file(0, b".gitignore".to_vec(), b"build/".to_vec());
    fs.add_file(0, b"build".to_vec(), Vec::new());
    let items = collect(Walk::new(fs, Vec::new()));
    assert_eq!(ok_paths(&items), vec!["", "build"]);
}

#[test]
fn max_depth_bounds_the_walk() {
    let mut fs = Fs::new(1);
    let a = fs.add_dir(0, b"a".to_vec(), 1, 15);
    let b = fs.add_dir(a, b"b".to_vec(), 1, 16);
    fs.add_file(b, b"c".to_vec(), Vec::new());
    let mut wb = WalkBuilder::new(fs, Vec::new());
    wb.max_depth(Some(1));
    let items = collect(wb.build());
    assert_eq!(ok_paths(&items), vec!["", "a"]);
    for it in &items {
        if let Ok((_, d)) = it {
            assert!(*d <= 1);
        }
    }
}

#[test]
fn max_depth_zero_yields_only_root() {
    let mut fs = Fs::new(1);
    fs.add_file(0, b"a".to_vec(), Vec::new());
    let mut wb = WalkBuilder::new(fs, Vec::new());
    wb.max_depth(Some(0));
    let items = collect(wb.build());
    assert_eq!(ok_paths(&items), vec![""]);
}

#[test]
fn same_file_system_stops_at_mount_point() {
    let mut fs = Fs::new(1);
    let mnt = fs.add_dir(0, b"mnt".to_vec(), 1, 17);
    fs.set_identity(mnt, 2, 17);
    fs.add_file(mnt, b"inside".to_vec(), Vec::new());
    fs.add_file(0, b"here".to_vec(), Vec::new());
    let mut wb = WalkBuilder::new(fs, Vec::new());
    wb.same_file_system(true);
    let items = collect(wb.build());
    assert_eq!(ok_paths(&items), vec!["", "mnt", "here"]);
}

#[test]
fn symlink_cycle_reports_loop_once() {
    let mut fs = Fs::new(1);
    fs.add_symlink(0, b"loop".to_vec(), Some(0));
    fs.add_file(0, b"plain".to_vec(), Vec::new());
    let mut wb = WalkBuilder::new(fs, Vec::new());
    wb.follow_links(true);
    let items = collect(wb.build());
    let loops: Vec<_> = items
        .iter()
        .filter(|i| matches!(i, Err(e) if e == "loop"))
        .collect();
    assert_eq!(loops.len(), 1);
    let yielded = ok_paths(&items);
    assert_eq!(
        yielded.iter().filter(|p| p.as_str() == "loop").count(),
        1
    );
    assert!(yielded.contains(&"plain".to_string()));
}

#[test]
fn unfollowed_symlink_is_a_leaf() {
    let mut fs = Fs::new(1);
    fs.add_symlink(0, b"loop".to_vec(), Some(0));
    let items = collect(Walk::new(fs, Vec::new()));
    assert_eq!(ok_paths(&items), vec!["", "loop"]);
    assert!(items.iter().all(|i| i.is_ok()));
}

#[test]
fn broken_symlink_is_not_found() {
    let mut fs = Fs::new(1);
    fs.add_symlink(0, b"dead".to_vec(), None);
    let mut wb = WalkBuilder::new(fs, Vec::new());
    wb.follow_links(true);
    let items = collect(wb.build());
    assert_eq!(items, vec![Ok(("".to_string(), 0)), Err("notfound".to_string())]);
}

#[test]
fn missing_root_is_not_found() {
    let fs = Fs::new(1);
    let items = collect(Walk::new(fs, b"no/such/dir".to_vec()));
    assert_eq!(items, vec![Err("notfound".to_string())]);
}

#[test]
fn require_git_disables_git_sources() {
    let mk = |require: bool, with_git: bool| {
        let mut fs = Fs::new(1);
        if with_git {
            fs.add_dir(0, b".git".to_vec(), 1, 18);
        }
        fs.add_file(0, b".gitignore".to_vec(), b"*.log".to_vec());
        fs.add_file(0, b"a.log".to_vec(), Vec::new());
        let mut b = WalkBuilder::new(fs, Vec::new());
        b.require_git(require);
        b.build()
    };
    // without a repository the gitignore is not honoured
    let no_repo = collect(mk(true, false));
    assert!(ok_paths(&no_repo).contains(&"a.log".to_string()));
    // with one it is
    let repo = collect(mk(true, true));
    assert!(!ok_paths(&repo).contains(&"a.log".to_string()));
    // and without the requirement it always is
    let lax = collect(mk(false, false));
    assert!(!ok_paths(&lax).contains(&"a.log".to_string()));
}

#[test]
fn git_exclude_file_applies() {
    let mk = |enabled: bool| {
        let mut fs = Fs::new(1);
        let git = fs.add_dir(0, b".git".to_vec(), 1, 19);
        let info = fs.add_dir(git, b"info".to_vec(), 1, 20);
        fs.add_file(info, b"exclude".to_vec(), b"*.tmp".to_vec());
        fs.add_file(0, b"x.tmp".to_vec(), Vec::new());
        fs.add_file(0, b"y.txt".to_vec(), Vec::new());
        let mut b = WalkBuilder::new(fs, Vec::new());
        b.git_exclude(enabled);
        b.build()
    };
    let on = collect(mk(true));
    assert_eq!(ok_paths(&on), vec!["", "y.txt"]);
    let off = collect(mk(false));
    assert_eq!(ok_paths(&off), vec!["", "x.tmp", "y.txt"]);
}

#[test]
fn global_gitignore_applies() {
    let mut fs = Fs::new(1);
    fs.add_file(0, b"x.bak".to_vec(), Vec::new());
    fs.add_file(0, b"y.txt".to_vec(), Vec::new());
    let mut b = WalkBuilder::new(fs, Vec::new());
    b.global_gitignore(b"*.bak".to_vec());
    let items = collect(b.build());
    assert_eq!(ok_paths(&items), vec!["", "y.txt"]);
}

#[test]
fn dot_ignore_file_and_toggle() {
    let mk = |enabled: bool| {
        let mut fs = Fs::new(1);
        fs.add_file(0, b".ignore".to_vec(), b"*.dat".to_vec());
        fs.add_file(0, b"a.dat".to_vec(), Vec::new());
        let mut b = WalkBuilder::new(fs, Vec::new());
        b.ignore(enabled);
        b.build()
    };
    assert!(!ok_paths(&collect(mk(true))).contains(&"a.dat".to_string()));
    assert!(ok_paths(&collect(mk(false))).contains(&"a.dat".to_string()));
}

#[test]
fn custom_ignore_filename() {
    let mut fs = Fs::new(1);
    fs.add_file(0, b".myignore".to_vec(), b"*.x".to_vec());
    fs.add_file(0, b"a.x".to_vec(), Vec::new());
    fs.add_file(0, b"a.y".to_vec(), Vec::new());
    let mut b = WalkBuilder::new(fs, Vec::new());
    b.add_custom_ignore_filename(b".myignore".to_vec());
    let items = collect(b.build());
    assert_eq!(ok_paths(&items), vec!["", "a.y"]);
}

#[test]
fn add_ignore_loads_extra_file() {
    let mut fs = Fs::new(1);
    fs.add_file(0, b"extra".to_vec(), b"*.foo".to_vec());
    fs.add_file(0, b"a.foo".to_vec(), Vec::new());
    fs.add_file(0, b"a.bar".to_vec(), Vec::new());
    let mut b = WalkBuilder::new(fs, Vec::new());
    assert!(b.add_ignore(b"extra".to_vec()).is_none());
    let items = collect(b.build());
    assert_eq!(ok_paths(&items), vec!["", "extra", "a.bar"]);
}

#[test]
fn add_ignore_reports_errors() {
    let mk = || {
        let mut fs = Fs::new(1);
        fs.add_file(0, b"partly".to_vec(), b"[abc\n*.foo".to_vec());
        fs.add_file(0, b"a.foo".to_vec(), Vec::new());
        fs
    };
    let mut b = WalkBuilder::new(mk(), Vec::new());
    let missing = b.add_ignore(b"absent".to_vec());
    assert!(missing.map(|e| e.is_not_found()).unwrap_or(false));
    let mut b2 = WalkBuilder::new(mk(), Vec::new());
    let bad = b2.add_ignore(b"partly".to_vec());
    assert!(bad.map(|e| e.is_invalid_pattern()).unwrap_or(false));
    // the well-formed line is still honoured
    let items = collect(b2.build());
    assert!(!ok_paths(&items).contains(&"a.foo".to_string()));
}

#[test]
fn walk_over_nested_root() {
    let mut fs = Fs::new(1);
    let a = fs.add_dir(0, b"a".to_vec(), 1, 21);
    let b = fs.add_dir(a, b"b".to_vec(), 1, 22);
    fs.add_file(b, b"f".to_vec(), Vec::new());
    let items = collect(Walk::new(fs, b"a/b".to_vec()));
    assert_eq!(ok_paths(&items), vec!["a/b", "a/b/f"]);
    assert_eq!(items[0], Ok(("a/b".to_string(), 0)));
    assert_eq!(items[1], Ok(("a/b/f".to_string(), 1)));
}

#[test]
fn parent_gitignore_applies_to_nested_root() {
    let mk = |parents: bool| {
        let mut fs = Fs::new(1);
        fs.add_file(0, b".gitignore".to_vec(), b"*.log".to_vec());
        let a = fs.add_dir(0, b"a".to_vec(), 1, 23);
        fs.add_file(a, b"x.log".to_vec(), Vec::new());
        fs.add_file(a, b"x.txt".to_vec(), Vec::new());
        let mut b = WalkBuilder::new(fs, b"a".to_vec());
        b.parents(parents);
        b.build()
    };
    assert_eq!(ok_paths(&collect(mk(true))), vec!["a", "a/x.txt"]);
    assert_eq!(ok_paths(&collect(mk(false))), vec!["a", "a/x.log", "a/x.txt"]);
}

#[test]
fn extra_roots_walked_in_order() {
    let mut fs = Fs::new(1);
    let r1 = fs.add_dir(0, b"r1".to_vec(), 1, 40);
    fs.add_file(r1, b"x".to_vec(), Vec::new());
    let r2 = fs.add_dir(0, b"r2".to_vec(), 1, 41);
    fs.add_file(r2, b"y".to_vec(), Vec::new());
    let mut b = WalkBuilder::new(fs, b"r1".to_vec());
    b.add(b"r2".to_vec());
    let items = collect(b.build());
    assert_eq!(ok_paths(&items), vec!["r1", "r1/x", "r2", "r2/y"]);
    assert_eq!(items[0], Ok(("r1".to_string(), 0)));
    assert_eq!(items[2], Ok(("r2".to_string(), 0)));
}

#[test]
fn extra_roots_use_their_own_layers() {
    let mut fs = Fs::new(1);
    let r1 = fs.add_dir(0, b"r1".to_vec(), 1, 42);
    fs.add_file(r1, b"a.log".to_vec(), Vec::new());
    let r2 = fs.add_dir(0, b"r2".to_vec(), 1, 43);
    fs.add_file(r2, b".gitignore".to_vec(), b"*.log".to_vec());
    fs.add_file(r2, b"b.log".to_vec(), Vec::new());
    let mut b = WalkBuilder::new(fs, b"r1".to_vec());
    b.add(b"r2".to_vec());
    let items = collect(b.build());
    // only the second root's gitignore applies to its own subtree
    assert_eq!(ok_paths(&items), vec!["r1", "r1/a.log", "r2"]);
}

#[test]
fn missing_extra_root_reports_and_walk_continues() {
    let mut fs = Fs::new(1);
    let r1 = fs.add_dir(0, b"r1".to_vec(), 1, 44);
    fs.add_file(r1, b"x".to_vec(), Vec::new());
    let mut b = WalkBuilder::new(fs, b"absent".to_vec());
    b.add(b"r1".to_vec());
    let items = collect(b.build());
    assert_eq!(
        items,
        vec![
            Err("notfound".to_string()),
            Ok(("r1".to_string(), 0)),
            Ok(("r1/x".to_string(), 1)),
        ]
    );
}

#[test]
fn unreadable_dir_reports_io_and_walk_continues() {
    let mut fs = Fs::new(1);
    let d = fs.add_dir(0, b"locked".to_vec(), 1, 30);
    fs.add_file(d, b"inside".to_vec(), Vec::new());
    fs.set_unreadable(d);
    fs.add_file(0, b"after".to_vec(), Vec::new());
    let items = collect(Walk::new(fs, Vec::new()));
    assert_eq!(
        items,
        vec![
            Ok(("".to_string(), 0)),
            Ok(("locked".to_string(), 1)),
            Err("io".to_string()),
            Ok(("after".to_string(), 1)),
        ]
    );
}

#[test]
fn file_kind_classification() {
    let mut fs = Fs::new(1);
    fs.add_dir(0, b"d".to_vec(), 1, 24);
    fs.add_file(0, b"f".to_vec(), Vec::new());
    fs.add_symlink(0, b"s".to_vec(), Some(0));
    let mut w = Walk::new(fs, Vec::new());
    let mut kinds = Vec::new();
    loop {
        match w.next() {
            None => break,
            Some(Ok(e)) => kinds.push((
                String::from_utf8(e.path().clone()).unwrap(),
                e.file_kind(),
            )),
            Some(Err(_)) => panic!("unexpected error"),
        }
    }
    assert!(kinds.contains(&("d".to_string(), FileKind::Directory)));
    assert!(kinds.contains(&("f".to_string(), FileKind::File)));
    assert!(kinds.contains(&("s".to_string(), FileKind::Symlink)));
}
