use ranch::conflict::{decide, Decision, EntryKind, Policy};
use ranch::deploy::{classify, Run, Step};
use ranch::error::EngineError;
use ranch::layout::{Layout, PlannedLink};
use ranch::path::{join, same_path, starts_with, strip_prefix};
use ranch::remove::{count_removed, left_in_place, removals, Found};

fn p(parts: &[&str]) -> Vec<String> {
    parts.iter().map(|s| s.to_string()).collect()
}

fn layout() -> Layout {
    Layout::resolve(p(&["r", ".dotfiles"]), "home".to_string(), None).unwrap()
}

fn link(src: &[&str], dst: &[&str]) -> PlannedLink {
    PlannedLink { source: p(src), destination: p(dst) }
}

#[test]
fn path_helpers() {
    assert!(starts_with(&p(&["a", "b", "c"]), &p(&["a", "b"])));
    assert!(!starts_with(&p(&["a", "b"]), &p(&["a", "b", "c"])));
    assert!(!starts_with(&p(&["a", "x", "c"]), &p(&["a", "b"])));
    assert_eq!(strip_prefix(&p(&["a", "b", "c"]), &p(&["a"])), Some(p(&["b", "c"])));
    assert_eq!(strip_prefix(&p(&["a", "b"]), &p(&["b"])), None);
    assert_eq!(join(&p(&["t"]), &p(&["x", "y"])), p(&["t", "x", "y"]));
    assert!(same_path(&p(&["a", "b"]), &p(&["a", "b"])));
    assert!(!same_path(&p(&["a", "b"]), &p(&["a"])));
}

#[test]
fn resolve_defaults_target_to_parent() {
    let l = layout();
    assert_eq!(l.source_prefix, p(&["r", ".dotfiles", "home"]));
    assert_eq!(l.target, p(&["r"]));
    assert_eq!(l.package, "home");
}

#[test]
fn resolve_explicit_target() {
    let l = Layout::resolve(Vec::new(), "home".to_string(), Some(p(&["t"]))).unwrap();
    assert_eq!(l.target, p(&["t"]));
    assert_eq!(l.source_prefix, p(&["home"]));
}

#[test]
fn resolve_root_has_no_parent() {
    let r = Layout::resolve(Vec::new(), "home".to_string(), None);
    assert!(matches!(r, Err(EngineError::Configuration)));
}

#[test]
fn plan_keeps_nesting() {
    let l = layout();
    let planned = l.plan(&p(&["r", ".dotfiles", "home", ".config", "nvim", "init.vim"])).unwrap();
    assert_eq!(planned.destination, p(&["r", ".config", "nvim", "init.vim"]));
    assert_eq!(planned.source, p(&["r", ".dotfiles", "home", ".config", "nvim", "init.vim"]));
}

#[test]
fn plan_rejects_entry_outside_package() {
    let l = layout();
    assert!(l.plan(&p(&["r", ".dotfiles", "work", ".vimrc"])).is_none());
    assert!(l.plan(&p(&["elsewhere", ".vimrc"])).is_none());
}

#[test]
fn conflict_table() {
    let all = [Policy::Stop, Policy::Ignore, Policy::Overwrite, Policy::Adopt, Policy::Rollback];
    for policy in all {
        assert_eq!(decide(policy, EntryKind::Missing), Decision::Link);
    }
    for kind in [EntryKind::File, EntryKind::Symlink] {
        assert_eq!(decide(Policy::Stop, kind), Decision::Abort);
        assert_eq!(decide(Policy::Ignore, kind), Decision::Skip);
        assert_eq!(decide(Policy::Overwrite, kind), Decision::Replace);
        assert_eq!(decide(Policy::Adopt, kind), Decision::Adopt);
        assert_eq!(decide(Policy::Rollback, kind), Decision::Undo);
    }
    assert_eq!(decide(Policy::Stop, EntryKind::Linked), Decision::Abort);
    assert_eq!(decide(Policy::Ignore, EntryKind::Linked), Decision::Skip);
    assert_eq!(decide(Policy::Overwrite, EntryKind::Linked), Decision::InPlace);
    assert_eq!(decide(Policy::Adopt, EntryKind::Linked), Decision::InPlace);
    assert_eq!(decide(Policy::Rollback, EntryKind::Linked), Decision::Undo);
    assert_eq!(decide(Policy::Overwrite, EntryKind::Directory), Decision::Abort);
    assert_eq!(decide(Policy::Ignore, EntryKind::Directory), Decision::Abort);
    assert_eq!(decide(Policy::Rollback, EntryKind::Directory), Decision::Undo);
}

#[test]
fn single_file_is_linked() {
    let l = layout();
    let planned = l.plan(&p(&["r", ".dotfiles", "home", ".vimrc"])).unwrap();
    assert_eq!(planned.destination, p(&["r", ".vimrc"]));
    let mut run = Run::new(Policy::Stop, false);
    assert!(matches!(run.step(&planned, EntryKind::Missing), Step::Create));
    run.confirm(planned);
    let report = run.report();
    assert_eq!(report.created, 1);
    assert_eq!(report.skipped, 0);
    assert_eq!(run.session.len(), 1);
}

#[test]
fn existing_file_is_skipped_under_ignore() {
    let l = layout();
    let planned = l.plan(&p(&["r", ".dotfiles", "home", ".vimrc"])).unwrap();
    let mut run = Run::new(Policy::Ignore, false);
    assert!(matches!(run.step(&planned, EntryKind::File), Step::Skip));
    let report = run.report();
    assert_eq!(report.created, 0);
    assert_eq!(report.skipped, 1);
    assert!(run.session.is_empty());
}

#[test]
fn stop_keeps_links_made() {
    let mut run = Run::new(Policy::Stop, false);
    let a = link(&["s", "a"], &["t", "a"]);
    assert!(matches!(run.step(&a, EntryKind::Missing), Step::Create));
    run.confirm(a);
    let b = link(&["s", "b"], &["t", "b"]);
    match run.step(&b, EntryKind::File) {
        Step::Abort { error, undo } => {
            assert_eq!(error, EngineError::Conflict);
            assert!(undo.is_empty());
        }
        _ => panic!("expected the run to stop"),
    }
    assert_eq!(run.session.len(), 1);
}

#[test]
fn rollback_undoes_in_reverse() {
    let mut run = Run::new(Policy::Rollback, false);
    let a = link(&["s", "a"], &["t", "a"]);
    let b = link(&["s", "b"], &["t", "b"]);
    assert!(matches!(run.step(&a, EntryKind::Missing), Step::Create));
    run.confirm(a);
    assert!(matches!(run.step(&b, EntryKind::Missing), Step::Create));
    run.confirm(b);
    let c = link(&["s", "c"], &["t", "c"]);
    match run.step(&c, EntryKind::Symlink) {
        Step::Abort { error, undo } => {
            assert_eq!(error, EngineError::Conflict);
            assert_eq!(undo.len(), 2);
            assert_eq!(undo[0].destination, p(&["t", "b"]));
            assert_eq!(undo[1].destination, p(&["t", "a"]));
        }
        _ => panic!("expected a rollback"),
    }
    assert!(run.session.is_empty());
}

#[test]
fn rollback_on_directory_conflict() {
    let mut run = Run::new(Policy::Rollback, false);
    let a = link(&["s", "a"], &["t", "a"]);
    run.step(&a, EntryKind::Missing);
    run.confirm(a);
    let d = link(&["s", "d"], &["t", "d"]);
    match run.step(&d, EntryKind::Directory) {
        Step::Abort { error, undo } => {
            assert_eq!(error, EngineError::Conflict);
            assert_eq!(undo.len(), 1);
        }
        _ => panic!("expected a rollback"),
    }
}

#[test]
fn directory_conflict_aborts_overwrite() {
    let mut run = Run::new(Policy::Overwrite, false);
    let d = link(&["s", "d"], &["t", "d"]);
    match run.step(&d, EntryKind::Directory) {
        Step::Abort { error, undo } => {
            assert_eq!(error, EngineError::Conflict);
            assert!(undo.is_empty());
        }
        _ => panic!("expected an abort"),
    }
}

#[test]
fn overwrite_and_adopt_replace() {
    let mut run = Run::new(Policy::Overwrite, false);
    let a = link(&["s", "a"], &["t", "a"]);
    assert!(matches!(run.step(&a, EntryKind::Symlink), Step::Replace));
    let mut adopt = Run::new(Policy::Adopt, false);
    assert!(matches!(adopt.step(&a, EntryKind::File), Step::Adopt));
}

#[test]
fn dry_run_counts_but_records_nothing() {
    let mut run = Run::new(Policy::Overwrite, true);
    let a = link(&["s", "a"], &["t", "a"]);
    let b = link(&["s", "b"], &["t", "b"]);
    assert!(matches!(run.step(&a, EntryKind::Missing), Step::Create));
    run.confirm(a);
    assert!(matches!(run.step(&b, EntryKind::File), Step::Replace));
    assert_eq!(run.report().created, 2);
    assert!(run.session.is_empty());
}

#[test]
fn link_failure_aborts() {
    let mut run = Run::new(Policy::Ignore, false);
    let a = link(&["s", "a"], &["t", "a"]);
    run.step(&a, EntryKind::Missing);
    run.confirm(a);
    match run.link_failed() {
        Step::Abort { error, undo } => {
            assert_eq!(error, EngineError::LinkCreation);
            assert!(undo.is_empty());
        }
        _ => panic!("expected an abort"),
    }
    let mut rb = Run::new(Policy::Rollback, false);
    let b = link(&["s", "b"], &["t", "b"]);
    rb.step(&b, EntryKind::Missing);
    rb.confirm(b);
    match rb.link_failed() {
        Step::Abort { error, undo } => {
            assert_eq!(error, EngineError::LinkCreation);
            assert_eq!(undo.len(), 1);
        }
        _ => panic!("expected a rollback"),
    }
}

#[test]
fn warnings_are_counted() {
    let mut run = Run::new(Policy::Stop, false);
    run.warn();
    run.warn();
    assert_eq!(run.report().warnings, 2);
}

#[test]
fn removal_takes_only_package_links() {
    let l = layout();
    let found = vec![
        Found {
            path: p(&["r", ".vimrc"]),
            kind: EntryKind::Symlink,
            points_to: p(&["r", ".dotfiles", "home", ".vimrc"]),
        },
        Found { path: p(&["r", ".zshrc"]), kind: EntryKind::File, points_to: Vec::new() },
        Found { path: p(&["r", ".config"]), kind: EntryKind::Directory, points_to: Vec::new() },
        Found {
            path: p(&["r", ".bashrc"]),
            kind: EntryKind::Symlink,
            points_to: p(&["r", ".dotfiles", "work", ".bashrc"]),
        },
        Found {
            path: p(&["r", "moved"]),
            kind: EntryKind::Symlink,
            points_to: p(&["r", ".dotfiles", "home", ".tmux.conf"]),
        },
        Found {
            path: p(&["r", ".config", "nvim", "init.vim"]),
            kind: EntryKind::Symlink,
            points_to: p(&["r", ".dotfiles", "home", ".config", "nvim", "init.vim"]),
        },
    ];
    let marks = removals(&l, &found);
    assert_eq!(marks, vec![true, false, false, false, false, true]);
    assert_eq!(count_removed(&marks), 2);
}

#[test]
fn removal_count() {
    assert_eq!(count_removed(&Vec::new()), 0);
    assert_eq!(count_removed(&vec![false, false]), 0);
    assert_eq!(count_removed(&vec![true, false, true, true]), 3);
}

#[test]
fn classify_tells_own_link_apart() {
    let a = link(&["s", "a"], &["t", "a"]);
    assert_eq!(classify(&a, EntryKind::Symlink, &p(&["s", "a"])), EntryKind::Linked);
    assert_eq!(classify(&a, EntryKind::Symlink, &p(&["s", "b"])), EntryKind::Symlink);
    assert_eq!(classify(&a, EntryKind::File, &Vec::new()), EntryKind::File);
    assert_eq!(classify(&a, EntryKind::Missing, &Vec::new()), EntryKind::Missing);
    assert_eq!(classify(&a, EntryKind::Directory, &Vec::new()), EntryKind::Directory);
}

#[test]
fn second_overwrite_run_is_idle() {
    let l = layout();
    let planned = l.plan(&p(&["r", ".dotfiles", "home", ".vimrc"])).unwrap();
    let mut first = Run::new(Policy::Overwrite, false);
    assert!(matches!(first.step(&planned, EntryKind::Missing), Step::Create));
    first.confirm(planned.clone());
    let kind = classify(&planned, EntryKind::Symlink, &p(&["r", ".dotfiles", "home", ".vimrc"]));
    let mut second = Run::new(Policy::Overwrite, false);
    assert!(matches!(second.step(&planned, kind), Step::InPlace));
    let report = second.report();
    assert_eq!(report.created, 0);
    assert_eq!(report.skipped, 0);
    assert!(second.session.is_empty());
}

#[test]
fn matching_link_is_a_conflict_under_stop_ignore_rollback() {
    let a = link(&["s", "a"], &["t", "a"]);
    let mut stop = Run::new(Policy::Stop, false);
    match stop.step(&a, EntryKind::Linked) {
        Step::Abort { error, undo } => {
            assert_eq!(error, EngineError::Conflict);
            assert!(undo.is_empty());
        }
        _ => panic!("expected the run to stop"),
    }
    let mut ignore = Run::new(Policy::Ignore, false);
    assert!(matches!(ignore.step(&a, EntryKind::Linked), Step::Skip));
    assert_eq!(ignore.report().skipped, 1);
    let mut rb = Run::new(Policy::Rollback, false);
    let b = link(&["s", "b"], &["t", "b"]);
    rb.step(&b, EntryKind::Missing);
    rb.confirm(b);
    match rb.step(&a, EntryKind::Linked) {
        Step::Abort { error, undo } => {
            assert_eq!(error, EngineError::Conflict);
            assert_eq!(undo.len(), 1);
        }
        _ => panic!("expected a rollback"),
    }
    let mut adopt = Run::new(Policy::Adopt, false);
    assert!(matches!(adopt.step(&a, EntryKind::Linked), Step::InPlace));
}

#[test]
fn non_links_at_package_paths_are_reported() {
    let planned = vec![link(&["s", "a"], &["t", "a"]), link(&["s", "d"], &["t", "d"])];
    let found = vec![
        Found { path: p(&["t", "a"]), kind: EntryKind::File, points_to: Vec::new() },
        Found { path: p(&["t", "d"]), kind: EntryKind::Symlink, points_to: p(&["s", "d"]) },
        Found { path: p(&["t", "x"]), kind: EntryKind::File, points_to: Vec::new() },
        Found { path: p(&["t", "d"]), kind: EntryKind::Directory, points_to: Vec::new() },
    ];
    assert_eq!(left_in_place(&planned, &found), vec![true, false, false, true]);
    assert_eq!(left_in_place(&Vec::new(), &found), vec![false, false, false, false]);
}
