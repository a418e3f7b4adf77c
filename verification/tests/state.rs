use cyberscope::state::{is_owned_run, runtime_root_ok, stale_entry, StaleEntry};

#[test]
fn startup_cleanup_removes_all_owned_run_directories_only() {
    assert_eq!(stale_entry(Some("run-old"), true), StaleEntry::Remove);
    assert_eq!(stale_entry(Some("keep-me"), true), StaleEntry::Keep);
    assert_eq!(stale_entry(None, true), StaleEntry::Keep);
}

#[test]
fn startup_cleanup_refuses_run_symlinks() {
    assert_eq!(stale_entry(Some("run-link"), false), StaleEntry::Refuse);
}

#[test]
fn rejects_a_symlink_as_the_predictable_runtime_root() {
    assert!(!runtime_root_ok(true, true, 1000, 1000));
    assert!(!runtime_root_ok(true, false, 0, 1000));
    assert!(runtime_root_ok(true, false, 1000, 1000));
    assert!(is_owned_run("run-abc"));
    assert!(!is_owned_run("ru"));
}
