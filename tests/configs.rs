use attackr::configs::activity::{ActivityKind, Script};
use attackr::configs::event::{cmp_period, default_name, is_available};
use attackr::configs::user::SessionConfig;
use attackr::fsext::CopyOptions;

#[test]
fn defaults() {
    assert_eq!(attackr::configs::challenge::default_expiry(), Some(30 * 60 * 1000));
    assert_eq!(attackr::configs::challenge::default_challenge_root(), "challenges");
    assert_eq!(attackr::configs::challenge::default_artifact_root(), "artifacts");
    assert_eq!(attackr::configs::user::default_expiry(), 12 * 60 * 60);
    assert_eq!(SessionConfig::default().expiry, 12 * 60 * 60);
    assert_eq!(default_name(), "attackr");
}

#[test]
fn activity_function_names() {
    assert_eq!(ActivityKind::Solved.function_name(), "solved");
    let script = Script { path: "a.koto".to_string(), kinds: vec![ActivityKind::Solved] };
    assert!(script.subscribes(ActivityKind::Solved));
    assert!(!Script { path: "b.koto".to_string(), kinds: vec![] }.subscribes(ActivityKind::Solved));
}

#[test]
fn copy_options_builders() {
    let o = CopyOptions::new();
    assert!(o.follow_symlink && !o.erase && !o.overwrite && !o.copy_inside);
    let o = o.follow_symlink(false).erase(true).overwrite(true).copy_inside(true);
    assert!(!o.follow_symlink && o.erase && o.overwrite && o.copy_inside);
    assert_eq!(CopyOptions::default(), CopyOptions::new());
}

#[test]
fn event_period() {
    assert_eq!(cmp_period(5, Some(10), Some(20)), -1);
    assert_eq!(cmp_period(25, Some(10), Some(20)), 1);
    assert_eq!(cmp_period(15, Some(10), Some(20)), 0);
    assert_eq!(cmp_period(15, None, None), 0);
    assert!(!is_available(false, 5, Some(10), None));
    assert!(is_available(true, 5, Some(10), None));
    assert!(is_available(false, 30, Some(10), Some(20)));
}
