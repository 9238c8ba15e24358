use triage::consumer::DeleteOutcome;
use triage::consumer::apply_outcomes;
use triage::consumer::ext_key;
use triage::consumer::extension_of;
use triage::consumer::remover_plan;
use triage::consumer::reporter_survivors;
use triage::consumer::should_remove;
use triage::fs_tree::Match;

fn m(components: &[&str]) -> Match {
    Match { path: components.iter().map(|s| s.to_string()).collect() }
}

#[test]
fn extension_after_final_dot() {
    assert_eq!(extension_of("archive.zip"), Some("zip".to_string()));
    assert_eq!(extension_of("a.b.c"), Some("c".to_string()));
}

#[test]
fn extension_absent_without_dot() {
    assert_eq!(extension_of("noext"), None);
    assert_eq!(extension_of(""), None);
}

#[test]
fn leading_dot_is_not_an_extension() {
    assert_eq!(extension_of(".gitignore"), None);
    assert_eq!(extension_of("..two"), Some("two".to_string()));
}

#[test]
fn trailing_dot_gives_empty_extension() {
    assert_eq!(extension_of("file."), Some("".to_string()));
}

#[test]
fn key_is_extension_of_last_component() {
    assert_eq!(ext_key(&m(&["/a", "b", "big2.zip"])), "zip".to_string());
    assert_eq!(ext_key(&m(&["/a", "plain"])), "".to_string());
    assert_eq!(ext_key(&m(&[])), "".to_string());
}

#[test]
fn no_allow_list_removes_everything() {
    assert!(should_remove(&m(&["/a", "x.bin"]), &None));
    assert!(should_remove(&m(&["/a", "plain"]), &None));
}

#[test]
fn allow_list_filters_by_extension() {
    let allow = Some(vec!["zip".to_string(), "tar".to_string()]);
    assert!(should_remove(&m(&["/a", "x.zip"]), &allow));
    assert!(should_remove(&m(&["/a", "y.tar"]), &allow));
    assert!(!should_remove(&m(&["/a", "z.log"]), &allow));
    assert!(!should_remove(&m(&["/a", "plain"]), &allow));
}

#[test]
fn empty_allow_list_removes_nothing() {
    let allow: Option<Vec<String>> = Some(vec![]);
    assert!(!should_remove(&m(&["/a", "x.zip"]), &allow));
    assert!(!should_remove(&m(&["/a", "plain"]), &allow));
}

#[test]
fn missing_extension_compares_as_empty() {
    let allow: Option<Vec<String>> = Some(vec!["".to_string()]);
    assert!(should_remove(&m(&["/a", "plain"]), &allow));
    assert!(!should_remove(&m(&["/a", "x.zip"]), &allow));
}

#[test]
fn plan_keeps_only_allowed_matches() {
    let matches = vec![
        m(&["/a", "one.zip"]),
        m(&["/a", "two.log"]),
        m(&["/a", "three.tar"]),
        m(&["/a", "plain"]),
    ];
    let allow = Some(vec!["zip".to_string(), "tar".to_string()]);
    let plan = remover_plan(&matches, &allow);
    let got: Vec<Vec<String>> = plan.iter().map(|x| x.path.clone()).collect();
    assert_eq!(
        got,
        vec![
            vec!["/a".to_string(), "one.zip".to_string()],
            vec!["/a".to_string(), "three.tar".to_string()],
        ]
    );
}

#[test]
fn scenario_remover_deletes_only_zip() {
    // threshold 10 MB over /a: big.log (15 MB) and b/big2.zip (20 MB) match;
    // the remover with allow-list ["zip"] plans only b/big2.zip
    let matches = vec![m(&["/a", "big.log"]), m(&["/a", "b", "big2.zip"])];
    let allow = Some(vec!["zip".to_string()]);
    let plan = remover_plan(&matches, &allow);
    let got: Vec<Vec<String>> = plan.iter().map(|x| x.path.clone()).collect();
    assert_eq!(
        got,
        vec![vec!["/a".to_string(), "b".to_string(), "big2.zip".to_string()]]
    );
}

#[test]
fn one_failure_never_stops_the_rest() {
    // the middle deletion fails (the file vanished between discovery and
    // deletion); the items after it are still processed and accounted for
    let outcomes = vec![
        DeleteOutcome::Deleted,
        DeleteOutcome::Failed,
        DeleteOutcome::Deleted,
        DeleteOutcome::Deleted,
    ];
    let report = apply_outcomes(&outcomes);
    assert_eq!(report.deleted, 3);
    assert_eq!(report.failed, 1);
    assert_eq!(report.deleted + report.failed, outcomes.len());
}

#[test]
fn vanished_files_are_skipped_silently() {
    let matches = vec![m(&["/a", "one.log"]), m(&["/a", "gone.log"]), m(&["/a", "two.log"])];
    let sizes = vec![Some(11_000_000), None, Some(12_000_000)];
    let lines = reporter_survivors(&matches, &sizes);
    assert_eq!(lines.len(), 2);
    assert_eq!(lines[0].0.path, vec!["/a".to_string(), "one.log".to_string()]);
    assert_eq!(lines[0].1, 11_000_000);
    assert_eq!(lines[1].0.path, vec!["/a".to_string(), "two.log".to_string()]);
    assert_eq!(lines[1].1, 12_000_000);
}
