use target_sweep::{
    classify_children, scan_for_target_dirs, Action, Child, ChildKind, CutoffDecision, Event,
    Scanner,
};

fn b(s: &str) -> Vec<u8> {
    s.as_bytes().to_vec()
}

fn child(dir: &str, name: &str, kind: ChildKind) -> Child {
    Child { name: b(name), path: b(&format!("{}/{}", dir, name)), kind }
}

fn project(dir: &str) -> Vec<Child> {
    vec![
        child(dir, "src", ChildKind::Dir),
        child(dir, "Cargo.toml", ChildKind::Other),
        child(dir, "target", ChildKind::Dir),
    ]
}

fn listed(s: &mut Scanner, children: Vec<Child>) -> Action {
    s.step(Event::Listed(children))
}

fn resolved(s: &mut Scanner, p: &str) -> Action {
    s.step(Event::Resolved(Some(b(p))))
}

fn reclaim(target: &str, size: u64, text: &str, delete: bool) -> Action {
    Action::Reclaim { target: b(target), size, size_text: text.to_string(), delete }
}

fn done(total: u64, text: &str) -> Action {
    Action::Done { total, total_text: text.to_string() }
}

#[test]
fn classifies_a_project() {
    let c = classify_children(&project("/p"));
    assert!(c.is_project);
    assert_eq!(c.candidates, vec![b("/p/src"), b("/p/target")]);
}

#[test]
fn manifest_alone_is_no_project() {
    let c = classify_children(&vec![
        child("/p", "Cargo.toml", ChildKind::Other),
        child("/p", "targets", ChildKind::Dir),
        child("/p", "link", ChildKind::SymlinkToDir),
        child("/p", "broken", ChildKind::Other),
    ]);
    assert!(!c.is_project);
    assert_eq!(c.candidates, vec![b("/p/targets"), b("/p/link")]);
}

#[test]
fn tree_without_projects_reclaims_nothing() {
    let (mut s, a) = scan_for_target_dirs(b("/r"), Some(50), true);
    assert_eq!(a, Action::List(b("/r")));
    let a = listed(&mut s, vec![child("/r", "a", ChildKind::Dir), child("/r", "b", ChildKind::Dir)]);
    assert_eq!(a, Action::Resolve(b("/r/a")));
    assert_eq!(resolved(&mut s, "/r/a"), Action::List(b("/r/a")));
    let a = listed(&mut s, vec![child("/r/a", "Cargo.toml", ChildKind::Other)]);
    assert_eq!(a, Action::Resolve(b("/r/b")));
    assert_eq!(resolved(&mut s, "/r/b"), Action::List(b("/r/b")));
    assert_eq!(listed(&mut s, vec![child("/r/b", "target", ChildKind::Dir)]), Action::Resolve(b("/r/b/target")));
    assert_eq!(resolved(&mut s, "/r/b/target"), Action::List(b("/r/b/target")));
    assert_eq!(listed(&mut s, vec![]), done(0, "0 B"));
    assert_eq!(s.total(), 0);
    assert!(s.is_finished());
}

#[test]
fn old_build_output_is_deleted() {
    let (mut s, _) = scan_for_target_dirs(b("/p"), Some(50), true);
    assert_eq!(
        listed(&mut s, project("/p")),
        Action::Evaluate { target: b("/p/target"), cutoff: 50 }
    );
    let a = s.step(Event::Decided(CutoffDecision::Eligible(1_000_000)));
    assert_eq!(a, reclaim("/p/target", 1_000_000, "1 MB", true));
    assert_eq!(s.step(Event::Acknowledged), done(1_000_000, "1 MB"));
}

#[test]
fn dry_run_reports_the_same_size() {
    for _ in 0..2 {
        let (mut s, _) = scan_for_target_dirs(b("/p/"), Some(50), false);
        assert_eq!(
            listed(&mut s, project("/p")),
            Action::Evaluate { target: b("/p/target"), cutoff: 50 }
        );
        let a = s.step(Event::Decided(CutoffDecision::Eligible(1_500)));
        assert_eq!(a, reclaim("/p/target", 1_500, "1.50 kB", false));
        assert_eq!(s.step(Event::Acknowledged), done(1_500, "1.50 kB"));
    }
}

#[test]
fn recent_build_output_is_kept() {
    let (mut s, _) = scan_for_target_dirs(b("/p"), Some(50), true);
    listed(&mut s, project("/p"));
    assert_eq!(s.step(Event::Decided(CutoffDecision::NotEligible)), done(0, "0 B"));
}

#[test]
fn without_cutoff_build_output_is_measured() {
    let (mut s, _) = scan_for_target_dirs(b("/p"), None, true);
    assert_eq!(listed(&mut s, project("/p")), Action::Measure(b("/p/target")));
    assert_eq!(s.step(Event::Decided(CutoffDecision::Eligible(10))), reclaim("/p/target", 10, "10 B", true));
    assert_eq!(s.step(Event::Acknowledged), done(10, "10 B"));
}

#[test]
fn cycle_to_root_is_reported_and_skipped() {
    let (mut s, _) = scan_for_target_dirs(b("/r"), Some(50), true);
    listed(&mut s, vec![child("/r", "a", ChildKind::Dir)]);
    assert_eq!(resolved(&mut s, "/r/a"), Action::List(b("/r/a")));
    assert_eq!(
        listed(&mut s, vec![child("/r/a", "up", ChildKind::SymlinkToDir)]),
        Action::Resolve(b("/r/a/up"))
    );
    assert_eq!(resolved(&mut s, "/r"), Action::Cycle(vec![b("/r"), b("/r/a"), b("/r")]));
    assert_eq!(s.step(Event::Acknowledged), done(0, "0 B"));
}

#[test]
fn self_link_is_a_cycle() {
    let (mut s, _) = scan_for_target_dirs(b("/r"), Some(50), true);
    listed(&mut s, vec![child("/r", "a", ChildKind::Dir)]);
    resolved(&mut s, "/r/a");
    listed(&mut s, vec![child("/r/a", "me", ChildKind::SymlinkToDir)]);
    assert_eq!(resolved(&mut s, "/r/a"), Action::Cycle(vec![b("/r/a"), b("/r/a")]));
}

#[test]
fn two_links_to_one_directory_are_both_entered() {
    let (mut s, _) = scan_for_target_dirs(b("/r"), Some(50), true);
    listed(&mut s, vec![
        child("/r", "l1", ChildKind::SymlinkToDir),
        child("/r", "l2", ChildKind::SymlinkToDir),
    ]);
    assert_eq!(resolved(&mut s, "/real"), Action::List(b("/r/l1")));
    assert_eq!(listed(&mut s, project("/r/l1")), Action::Evaluate { target: b("/r/l1/target"), cutoff: 50 });
    assert_eq!(s.step(Event::Decided(CutoffDecision::Eligible(100))), reclaim("/r/l1/target", 100, "100 B", true));
    assert_eq!(s.step(Event::Acknowledged), Action::Resolve(b("/r/l2")));
    assert_eq!(resolved(&mut s, "/real"), Action::List(b("/r/l2")));
    listed(&mut s, project("/r/l2"));
    assert_eq!(s.step(Event::Decided(CutoffDecision::Eligible(200))), reclaim("/r/l2/target", 200, "200 B", true));
    assert_eq!(s.step(Event::Acknowledged), done(300, "300 B"));
}

#[test]
fn nested_project_is_not_visited() {
    let (mut s, _) = scan_for_target_dirs(b("/outer"), None, true);
    let mut children = project("/outer");
    children.push(child("/outer", "inner", ChildKind::Dir));
    assert_eq!(listed(&mut s, children), Action::Measure(b("/outer/target")));
    assert_eq!(s.step(Event::Decided(CutoffDecision::Eligible(5))), reclaim("/outer/target", 5, "5 B", true));
    assert_eq!(s.step(Event::Acknowledged), done(5, "5 B"));
}

#[test]
fn unresolvable_candidate_is_skipped() {
    let (mut s, _) = scan_for_target_dirs(b("/r"), Some(50), true);
    listed(&mut s, vec![child("/r", "gone", ChildKind::Dir)]);
    assert_eq!(s.step(Event::Resolved(None)), done(0, "0 B"));
}

#[test]
fn unfitting_event_is_ignored() {
    let (mut s, _) = scan_for_target_dirs(b("/r"), Some(50), true);
    assert_eq!(s.step(Event::Acknowledged), Action::Ignored);
    assert_eq!(s.step(Event::Decided(CutoffDecision::Eligible(1))), Action::Ignored);
    assert_eq!(s.step(Event::Resolved(None)), Action::Ignored);
    assert_eq!(listed(&mut s, vec![]), done(0, "0 B"));
    assert_eq!(listed(&mut s, vec![]), Action::Ignored);
}

#[test]
fn totals_saturate() {
    let (mut s, _) = scan_for_target_dirs(b("/r"), None, false);
    listed(&mut s, vec![child("/r", "a", ChildKind::Dir), child("/r", "b", ChildKind::Dir)]);
    resolved(&mut s, "/r/a");
    listed(&mut s, project("/r/a"));
    s.step(Event::Decided(CutoffDecision::Eligible(u64::MAX)));
    s.step(Event::Acknowledged);
    resolved(&mut s, "/r/b");
    listed(&mut s, project("/r/b"));
    s.step(Event::Decided(CutoffDecision::Eligible(7)));
    assert_eq!(s.total(), u64::MAX);
}
