use git_analyzer::aggregate::{Aggregator, FinalStats};
use git_analyzer::error::AnalyzeError;
use git_analyzer::pipeline::{Action, Event, Pipeline};
use git_analyzer::scoring::{
    bearer_header, classify_status, identity_or_unknown, validate_credential, ANALYZE_ENDPOINT,
};

fn found(email: &str, name: &str) -> Event {
    Event::CommitFound { email: email.to_string(), name: name.to_string() }
}

fn scored(performance: i64, maintainability: i64) -> Event {
    Event::Scored { performance, maintainability }
}

fn run(commits: &[(&str, &str, i64, i64)]) -> FinalStats {
    let mut p = Pipeline::new();
    assert_eq!(p.next_action(), Action::FetchNextCommit);
    for (email, name, perf, maint) in commits {
        assert_eq!(p.step(found(email, name)), Action::ScoreCommit);
        assert_eq!(p.step(scored(*perf, *maint)), Action::FetchNextCommit);
    }
    assert_eq!(p.step(Event::HistoryExhausted), Action::Report);
    assert!(p.is_finished());
    p.finish().ok().unwrap()
}

fn find(f: &FinalStats, email: &str) -> (String, i128, i128, usize) {
    for i in 0..f.len() {
        let s = f.get(i);
        if s.email == email {
            return (s.name.clone(), s.performance.rounded(), s.maintainability.rounded(), s.performance.count());
        }
    }
    panic!("no summary for {}", email)
}

#[test]
fn empty_history_finalizes_to_nothing() {
    let f = run(&[]);
    assert_eq!(f.len(), 0);
    let a = Aggregator::new();
    assert_eq!(a.len(), 0);
    assert_eq!(a.finalize().ok().unwrap().len(), 0);
}

const HUNDREDTH: u64 = 10_000;

#[test]
fn single_root_commit() {
    let f = run(&[("alice@x.com", "Alice", 8_000_000, 7_000_000)]);
    assert_eq!(f.len(), 1);
    let s = f.get(0);
    assert_eq!(s.name, "Alice");
    assert_eq!(s.email, "alice@x.com");
    assert_eq!(s.performance.rounded_by(HUNDREDTH), 800);
    assert_eq!(s.maintainability.rounded_by(HUNDREDTH), 700);
}

#[test]
fn two_commits_same_committer() {
    let f = run(&[("bob@x.com", "Bob", 5_000_000, 5_000_000), ("bob@x.com", "Bob", 7_000_000, 9_000_000)]);
    assert_eq!(f.len(), 1);
    let s = f.get(0);
    assert_eq!(s.name, "Bob");
    assert_eq!(s.performance.count(), 2);
    assert_eq!(s.performance.total(), 12_000_000);
    assert_eq!(s.maintainability.total(), 14_000_000);
    assert_eq!(s.performance.rounded_by(HUNDREDTH), 600);
    assert_eq!(s.maintainability.rounded_by(HUNDREDTH), 700);
}

#[test]
fn mean_is_rounded_once() {
    let f = run(&[("r@x.com", "R", 1_006_000, 1_004_000), ("r@x.com", "R", 1_004_000, 1_004_900)]);
    let s = f.get(0);
    assert_eq!(s.performance.rounded(), 1_005_000);
    assert_eq!(s.performance.rounded_by(HUNDREDTH), 101);
    assert_eq!(s.maintainability.rounded_by(HUNDREDTH), 100);
    assert_eq!(s.performance.rounded_by(1_000), 1005);
}

#[test]
fn authentication_failure_aborts_run() {
    let mut p = Pipeline::new();
    assert_eq!(p.step(found("a@x.com", "A")), Action::ScoreCommit);
    assert_eq!(p.step(scored(500, 500)), Action::FetchNextCommit);
    assert_eq!(p.step(found("a@x.com", "A")), Action::ScoreCommit);
    let err = classify_status(401).unwrap_err();
    assert_eq!(err, AnalyzeError::Authentication);
    assert_eq!(p.step(Event::StageFailed(err)), Action::Abort(AnalyzeError::Authentication));
    assert!(p.is_finished());
    // nothing after the failure moves the run on
    assert_eq!(p.step(Event::HistoryExhausted), Action::Abort(AnalyzeError::Authentication));
    assert_eq!(p.step(scored(1, 1)), Action::Abort(AnalyzeError::Authentication));
    assert_eq!(p.next_action(), Action::Abort(AnalyzeError::Authentication));
}

#[test]
fn missing_credential_is_configuration_error() {
    assert_eq!(validate_credential(None).unwrap_err(), AnalyzeError::Configuration);
    assert_eq!(validate_credential(Some(String::new())).unwrap_err(), AnalyzeError::Configuration);
    assert_eq!(validate_credential(Some("k-1".to_string())).unwrap(), "k-1");
}

#[test]
fn mean_does_not_depend_on_order() {
    let a = run(&[("e@x.com", "E", 100, 300), ("f@x.com", "F", 1, 1), ("e@x.com", "E", 250, 50), ("e@x.com", "E", 1000, 0)]);
    let b = run(&[("e@x.com", "E", 1000, 0), ("e@x.com", "E", 100, 300), ("f@x.com", "F", 1, 1), ("e@x.com", "E", 250, 50)]);
    assert_eq!(find(&a, "e@x.com"), ("E".to_string(), 450, 117, 3));
    assert_eq!(find(&a, "e@x.com"), find(&b, "e@x.com"));
    assert_eq!(find(&a, "f@x.com"), find(&b, "f@x.com"));
}

#[test]
fn same_history_twice_gives_same_result() {
    let commits = [("a@x.com", "A", 730, 410), ("b@x.com", "B", 90, 990), ("a@x.com", "A", 15, 20)];
    let first = run(&commits);
    let second = run(&commits);
    assert_eq!(first.len(), second.len());
    for email in ["a@x.com", "b@x.com"] {
        assert_eq!(find(&first, email), find(&second, email));
    }
}

#[test]
fn first_name_is_kept() {
    let f = run(&[("c@x.com", "Carol", 100, 100), ("c@x.com", "Carol Smith", 300, 300)]);
    assert_eq!(find(&f, "c@x.com"), ("Carol".to_string(), 200, 200, 2));
}

#[test]
fn aggregator_records_directly() {
    let mut a = Aggregator::new();
    a.record("x@x.com".to_string(), "X".to_string(), -150, 0);
    a.record("y@x.com".to_string(), "Y".to_string(), 10, 20);
    a.record("x@x.com".to_string(), "Other".to_string(), -150, 3);
    assert_eq!(a.len(), 2);
    let f = a.finalize().ok().unwrap();
    assert_eq!(find(&f, "x@x.com"), ("X".to_string(), -150, 2, 2));
    assert_eq!(find(&f, "y@x.com"), ("Y".to_string(), 10, 20, 1));
}

#[test]
fn rounding_halves_away_from_zero() {
    let f = run(&[("h@x.com", "H", 1, -1), ("h@x.com", "H", 2, -2)]);
    assert_eq!(find(&f, "h@x.com"), ("H".to_string(), 2, -2, 2));
    let g = run(&[("m@x.com", "M", i64::MAX, i64::MIN), ("m@x.com", "M", i64::MAX, i64::MIN)]);
    let (_, p, q, n) = find(&g, "m@x.com");
    assert_eq!((p, q, n), (i64::MAX as i128, i64::MIN as i128, 2));
}

#[test]
fn unexpected_events_leave_stage_unchanged() {
    let mut p = Pipeline::new();
    assert_eq!(p.step(scored(1, 2)), Action::FetchNextCommit);
    assert_eq!(p.step(found("a@x.com", "A")), Action::ScoreCommit);
    assert_eq!(p.step(found("b@x.com", "B")), Action::ScoreCommit);
    assert_eq!(p.step(Event::HistoryExhausted), Action::ScoreCommit);
    assert_eq!(p.step(scored(300, 400)), Action::FetchNextCommit);
    assert_eq!(p.step(Event::HistoryExhausted), Action::Report);
    assert_eq!(p.step(Event::StageFailed(AnalyzeError::Transport)), Action::Report);
    let f = p.finish().ok().unwrap();
    assert_eq!(find(&f, "a@x.com"), ("A".to_string(), 300, 400, 1));
}

#[test]
fn walk_failure_aborts() {
    let mut p = Pipeline::new();
    assert_eq!(
        p.step(Event::StageFailed(AnalyzeError::RepositoryAccess)),
        Action::Abort(AnalyzeError::RepositoryAccess)
    );
    assert!(p.is_finished());
}

#[test]
fn status_classes() {
    assert_eq!(classify_status(200), Ok(()));
    assert_eq!(classify_status(299), Ok(()));
    assert_eq!(classify_status(401), Err(AnalyzeError::Authentication));
    assert_eq!(classify_status(403), Err(AnalyzeError::RemoteService));
    assert_eq!(classify_status(500), Err(AnalyzeError::RemoteService));
    assert_eq!(classify_status(404), Err(AnalyzeError::RemoteService));
    assert_eq!(classify_status(302), Err(AnalyzeError::RemoteService));
}

#[test]
fn header_and_identity() {
    assert_eq!(bearer_header("abc"), "Bearer abc");
    assert_eq!(bearer_header(""), "Bearer ");
    assert_eq!(identity_or_unknown(None), "unknown");
    assert_eq!(identity_or_unknown(Some("dev@x.com".to_string())), "dev@x.com");
    assert!(ANALYZE_ENDPOINT.starts_with("https://"));
}

#[test]
fn error_stage_names() {
    assert_eq!(AnalyzeError::Configuration.stage(), "configuration error");
    assert_eq!(AnalyzeError::Authentication.stage(), "authentication error");
    assert_eq!(AnalyzeError::RemoteService.stage(), "remote service error");
    assert_eq!(AnalyzeError::Transport.stage(), "transport error");
    assert_eq!(AnalyzeError::RepositoryAccess.stage(), "repository access error");
    assert_eq!(AnalyzeError::DiffComputation.stage(), "diff computation error");
    assert_eq!(AnalyzeError::EmptySeries.stage(), "empty score series");
}
