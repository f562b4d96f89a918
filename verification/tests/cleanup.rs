use media_cleanup::executor::{Action, CleanupExecutor, Outcome, Status};
use media_cleanup::resolve::build_plan;

fn plan() -> media_cleanup::resolve::RemovalPlan {
    build_plan(&"movie.mkv".to_string(), &"/lib/movie.mkv".to_string())
}

#[test]
fn dry_run_only_reports() {
    let mut ex = CleanupExecutor::new(plan(), true);
    let mut reported: Vec<String> = Vec::new();
    while let Some(action) = ex.next_action() {
        match action {
            Action::Report(path) => {
                reported.push(path);
                ex.record(Outcome::Removed);
            },
            Action::Remove(_) => panic!("dry run asked for a removal"),
        }
    }
    assert!(ex.done());
    assert_eq!(ex.status(), Status::Completed);
    assert_eq!(ex.failure_count(), 0);
    assert_eq!(reported.len(), 5);
    assert_eq!(reported[0].as_str(), "/lib/movie.mkv");
    assert_eq!(reported[4].as_str(), "/lib/movie.nfo");
}

#[test]
fn wet_run_asks_for_removals() {
    let mut ex = CleanupExecutor::new(plan(), false);
    let mut removed: Vec<String> = Vec::new();
    while let Some(action) = ex.next_action() {
        match action {
            Action::Remove(path) => {
                removed.push(path);
                ex.record(Outcome::Removed);
            },
            Action::Report(_) => panic!("wet run yielded a bare report"),
        }
    }
    assert_eq!(ex.status(), Status::Completed);
    assert_eq!(removed.len(), 5);
}

#[test]
fn one_failure_does_not_stop_the_rest() {
    let mut ex = CleanupExecutor::new(plan(), false);
    let mut attempted: Vec<String> = Vec::new();
    let mut step = 0usize;
    while let Some(action) = ex.next_action() {
        let path = match action {
            Action::Remove(p) => p,
            Action::Report(p) => p,
        };
        attempted.push(path);
        // the second target is unremovable; everything else succeeds
        if step == 1 {
            ex.record(Outcome::Failed);
        } else {
            ex.record(Outcome::Removed);
        }
        step += 1;
    }
    assert!(ex.done());
    assert_eq!(attempted.len(), 5);
    assert_eq!(ex.status(), Status::PartiallyFailed);
    assert_eq!(ex.failure_count(), 1);
    assert_eq!(ex.failure_at(0).as_str(), "/lib/movie-thumb.jpg");
}

#[test]
fn second_run_tolerates_missing_files() {
    // first run removes everything
    let mut first = CleanupExecutor::new(plan(), false);
    while first.next_action().is_some() {
        first.record(Outcome::Removed);
    }
    assert_eq!(first.status(), Status::Completed);
    // second run over the same plan finds nothing; it still visits every
    // target and ends in a terminal state
    let mut second = CleanupExecutor::new(plan(), false);
    let mut visited = 0usize;
    while second.next_action().is_some() {
        second.record(Outcome::Missing);
        visited += 1;
    }
    assert!(second.done());
    assert_eq!(visited, 5);
    assert_eq!(second.status(), Status::PartiallyFailed);
    assert_eq!(second.failure_count(), 5);
}
