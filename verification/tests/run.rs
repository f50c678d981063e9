use waseda_moodle_checker::error::ErrorKind;
use waseda_moodle_checker::run::{Resource, Run};
use waseda_moodle_checker::snapshot::Status;

fn resource(id: u64, name: &str) -> Resource {
    Resource { id, name: name.to_string(), view_url: format!("http://x/{}", id) }
}

fn finished(statuses: &[Status]) -> Run {
    let mut enrolled = Vec::new();
    for (at, _) in statuses.iter().enumerate() {
        enrolled.push(resource(at as u64 + 1, &format!("Course {}", at + 1)));
    }
    let mut run = Run::new(enrolled, Vec::new());
    for status in statuses {
        run = run.record(Ok(*status));
    }
    run
}

#[test]
fn enrolled_resources_come_before_hidden_ones() {
    let mut run = Run::new(
        vec![resource(1, "Algebra"), resource(2, "Logic")],
        vec![resource(9, "Hidden")],
    );
    assert_eq!(run.total(), 3);
    let mut seen = Vec::new();
    while let Some(current) = run.current() {
        seen.push(current.id);
        run = run.record(Ok(Status::NoUpdates));
    }
    assert_eq!(seen, vec![1, 2, 9]);
    assert_eq!(run.checked_so_far(), 3);
    assert!(run.failure().is_none());
}

#[test]
fn a_run_without_resources_is_finished_at_once() {
    let run = Run::new(Vec::new(), Vec::new());
    assert!(run.current().is_none());
    assert_eq!(run.report(true), Some(Vec::new()));
    assert_eq!(run.report(false), Some(Vec::new()));
}

#[test]
fn there_is_no_report_before_the_end() {
    let run = Run::new(vec![resource(1, "Algebra"), resource(2, "Logic")], Vec::new());
    assert!(run.report(true).is_none());
    let run = run.record(Ok(Status::Updated));
    assert!(run.report(true).is_none());
    assert!(run.report(false).is_none());
    let run = run.record(Ok(Status::Updated));
    assert!(run.report(true).is_some());
}

#[test]
fn a_fault_ends_the_run_and_discards_what_was_found() {
    let run = Run::new(
        vec![resource(1, "Algebra"), resource(2, "Logic"), resource(3, "Sets")],
        Vec::new(),
    );
    let run = run.record(Ok(Status::Updated));
    let run = run.record(Err(ErrorKind::NetworkError));
    assert_eq!(run.failure(), Some(ErrorKind::NetworkError));
    assert!(run.current().is_none());
    assert!(run.report(true).is_none());
    assert!(run.report(false).is_none());
    let run = run.record(Ok(Status::Updated));
    let run = run.record(Err(ErrorKind::IoError));
    assert_eq!(run.failure(), Some(ErrorKind::NetworkError));
    assert_eq!(run.checked_so_far(), 1);
    assert!(run.report(true).is_none());
}

#[test]
fn what_is_recorded_after_the_end_is_dropped() {
    let run = finished(&[Status::Updated]);
    let run = run.record(Ok(Status::FirstFetched));
    let run = run.record(Err(ErrorKind::IoError));
    assert_eq!(run.checked_so_far(), 1);
    assert!(run.failure().is_none());
    assert_eq!(run.report(true), Some(vec!["Updated http://x/1 Course 1".to_string()]));
}

#[test]
fn the_machine_readable_report_has_a_line_for_each_resource() {
    let run = finished(&[
        Status::NoUpdates,
        Status::Updated,
        Status::FirstFetched,
        Status::Updated,
        Status::FirstFetched,
    ]);
    assert_eq!(
        run.report(true),
        Some(vec![
            "FirstFetched http://x/3 Course 3".to_string(),
            "FirstFetched http://x/5 Course 5".to_string(),
            "Updated http://x/2 Course 2".to_string(),
            "Updated http://x/4 Course 4".to_string(),
            "NoUpdates http://x/1 Course 1".to_string(),
        ])
    );
}

#[test]
fn the_report_for_people_lists_first_fetched_and_updated_resources() {
    let run = finished(&[
        Status::NoUpdates,
        Status::Updated,
        Status::FirstFetched,
        Status::Updated,
    ]);
    assert_eq!(
        run.report(false),
        Some(vec![
            "First fetched:".to_string(),
            "\tCourse 3 - http://x/3".to_string(),
            "".to_string(),
            "Updated:".to_string(),
            "\tCourse 2 - http://x/2".to_string(),
            "\tCourse 4 - http://x/4".to_string(),
        ])
    );
}

#[test]
fn the_report_for_people_leaves_out_empty_sections() {
    let run = finished(&[Status::FirstFetched, Status::NoUpdates]);
    assert_eq!(
        run.report(false),
        Some(vec!["First fetched:".to_string(), "\tCourse 1 - http://x/1".to_string()])
    );
    let run = finished(&[Status::NoUpdates, Status::Updated]);
    assert_eq!(
        run.report(false),
        Some(vec!["".to_string(), "Updated:".to_string(), "\tCourse 2 - http://x/2".to_string()])
    );
}

#[test]
fn the_report_for_people_is_silent_without_news() {
    let run = finished(&[Status::NoUpdates, Status::NoUpdates]);
    assert_eq!(run.report(false), Some(Vec::new()));
    assert_eq!(
        run.report(true),
        Some(vec![
            "NoUpdates http://x/1 Course 1".to_string(),
            "NoUpdates http://x/2 Course 2".to_string(),
        ])
    );
}
