use training_tracker::calendar::{elapsed_between_day_numbers, elapsed_days, CalendarDate};
use training_tracker::record::TrainingDetails;
use training_tracker::schedule::{
    decay_trainings, due_trainings, reduce_training_rest_days_remaining_by, sorted_by_rest_days,
    start_run, DBFile,
};
use training_tracker::selection::{apply_selection, resolve_selection, Selection};

fn rec(name: &str, rest: u8, default: u8, done: usize) -> TrainingDetails {
    TrainingDetails::new(name.to_string(), rest, default, done)
}

fn names(v: &[TrainingDetails]) -> Vec<String> {
    v.iter().map(|t| t.name.clone()).collect()
}

#[test]
fn single_record_due_then_completed() {
    let mut db = DBFile {
        last_run: CalendarDate::new(2024, 3, 1),
        trainings: vec![rec("Back", 0, 3, 2)],
    };
    let elapsed = start_run(&mut db, CalendarDate::new(2024, 3, 3));
    assert_eq!(elapsed, Some(2));
    assert_eq!(db.trainings[0].rest_days_remaining, 0);
    let sorted = sorted_by_rest_days(&db.trainings);
    assert_eq!(names(&due_trainings(&sorted)), vec!["Back".to_string()]);
    let sel = apply_selection(&"Back".to_string(), &mut db.trainings);
    assert!(matches!(sel, Selection::Resolved(0)));
    let t = &db.trainings[0];
    assert_eq!((t.rest_days_remaining, t.default_rest_days, t.done_count), (3, 3, 3));
}

#[test]
fn two_records_sorted_and_due() {
    let mut v = vec![rec("Chest", 5, 5, 0), rec("Abs", 2, 2, 0)];
    decay_trainings(3, &mut v);
    assert_eq!(v[0].rest_days_remaining, 2);
    assert_eq!(v[1].rest_days_remaining, 0);
    let sorted = sorted_by_rest_days(&v);
    assert_eq!(names(&sorted), vec!["Abs".to_string(), "Chest".to_string()]);
    assert_eq!(names(&due_trainings(&sorted)), vec!["Abs".to_string()]);
}

#[test]
fn empty_input_selects_nothing() {
    let mut v = vec![rec("Back", 0, 3, 2)];
    let sel = apply_selection(&String::new(), &mut v);
    assert!(matches!(sel, Selection::NoSelection));
    assert_eq!((v[0].rest_days_remaining, v[0].done_count), (0, 2));
}

#[test]
fn unknown_input_is_reported() {
    let mut v = vec![rec("Back", 0, 3, 2)];
    let sel = apply_selection(&"Legs".to_string(), &mut v);
    match sel {
        Selection::UnknownSelection(s) => assert_eq!(s, "Legs"),
        _ => panic!("expected an unknown selection"),
    }
    assert_eq!((v[0].rest_days_remaining, v[0].done_count), (0, 2));
}

#[test]
fn selection_is_case_sensitive_and_takes_first_match() {
    let v = vec![rec("Back", 1, 3, 0), rec("Legs", 2, 3, 0), rec("Legs", 0, 3, 0)];
    assert!(matches!(resolve_selection(&"back".to_string(), &v), Selection::UnknownSelection(_)));
    assert!(matches!(resolve_selection(&"Legs".to_string(), &v), Selection::Resolved(1)));
}

#[test]
fn decay_floors_at_zero() {
    let mut v = vec![rec("A", 7, 7, 0), rec("B", 2, 2, 0), rec("C", 255, 9, 0)];
    reduce_training_rest_days_remaining_by(3, &mut v);
    let rest: Vec<u8> = v.iter().map(|t| t.rest_days_remaining).collect();
    assert_eq!(rest, vec![4, 0, 252]);
    decay_trainings(1000, &mut v);
    assert!(v.iter().all(|t| t.rest_days_remaining == 0));
}

#[test]
fn decay_by_zero_changes_nothing() {
    let mut v = vec![rec("A", 7, 7, 1), rec("B", 0, 2, 4)];
    decay_trainings(0, &mut v);
    assert_eq!((v[0].rest_days_remaining, v[1].rest_days_remaining), (7, 0));
}

#[test]
fn sorting_is_stable() {
    let v = vec![rec("A", 3, 3, 0), rec("B", 1, 1, 0), rec("C", 3, 3, 0), rec("D", 1, 1, 0), rec("E", 0, 1, 0)];
    let sorted = sorted_by_rest_days(&v);
    assert_eq!(names(&sorted), vec!["E", "B", "D", "A", "C"]);
    assert_eq!(names(&due_trainings(&sorted)), vec!["E"]);
}

#[test]
fn completion_saturates_counter() {
    let mut t = rec("Back", 0, 4, usize::MAX);
    t.complete();
    assert_eq!((t.rest_days_remaining, t.done_count), (4, usize::MAX));
    let mut u = rec("Back", 1, 4, 9);
    u.complete();
    assert_eq!((u.rest_days_remaining, u.default_rest_days, u.done_count), (4, 4, 10));
}

#[test]
fn backward_clock_counts_no_days() {
    assert_eq!(elapsed_between_day_numbers(100, 90), 0);
    assert_eq!(elapsed_between_day_numbers(90, 100), 10);
    let later = CalendarDate::new(2024, 5, 10);
    let earlier = CalendarDate::new(2024, 5, 1);
    assert_eq!(elapsed_days(&later, &earlier), Some(0));
    let mut db = DBFile { last_run: later, trainings: vec![rec("A", 5, 5, 0)] };
    assert_eq!(start_run(&mut db, earlier), Some(0));
    assert_eq!(db.trainings[0].rest_days_remaining, 5);
}

#[test]
fn elapsed_days_across_years_and_leap_days() {
    let a = CalendarDate::new(2019, 12, 31);
    let b = CalendarDate::new(2020, 3, 1);
    assert_eq!(elapsed_days(&a, &b), Some(61));
    assert_eq!(CalendarDate::new(2019, 12, 31).julian_day(), Some(2_458_849));
}

#[test]
fn invalid_dates_are_refused() {
    let ok = CalendarDate::new(2023, 1, 1);
    assert_eq!(elapsed_days(&ok, &CalendarDate::new(2023, 2, 29)), None);
    assert_eq!(elapsed_days(&CalendarDate::new(2023, 13, 1), &ok), None);
    assert_eq!(elapsed_days(&ok, &CalendarDate::new(2024, 2, 29)), Some(424));
    let mut db = DBFile { last_run: CalendarDate::new(2023, 4, 31), trainings: vec![rec("A", 5, 5, 0)] };
    assert_eq!(start_run(&mut db, ok), None);
    assert_eq!(db.trainings[0].rest_days_remaining, 5);
}
