use threaded::registry::{first_error, JobRegistry};
use threaded::report::Outcome;

#[test]
fn add_and_remove_entries() {
    let mut r: JobRegistry<&str> = JobRegistry::new();
    assert_eq!(r.len(), 0);
    assert!(r.add(0, "zero"));
    assert!(r.add(1, "one"));
    assert!(!r.add(1, "again"));
    assert_eq!(r.len(), 2);
    assert!(r.contains(1));
    assert_eq!(r.handle(1), Some(&"one"));
    assert_eq!(r.remove(0), Some("zero"));
    assert_eq!(r.remove(0), None);
    assert!(!r.contains(0));
    assert_eq!(r.handle(0), None);
    assert_eq!(r.len(), 1);
}

#[test]
fn sweep_cancels_every_running_job_once() {
    let mut r: JobRegistry<u32> = JobRegistry::new();
    for id in [4usize, 2, 9] {
        assert!(r.add(id, 100 + id as u32));
    }
    assert!(!r.is_cancelled(2));
    let first = r.cancel_all();
    assert_eq!(first, vec![4, 2, 9]);
    assert!(r.is_cancelled(4) && r.is_cancelled(2) && r.is_cancelled(9));
    assert_eq!(r.handle(9), Some(&109));
    // A second interrupt finds nothing left to trigger.
    assert!(r.cancel_all().is_empty());
    // A job that starts after the sweep is the only one the next sweep sees.
    assert!(r.add(10, 110));
    assert_eq!(r.cancel_all(), vec![10]);
    assert_eq!(r.len(), 4);
}

#[test]
fn sweep_of_empty_table() {
    let mut r: JobRegistry<()> = JobRegistry::new();
    assert!(r.cancel_all().is_empty());
    assert!(!r.is_cancelled(0));
}

#[test]
fn finished_job_leaves_the_table_before_a_sweep() {
    let mut r: JobRegistry<u8> = JobRegistry::new();
    r.add(0, 0);
    r.add(1, 1);
    r.remove(0);
    assert_eq!(r.cancel_all(), vec![1]);
}

#[test]
fn first_error_wins() {
    let results: Vec<Result<(), &str>> = vec![Ok(()), Err("gone"), Ok(()), Err("denied")];
    assert_eq!(first_error(results), Err("gone"));
    assert_eq!(first_error(vec![Ok::<(), &str>(()), Ok(())]), Ok(()));
    assert_eq!(first_error(Vec::<Result<(), &str>>::new()), Ok(()));
    assert_eq!(first_error(vec![Err::<(), u8>(1)]), Err(1));
}

#[test]
fn conclude_removes_entry_and_decides_outcome() {
    let mut r: JobRegistry<u8> = JobRegistry::new();
    r.add(0, 0);
    r.add(1, 1);
    r.add(2, 2);
    assert!(matches!(r.conclude(0, Ok("done".to_string())), Outcome::Completed(v) if v == "done"));
    assert!(matches!(r.conclude(1, Err("bad".to_string())), Outcome::Failed(e) if e == "bad"));
    r.cancel_all();
    assert!(matches!(r.conclude(2, Err("interrupted".to_string())), Outcome::Cancelled));
    assert_eq!(r.len(), 0);
    // A job no longer in the table was not cancelled by any sweep.
    assert!(matches!(r.conclude(7, Err("late".to_string())), Outcome::Failed(_)));
}
