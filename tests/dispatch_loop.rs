use threaded::dispatch::{Action, Dispatcher, Event, LoopState};

fn submit_of(a: Action) -> (usize, String) {
    match a {
        Action::Submit(j) => (j.id, j.input),
        _ => panic!("expected a submission"),
    }
}

#[test]
fn lines_get_ids_in_arrival_order() {
    let mut d = Dispatcher::new();
    assert_eq!(submit_of(d.handle(Event::Line("300".to_string()))), (0, "300".to_string()));
    assert_eq!(submit_of(d.handle(Event::Line("200".to_string()))), (1, "200".to_string()));
    assert_eq!(submit_of(d.handle(Event::Line("100".to_string()))), (2, "100".to_string()));
    assert_eq!(d.next_id(), 3);
    assert!(d.state() == LoopState::Running);
}

#[test]
fn end_of_input_drains() {
    let mut d = Dispatcher::new();
    submit_of(d.handle(Event::Line("x".to_string())));
    assert!(matches!(d.handle(Event::Eof), Action::Drain));
    assert!(d.state() == LoopState::Draining);
    assert!(matches!(d.handle(Event::Line("late".to_string())), Action::Ignore));
    assert_eq!(d.next_id(), 1);
    assert!(matches!(d.handle(Event::Interrupt), Action::Ignore));
    assert!(d.state() == LoopState::Stopped);
}

#[test]
fn interrupt_skips_queued_lines() {
    // Two jobs in flight, an interrupt, then three more queued lines: none
    // of those is ever submitted.
    let mut d = Dispatcher::new();
    submit_of(d.handle(Event::Line("a".to_string())));
    submit_of(d.handle(Event::Line("b".to_string())));
    assert!(matches!(d.handle(Event::Interrupt), Action::Drain));
    assert!(d.state() == LoopState::Stopped);
    for s in ["c", "d", "e"] {
        assert!(matches!(d.handle(Event::Line(s.to_string())), Action::Ignore));
    }
    assert!(matches!(d.handle(Event::Eof), Action::Ignore));
    assert_eq!(d.next_id(), 2);
}

#[test]
fn empty_input_submits_nothing() {
    let mut d = Dispatcher::new();
    assert!(matches!(d.handle(Event::Eof), Action::Drain));
    assert_eq!(d.next_id(), 0);
}

#[test]
fn every_line_before_the_end_is_submitted_once() {
    let n = 50;
    let mut d = Dispatcher::new();
    let mut ids = Vec::new();
    for i in 0..n {
        let (id, input) = submit_of(d.handle(Event::Line(format!("line {}", i))));
        assert_eq!(input, format!("line {}", i));
        ids.push(id);
    }
    assert!(matches!(d.handle(Event::Eof), Action::Drain));
    assert_eq!(ids, (0..n).collect::<Vec<usize>>());
}
