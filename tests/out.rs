use web_scrape::{render_batch, Action, Event, OutThread, BUF_SIZE};

/// Feeds every line and then the close to a fresh aggregator; returns the
/// destination text, the number of completions, and whether the completion
/// was the last action.
fn drive(capacity: usize, lines: &[&str]) -> (String, usize, bool, Vec<usize>) {
    let mut out = OutThread::new(capacity);
    let mut text = String::new();
    let mut completions = 0;
    let mut last_was_complete = false;
    let mut batch_sizes = Vec::new();
    let mut events: Vec<Event> = lines.iter().map(|l| Event::Line(l.to_string())).collect();
    events.push(Event::Closed);
    for e in events {
        last_was_complete = false;
        match out.step(e) {
            Action::Idle => {}
            Action::Write(batch) => {
                batch_sizes.push(batch.len());
                text.push_str(&render_batch(&batch));
            }
            Action::Complete(batch) => {
                if let Some(batch) = batch {
                    batch_sizes.push(batch.len());
                    text.push_str(&render_batch(&batch));
                }
                completions += 1;
                last_was_complete = true;
            }
        }
    }
    (text, completions, last_was_complete, batch_sizes)
}

#[test]
fn out_vec_test() {
    let mut m = Vec::with_capacity(10);
    m.push(6);
    println!("{:?}", m);
    assert_eq!(m, vec![6]);
}

#[test]
fn out_test_data_output() {
    let lines = vec!["hello"; 33];
    let (contents, completions, last, _) = drive(BUF_SIZE, &lines);
    let mut expected = String::new();
    for _ in 0..33 {
        expected += "hello\n";
    }
    assert_eq!(expected, contents);
    assert_eq!(completions, 1);
    assert!(last);
}

#[test]
fn thirty_three_lines_with_capacity_sixteen() {
    let lines = vec!["hello"; 33];
    let (contents, completions, last, sizes) = drive(16, &lines);
    assert_eq!(contents, "hello\n".repeat(33));
    assert_eq!(contents.lines().count(), 33);
    assert!(contents.lines().all(|l| l == "hello"));
    assert_eq!(completions, 1);
    assert!(last);
    assert_eq!(sizes, vec![16, 16, 1]);
}

#[test]
fn every_line_written_once_in_order_for_capacity_one() {
    let (contents, completions, _, sizes) = drive(1, &["a", "b", "c"]);
    assert_eq!(contents, "a\nb\nc\n");
    assert_eq!(completions, 1);
    assert_eq!(sizes, vec![1, 1, 1]);
}

#[test]
fn exact_multiple_of_capacity() {
    let (contents, _, _, sizes) = drive(2, &["x", "y", "z", "w"]);
    assert_eq!(contents, "x\ny\nz\nw\n");
    assert_eq!(sizes, vec![2, 2]);
}

#[test]
fn run_without_lines_writes_nothing() {
    let (contents, completions, last, sizes) = drive(4, &[]);
    assert_eq!(contents, "");
    assert_eq!(completions, 1);
    assert!(last);
    assert!(sizes.is_empty());
}

#[test]
fn flush_of_empty_buffer_writes_nothing() {
    let mut out = OutThread::new(3);
    assert!(out.flush().is_none());
    assert!(out.flush().is_none());
    assert!(!out.is_closed());
}

#[test]
fn flush_hands_out_buffer_in_order() {
    let mut out = OutThread::new(3);
    assert!(matches!(out.step(Event::Line("one".to_string())), Action::Idle));
    assert!(matches!(out.step(Event::Line("two".to_string())), Action::Idle));
    assert_eq!(out.flush(), Some(vec!["one".to_string(), "two".to_string()]));
    assert!(out.flush().is_none());
}

#[test]
fn completion_fires_once_and_nothing_follows() {
    let mut out = OutThread::new(2);
    out.step(Event::Line("a".to_string()));
    match out.step(Event::Closed) {
        Action::Complete(Some(b)) => assert_eq!(b, vec!["a".to_string()]),
        _ => panic!("expected the final batch with the completion"),
    }
    assert!(out.is_closed());
    assert!(matches!(out.step(Event::Closed), Action::Idle));
    assert!(matches!(out.step(Event::Line("late".to_string())), Action::Idle));
    assert!(out.flush().is_none());
}

#[test]
fn full_buffer_is_written_at_once() {
    let mut out = OutThread::new(1);
    match out.step(Event::Line("a".to_string())) {
        Action::Write(b) => assert_eq!(b, vec!["a".to_string()]),
        _ => panic!("a buffer that reaches its capacity is written at once"),
    }
    match out.step(Event::Line("b".to_string())) {
        Action::Write(b) => assert_eq!(b, vec!["b".to_string()]),
        _ => panic!("a buffer that reaches its capacity is written at once"),
    }
    assert!(matches!(out.step(Event::Closed), Action::Complete(None)));
    let mut out = OutThread::new(16);
    for _ in 0..15 {
        assert!(matches!(out.step(Event::Line("hello".to_string())), Action::Idle));
    }
    match out.step(Event::Line("hello".to_string())) {
        Action::Write(b) => assert_eq!(b.len(), 16),
        _ => panic!("the sixteenth line fills the buffer"),
    }
    assert!(matches!(out.step(Event::Closed), Action::Complete(None)));
}

#[test]
fn completion_carries_the_remaining_lines() {
    let mut out = OutThread::new(3);
    assert!(matches!(out.step(Event::Line("a".to_string())), Action::Idle));
    assert!(matches!(out.step(Event::Line("b".to_string())), Action::Idle));
    match out.step(Event::Closed) {
        Action::Complete(Some(b)) => assert_eq!(b, vec!["a".to_string(), "b".to_string()]),
        _ => panic!("the remaining lines go with the completion"),
    }
    let mut empty = OutThread::new(1);
    assert!(matches!(empty.step(Event::Closed), Action::Complete(None)));
}

#[test]
fn render_batch_terminates_each_line() {
    let batch = vec!["first line".to_string(), String::new(), "third".to_string()];
    assert_eq!(render_batch(&batch), "first line\n\nthird\n");
    assert_eq!(render_batch(&Vec::new()), "");
}
