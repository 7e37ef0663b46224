use std::cell::RefCell;
use std::rc::Rc;

use chum::{Drain, PausableStream, ReadableStream, Source, Stream, Unpiped};

type Log = Rc<RefCell<Vec<i32>>>;

type LogDrain = Drain<i32, Box<dyn Fn(&i32)>, fn(), fn() -> bool, Unpiped<i32>>;

type LogSource = Source<i32, Box<dyn Fn(&i32)>, LogDrain>;

fn logging_drain(log: &Log) -> LogDrain {
    let l = log.clone();
    Drain::new(Box::new(move |x: &i32| l.borrow_mut().push(*x)), None, None)
}

#[test]
fn read_gives_items_in_push_order() {
    let mut s: LogSource = Source::new();
    s.push(42);
    s.push(17);
    s.push(7);
    assert_eq!(s.read(), Some(42));
    assert_eq!(s.read(), Some(17));
    assert_eq!(s.read(), Some(7));
    assert_eq!(s.read(), None);
}

#[test]
fn read_on_empty_source_gives_nothing() {
    let mut s: LogSource = Source::new();
    assert_eq!(s.read(), None);
}

#[test]
fn corked_source_gives_nothing_and_keeps_its_buffer() {
    let mut s: LogSource = Source::new();
    s.push(1);
    s.push(2);
    s.cork();
    assert!(s.corked());
    assert_eq!(s.read(), None);
    assert_eq!(s.read(), None);
    s.corked = false;
    assert_eq!(s.read(), Some(1));
    assert_eq!(s.read(), Some(2));
}

#[test]
fn new_source_is_open_and_uncorked() {
    let s: LogSource = Source::new();
    assert!(!s.closed());
    assert!(!s.corked());
    assert!(s.pipe_target.is_none());
}

#[test]
fn pipe_flushes_buffer_in_order() {
    let log: Log = Rc::new(RefCell::new(Vec::new()));
    let mut s: LogSource = Source::new();
    s.push(42);
    s.push(17);
    s.pipe(logging_drain(&log));
    assert_eq!(*log.borrow(), vec![42, 17]);
    assert_eq!(s.read(), None);
}

#[test]
fn push_into_piped_source_goes_straight_to_target() {
    let log: Log = Rc::new(RefCell::new(Vec::new()));
    let mut s: LogSource = Source::new();
    s.pipe(logging_drain(&log));
    s.push(5);
    s.push(6);
    assert_eq!(*log.borrow(), vec![5, 6]);
    assert_eq!(s.read(), None);
}

#[test]
fn corked_pipe_holds_data_until_uncork() {
    let log: Log = Rc::new(RefCell::new(Vec::new()));
    let mut s: LogSource = Source::new();
    s.push(42);
    s.push(17);
    s.cork();
    s.pipe(logging_drain(&log));
    assert!(log.borrow().is_empty());
    s.uncork();
    assert!(!s.corked());
    assert_eq!(*log.borrow(), vec![42, 17]);
}

#[test]
fn cork_holds_back_pushed_data_until_uncork() {
    let log: Log = Rc::new(RefCell::new(Vec::new()));
    let mut s: LogSource = Source::new();
    s.push(1);
    s.cork();
    s.pipe(logging_drain(&log));
    s.push(2);
    s.push(3);
    assert!(log.borrow().is_empty());
    s.uncork();
    assert_eq!(*log.borrow(), vec![1, 2, 3]);
    s.push(4);
    assert_eq!(*log.borrow(), vec![1, 2, 3, 4]);
}

#[test]
fn corked_piped_source_reads_nothing_but_keeps_pushed_items() {
    let log: Log = Rc::new(RefCell::new(Vec::new()));
    let mut s: LogSource = Source::new();
    s.pipe(logging_drain(&log));
    s.cork();
    s.push(3);
    assert!(log.borrow().is_empty());
    assert_eq!(s.read(), None);
    s.corked = false;
    assert_eq!(s.read(), Some(3));
}

#[test]
fn end_on_corked_source_buffers_the_last_item() {
    let log: Log = Rc::new(RefCell::new(Vec::new()));
    let mut s: LogSource = Source::new();
    s.cork();
    s.pipe(logging_drain(&log));
    s.push(1);
    let detached = s.end(2);
    assert!(detached.is_some());
    assert!(s.closed());
    assert!(log.borrow().is_empty());
    s.corked = false;
    assert_eq!(s.read(), Some(1));
    assert_eq!(s.read(), Some(2));
}

#[test]
fn push_to_pipe_without_target_keeps_buffer() {
    let mut s: LogSource = Source::new();
    s.push(9);
    s.push_to_pipe();
    assert_eq!(s.read(), Some(9));
}

#[test]
fn push_to_pipe_on_corked_source_delivers_nothing() {
    let log: Log = Rc::new(RefCell::new(Vec::new()));
    let mut s: LogSource = Source::new();
    s.push(1);
    s.cork();
    s.pipe(logging_drain(&log));
    s.push_to_pipe();
    assert!(log.borrow().is_empty());
    s.corked = false;
    s.push_to_pipe();
    assert_eq!(*log.borrow(), vec![1]);
}

#[test]
fn data_handler_sees_every_pushed_item() {
    let seen: Log = Rc::new(RefCell::new(Vec::new()));
    let s2 = seen.clone();
    let mut s: LogSource = Source::new();
    s.data(Box::new(move |x: &i32| s2.borrow_mut().push(*x * 10)));
    s.push(1);
    s.push(2);
    assert_eq!(*seen.borrow(), vec![10, 20]);
    assert_eq!(s.read(), Some(1));
}

#[test]
fn end_without_target_buffers_and_closes() {
    let mut s: LogSource = Source::new();
    s.push(42);
    s.push(17);
    let detached = s.end(7);
    assert!(detached.is_none());
    assert!(s.closed());
    assert!(s.pipe_target.is_none());
    assert_eq!(s.read(), Some(42));
    assert_eq!(s.read(), Some(17));
    assert_eq!(s.read(), Some(7));
}

#[test]
fn end_with_target_writes_closes_and_unpipes() {
    let log: Log = Rc::new(RefCell::new(Vec::new()));
    let mut s: LogSource = Source::new();
    s.pipe(logging_drain(&log));
    s.push(1);
    let detached = s.end(2);
    assert!(detached.is_some());
    assert!(s.closed());
    assert!(s.pipe_target.is_none());
    assert_eq!(*log.borrow(), vec![1, 2]);
}

#[test]
fn close_marks_source_closed() {
    let mut s: LogSource = Source::new();
    s.close();
    assert!(s.closed());
}
