use std::cell::RefCell;
use std::rc::Rc;

use chum::{
    Chum, Drain, IntoSegment, Mixed, Pipe, PausableStream, Segment, Source, Stream, StreamType,
    TransformableStream,
    Unpiped, WriteableStream,
};

type Log = Rc<RefCell<Vec<i32>>>;

type Writer = Box<dyn Fn(&i32)>;

type Step = Box<dyn Fn(i32) -> i32>;

type EndDrain = Drain<i32, Writer, Box<dyn Fn()>, Box<dyn Fn() -> bool>, Unpiped<i32>>;

type EndPipe = Pipe<i32, Step, Unpiped<i32>>;

fn new_log() -> Log {
    Rc::new(RefCell::new(Vec::new()))
}

fn logging_writer(log: &Log) -> Writer {
    let l = log.clone();
    Box::new(move |x: &i32| l.borrow_mut().push(*x))
}

fn end_drain(log: &Log) -> EndDrain {
    Drain::new(logging_writer(log), None, None)
}

#[test]
fn pipe_transforms_with_its_transformer() {
    let p: EndPipe = Pipe::new(Box::new(|x: i32| x + 1));
    assert_eq!(p.transform(41), 42);
}

#[test]
fn pipe_transformer_can_be_replaced() {
    let mut p: EndPipe = Pipe::new(Box::new(|x: i32| x + 1));
    p.transformer(Box::new(|x: i32| x * 3));
    assert_eq!(p.transform(5), 15);
}

#[test]
fn pipe_write_hands_transformed_item_on() {
    let log = new_log();
    let mut p: Pipe<i32, Step, EndDrain> = Pipe::new(Box::new(|x: i32| x + 1));
    p.pipe(end_drain(&log));
    p.write(42);
    p.write(17);
    assert_eq!(*log.borrow(), vec![43, 18]);
}

#[test]
fn unpiped_pipe_write_goes_nowhere() {
    let mut p: EndPipe = Pipe::new(Box::new(|x: i32| x - 1));
    p.write(1);
    assert!(!p.closed());
}

#[test]
fn pipe_close_marks_it_closed() {
    let mut p: EndPipe = Pipe::new(Box::new(|x: i32| x));
    assert!(!p.closed());
    p.close();
    assert!(p.closed());
}

#[test]
fn drain_hands_item_to_writer_and_on_unchanged() {
    let first = new_log();
    let second = new_log();
    let mut d: Drain<i32, Writer, Box<dyn Fn()>, Box<dyn Fn() -> bool>, EndDrain> = Drain::new(
        logging_writer(&first),
        None,
        None,
    );
    d.pipe(end_drain(&second));
    d.write(7);
    d.write(8);
    assert_eq!(*first.borrow(), vec![7, 8]);
    assert_eq!(*second.borrow(), vec![7, 8]);
}

#[test]
fn drain_close_calls_close_handler() {
    let calls = new_log();
    let c2 = calls.clone();
    let mut d: EndDrain = Drain::new(
        logging_writer(&new_log()),
        Some(Box::new(move || c2.borrow_mut().push(1))),
        None,
    );
    d.close();
    d.close();
    assert_eq!(*calls.borrow(), vec![1, 1]);
}

#[test]
fn drain_closed_asks_checker() {
    let d: EndDrain = Drain::new(logging_writer(&new_log()), None, Some(Box::new(|| true)));
    assert!(d.closed());
    let e: EndDrain = Drain::new(logging_writer(&new_log()), None, None);
    assert!(!e.closed());
}

#[test]
fn segments_know_their_kind() {
    let p: EndPipe = Pipe::new(Box::new(|x: i32| x * 2));
    let mut seg: Segment<i32, EndPipe> = IntoSegment::into(p);
    assert!(*seg.stream_type() == StreamType::Transformable);
    assert_eq!(seg.stream().transform(4), 8);
    seg.stream_mut().transformer(Box::new(|x: i32| x * 5));
    assert_eq!(seg.stream().transform(4), 20);
    let d = end_drain(&new_log());
    let dseg: Segment<i32, EndDrain> = IntoSegment::into(d);
    assert!(*dseg.stream_type() == StreamType::Writeable);
}

fn logging_pipe(log: &Log, add: i32) -> Pipe<i32, Step, Unpiped<i32>> {
    let l = log.clone();
    Pipe::new(Box::new(move |x: i32| {
        l.borrow_mut().push(x);
        x + add
    }))
}

#[test]
fn built_pipeline_runs_items_through_every_segment() {
    let log = new_log();
    let mut c: Chum<i32, EndPipe> = Chum::new();
    assert!(c.register(logging_pipe(&log, 1)).is_ok());
    assert!(c.register(logging_pipe(&log, 10)).is_ok());
    assert!(c.register(logging_pipe(&log, 100)).is_ok());
    c.build_pipeline();
    c.write(0);
    assert_eq!(*log.borrow(), vec![0, 1, 11]);
}

#[test]
fn unbuilt_pipeline_only_reaches_first_segment() {
    let log = new_log();
    let mut c: Chum<i32, EndPipe> = Chum::new();
    let _ = c.register(logging_pipe(&log, 1));
    let _ = c.register(logging_pipe(&log, 10));
    c.write(5);
    assert_eq!(*log.borrow(), vec![5]);
}

#[test]
fn single_segment_pipeline_build_is_a_no_op() {
    let log = new_log();
    let mut c: Chum<i32, EndPipe> = Chum::new();
    let _ = c.register(logging_pipe(&log, 1));
    c.build_pipeline();
    c.write(3);
    assert_eq!(*log.borrow(), vec![3]);
}

#[test]
fn empty_pipeline_takes_writes() {
    let mut c: Chum<i32, EndPipe> = Chum::new();
    c.build_pipeline();
    c.write(3);
}

#[test]
fn segment_registered_after_build_is_not_linked() {
    let log = new_log();
    let mut c: Chum<i32, EndPipe> = Chum::new();
    let _ = c.register(logging_pipe(&log, 1));
    let _ = c.register(logging_pipe(&log, 10));
    c.build_pipeline();
    let _ = c.register(logging_pipe(&log, 100));
    c.write(0);
    assert_eq!(*log.borrow(), vec![0, 1]);
    c.build_pipeline();
    c.write(0);
    assert_eq!(*log.borrow(), vec![0, 1, 0, 1, 11]);
}

#[test]
fn register_allows_chaining() {
    let log = new_log();
    let mut c: Chum<i32, EndPipe> = Chum::new();
    c.register(logging_pipe(&log, 1)).unwrap().register(logging_pipe(&log, 2)).unwrap();
    c.build_pipeline();
    c.write(0);
    assert_eq!(*log.borrow(), vec![0, 1]);
}

#[test]
fn pipeline_of_drains_writes_through_all() {
    let first = new_log();
    let second = new_log();
    let mut c: Chum<i32, EndDrain> = Chum::new();
    let _ = c.register(end_drain(&first));
    let _ = c.register(end_drain(&second));
    c.build_pipeline();
    c.write(42);
    assert_eq!(*first.borrow(), vec![42]);
    assert_eq!(*second.borrow(), vec![42]);
}

#[test]
fn source_piped_into_pipeline() {
    let log = new_log();
    let mut c: Chum<i32, EndPipe> = Chum::new();
    let _ = c.register(logging_pipe(&log, 1));
    let _ = c.register(logging_pipe(&log, 1));
    c.build_pipeline();
    let mut s: Source<i32, Writer, Chum<i32, EndPipe>> = Source::new();
    s.push(42);
    s.pipe(c);
    s.push(17);
    assert_eq!(*log.borrow(), vec![42, 43, 17, 18]);
}

#[test]
fn stream_chain_built_by_hand() {
    let out = new_log();
    let d2 = end_drain(&out);
    let mut p2: Pipe<i32, Step, EndDrain> = Pipe::new(Box::new(|x: i32| x + 1));
    p2.pipe(d2);
    let mut d1: Drain<i32, Writer, Box<dyn Fn()>, Box<dyn Fn() -> bool>, _> = Drain::new(
        logging_writer(&new_log()),
        None,
        None,
    );
    d1.pipe(p2);
    let mut p1: Pipe<i32, Step, _> = Pipe::new(Box::new(|x: i32| x + 1));
    p1.pipe(d1);
    let mut s: Source<i32, Writer, _> = Source::new();
    s.push(42);
    s.push(17);
    s.pipe(p1);
    assert_eq!(*out.borrow(), vec![44, 19]);
}

#[test]
fn pipe_into_unpiped_target_takes_writes() {
    let mut p: EndPipe = Pipe::new(Box::new(|x: i32| x + 1));
    p.pipe(Unpiped::new());
    p.write(1);
    p.write(2);
    assert!(!p.closed());
}

type MixedSegment = Mixed<EndPipe, EndDrain>;

#[test]
fn mixed_pipeline_of_pipe_and_drain() {
    let log = new_log();
    let mut c: Chum<i32, MixedSegment> = Chum::new();
    assert!(c.register(Pipe::new(Box::new(|x: i32| x + 1) as Step)).is_ok());
    assert!(c.register(Pipe::new(Box::new(|x: i32| x * 2) as Step)).is_ok());
    assert!(c.register(end_drain(&log)).is_ok());
    c.build_pipeline();
    c.write(3);
    assert_eq!(*log.borrow(), vec![8]);
}

#[test]
fn source_into_mixed_pipeline() {
    let log = new_log();
    let mut c: Chum<i32, MixedSegment> = Chum::new();
    let _ = c.register(Pipe::new(Box::new(|x: i32| x + 1) as Step));
    let _ = c.register(end_drain(&log));
    c.build_pipeline();
    let mut s: Source<i32, Writer, Chum<i32, MixedSegment>> = Source::new();
    s.pipe(c);
    s.push(42);
    assert_eq!(*log.borrow(), vec![43]);
}

#[test]
fn last_segment_writes_on_to_its_own_target() {
    let first = new_log();
    let out = new_log();
    let mut p: Pipe<i32, Step, EndDrain> = Pipe::new(Box::new(|x: i32| x + 1));
    p.pipe(end_drain(&out));
    let mut c: Chum<i32, Mixed<Pipe<i32, Step, EndDrain>, EndDrain>> = Chum::new();
    let _ = c.register(end_drain(&first));
    let _ = c.register(p);
    c.build_pipeline();
    c.write(10);
    assert_eq!(*first.borrow(), vec![10]);
    assert_eq!(*out.borrow(), vec![11]);
}

#[test]
fn chain_of_streams_reaches_its_end_on_uncork() {
    let l0 = new_log();
    let l1 = new_log();
    let l2 = new_log();
    let d2 = end_drain(&l2);
    let mut p2: Pipe<i32, Step, EndDrain> = Pipe::new(Box::new(|x: i32| x + 1));
    p2.pipe(d2);
    let mut d1: Drain<i32, Writer, Box<dyn Fn()>, Box<dyn Fn() -> bool>, _> = Drain::new(
        logging_writer(&l1),
        None,
        None,
    );
    d1.pipe(p2);
    let mut p1: Pipe<i32, Step, _> = Pipe::new(Box::new(|x: i32| x + 1));
    p1.pipe(d1);
    let mut d0: Drain<i32, Writer, Box<dyn Fn()>, Box<dyn Fn() -> bool>, _> = Drain::new(
        logging_writer(&l0),
        None,
        None,
    );
    d0.pipe(p1);
    let mut s: Source<i32, Writer, _> = Source::new();
    s.push(42);
    s.push(17);
    let _ = s.end(7);
    s.cork();
    s.pipe(d0);
    assert!(l0.borrow().is_empty());
    s.uncork();
    assert_eq!(*l0.borrow(), vec![42, 17, 7]);
    assert_eq!(*l1.borrow(), vec![43, 18, 8]);
    assert_eq!(*l2.borrow(), vec![44, 19, 9]);
}

