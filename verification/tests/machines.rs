use std::cell::RefCell;
use std::collections::VecDeque;
use std::rc::Rc;
use std::sync::atomic::{AtomicUsize, Ordering};
use std::sync::Arc;
use std::task::{Context, Poll, Wake, Waker};

use async_channel::{bounded, unbounded};
use stream_patterns::channel::Outbox;
use stream_patterns::promise::{qpromise, Error, QFuture, QPromise};
use stream_patterns::pub_impl::{publish, Pub, PubPoll, PubRun, PubStream};
use stream_patterns::push_impl::{push, Push, PushError, PushRun, State};
use stream_patterns::rep_impl::{rep, RepRun};
use stream_patterns::req_impl::{req, ReqRun};
use stream_patterns::stream::{PatternStream, Peer, ResultStream};
use stream_patterns::sub_impl::SubRun;
use stream_patterns::task::{drive, Machine, Step};

type Next = Poll<Option<Result<i32, &'static str>>>;
type Done = Poll<Result<(), &'static str>>;
type Log = Rc<RefCell<Vec<String>>>;

#[derive(Default)]
struct Script {
    name: &'static str,
    next: Rc<RefCell<VecDeque<Next>>>,
    ready: Rc<RefCell<VecDeque<Done>>>,
    send: VecDeque<Result<(), &'static str>>,
    flush: Rc<RefCell<VecDeque<Done>>>,
    close: VecDeque<Done>,
    log: Log,
}

impl Script {
    fn new(name: &'static str, log: &Log) -> Script {
        Script {
            name,
            log: log.clone(),
            ..Script::default()
        }
    }

    fn note(&self, what: &str) {
        self.log.borrow_mut().push(format!("{} {}", self.name, what));
    }
}

impl ResultStream for Script {
    type Msg = i32;
    type Err = &'static str;
}

impl PatternStream for Script {
    fn poll_next(&mut self, _: &mut Context<'_>) -> Next {
        self.next.borrow_mut().pop_front().unwrap_or(Poll::Pending)
    }

    fn poll_ready(&mut self, _: &mut Context<'_>) -> Done {
        self.ready.borrow_mut().pop_front().unwrap_or(Poll::Ready(Ok(())))
    }

    fn start_send(&mut self, msg: i32) -> Result<(), &'static str> {
        self.note(&format!("takes {}", msg));
        self.send.pop_front().unwrap_or(Ok(()))
    }

    fn poll_flush(&mut self, _: &mut Context<'_>) -> Done {
        let flushed = self.flush.borrow_mut().pop_front().unwrap_or(Poll::Ready(Ok(())));
        if let Poll::Ready(Ok(())) = flushed {
            self.note("sent");
        }
        flushed
    }

    fn poll_close(&mut self, _: &mut Context<'_>) -> Done {
        self.note("closes");
        self.close.pop_front().unwrap_or(Poll::Ready(Ok(())))
    }
}

fn idle() -> Context<'static> {
    Context::from_waker(futures_util::task::noop_waker_ref())
}

fn go_on<M: Machine>(run: &mut M, cx: &mut Context<'_>) -> Poll<()> {
    match drive(run, cx) {
        Step::Ready(()) => Poll::Ready(()),
        Step::Pending => Poll::Pending,
        Step::Again => panic!("it never rests"),
    }
}

fn until(mut once: impl FnMut() -> Step<()>) -> Poll<()> {
    loop {
        match once() {
            Step::Ready(()) => return Poll::Ready(()),
            Step::Pending => return Poll::Pending,
            Step::Again => {}
        }
    }
}

fn push_on(run: &mut PushRun<Script>) -> Poll<()> {
    let mut cx = idle();
    go_on(run, &mut cx)
}

fn publish_on(run: &mut PubRun<Script>) -> Poll<()> {
    let mut cx = idle();
    go_on(run, &mut cx)
}

fn request_on(run: &mut ReqRun<Script>) -> Poll<()> {
    let mut cx = idle();
    go_on(run, &mut cx)
}

fn reply_on(run: &mut RepRun<'_, Script>) -> Poll<()> {
    let mut cx = idle();
    go_on(run, &mut cx)
}

fn receive_on(run: &mut SubRun<'_, Script>) -> Poll<()> {
    let mut cx = idle();
    go_on(run, &mut cx)
}

fn value<T>(future: &mut QFuture<T>) -> Poll<Result<T, Error>> {
    future.poll(&mut idle())
}

fn taken(log: &Log) -> Vec<String> {
    std::mem::take(&mut *log.borrow_mut())
}

#[test]
fn pushing_goes_round() {
    let log = Log::default();
    let (ready_s, ready_r) = bounded(10);
    let (done_s, done_r) = bounded(10);
    let (msg_s, msg_r) = bounded(10);
    let mut run = push(ready_r, done_s, msg_r);
    for name in ["a", "b", "c"] {
        assert!(ready_s.try_send(Script::new(name, &log)).is_ok());
    }
    let mut futures = Vec::new();
    for msg in 1..=4 {
        let (promise, future) = qpromise();
        assert!(msg_s.try_send((msg, promise)).is_ok());
        futures.push(future);
    }
    assert_eq!(push_on(&mut run), Poll::Pending);
    assert_eq!(
        taken(&log),
        ["a takes 1", "a sent", "b takes 2", "b sent", "c takes 3", "c sent", "a takes 4", "a sent"]
    );
    for future in &mut futures {
        assert_eq!(value(future), Poll::Ready(Ok(())));
    }
    msg_s.close();
    assert_eq!(push_on(&mut run), Poll::Ready(()));
    assert_eq!(taken(&log), ["b closes", "c closes", "a closes"]);
    for _ in 0..3 {
        assert_eq!(done_r.try_recv(), Ok(None));
    }
    assert!(done_r.try_recv().is_err());
    assert_eq!(push_on(&mut run), Poll::Ready(()));
}

#[test]
fn pushing_tries_the_next_stream_when_one_fails() {
    let log = Log::default();
    let (ready_s, ready_r) = bounded(10);
    let (done_s, done_r) = bounded(10);
    let (msg_s, msg_r) = bounded(10);
    let mut run = push(ready_r, done_s, msg_r);
    let unready = Script::new("a", &log);
    unready.ready.borrow_mut().push_back(Poll::Ready(Err("not ready")));
    let mut refusing = Script::new("b", &log);
    refusing.send.push_back(Err("refused"));
    let stuck = Script::new("c", &log);
    stuck.flush.borrow_mut().push_back(Poll::Pending);
    stuck.flush.borrow_mut().push_back(Poll::Ready(Err("stuck")));
    for stream in [unready, refusing, stuck, Script::new("d", &log)] {
        assert!(ready_s.try_send(stream).is_ok());
    }
    let (promise, mut future) = qpromise();
    assert!(msg_s.try_send((5, promise)).is_ok());
    assert_eq!(push_on(&mut run), Poll::Pending);
    assert_eq!(value(&mut future), Poll::Pending);
    assert_eq!(push_on(&mut run), Poll::Pending);
    assert_eq!(value(&mut future), Poll::Ready(Ok(())));
    assert_eq!(taken(&log), ["b takes 5", "c takes 5", "d takes 5", "d sent"]);
    assert_eq!(done_r.try_recv(), Ok(Some("not ready")));
    assert_eq!(done_r.try_recv(), Ok(Some("refused")));
    assert_eq!(done_r.try_recv(), Ok(Some("stuck")));
    assert!(done_r.try_recv().is_err());
}

#[test]
fn pushing_gives_up_when_there_can_be_no_streams() {
    let log = Log::default();
    let (ready_s, ready_r) = bounded::<Script>(10);
    let (done_s, done_r) = bounded(10);
    let (msg_s, msg_r) = bounded(10);
    let mut run = push(ready_r, done_s, msg_r);
    let mut stream = Script::new("a", &log);
    stream.send.push_back(Err("refused"));
    assert!(ready_s.try_send(stream).is_ok());
    drop(ready_s);
    let (promise, mut future) = qpromise();
    assert!(msg_s.try_send((5, promise)).is_ok());
    assert_eq!(push_on(&mut run), Poll::Ready(()));
    assert_eq!(value(&mut future), Poll::Ready(Err(Error)));
    assert_eq!(done_r.try_recv(), Ok(Some("refused")));
    assert!(done_r.try_recv().is_err());
}

#[test]
fn pushing_reports_how_streams_close() {
    let log = Log::default();
    let (ready_s, ready_r) = bounded(10);
    let (done_s, done_r) = bounded(10);
    let (msg_s, msg_r) = bounded(10);
    let mut run = push(ready_r, done_s, msg_r);
    let mut slow = Script::new("a", &log);
    slow.close.push_back(Poll::Pending);
    slow.close.push_back(Poll::Ready(Err("late")));
    assert!(ready_s.try_send(slow).is_ok());
    assert!(ready_s.try_send(Script::new("b", &log)).is_ok());
    assert_eq!(push_on(&mut run), Poll::Pending);
    msg_s.close();
    assert_eq!(push_on(&mut run), Poll::Ready(()));
    assert_eq!(done_r.try_recv(), Ok(None));
    assert_eq!(done_r.try_recv(), Ok(Some("late")));
    assert!(done_r.try_recv().is_err());
}

#[test]
fn a_stream_that_joins_while_others_close_is_let_go_of() {
    let log = Log::default();
    let (ready_s, ready_r) = bounded(10);
    let (done_s, done_r) = bounded(10);
    let (msg_s, msg_r) = bounded(10);
    let mut run = push(ready_r, done_s, msg_r);
    let mut slow = Script::new("a", &log);
    slow.close.push_back(Poll::Pending);
    slow.close.push_back(Poll::Pending);
    assert!(ready_s.try_send(slow).is_ok());
    msg_s.close();
    assert_eq!(push_on(&mut run), Poll::Pending);
    assert!(ready_s.try_send(Script::new("b", &log)).is_ok());
    while push_on(&mut run) == Poll::Pending {}
    assert_eq!(done_r.try_recv(), Ok(None));
    assert!(done_r.try_recv().is_err());
    assert!(taken(&log).iter().all(|line| line == "a closes"));
}

#[test]
fn a_second_message_is_refused() {
    let log = Log::default();
    let mut cx = idle();
    let (ready_s, ready_r) = bounded(10);
    let (done_s, _done_r) = bounded(10);
    let mut sink = Push::<Script>::new(ready_r, done_s);
    assert!(sink.start_send(1).is_ok());
    assert!(matches!(sink.start_send(2), Err(PushError::AlreadySending)));
    assert!(sink.start_send(3).is_ok());
    assert!(ready_s.try_send(Script::new("a", &log)).is_ok());
    drop(ready_s);
    loop {
        match sink.poll_ready(&mut cx) {
            Step::Ready(Ok(())) => break,
            Step::Again => {}
            _ => panic!("not sent"),
        }
    }
    assert_eq!(taken(&log), ["a takes 3", "a sent"]);
}

#[test]
fn a_message_without_streams_comes_back() {
    let mut cx = idle();
    let (ready_s, ready_r) = bounded(10);
    let (done_s, _done_r) = bounded(10);
    let mut sink = Push::<Script>::new(ready_r, done_s);
    assert!(sink.start_send(7).is_ok());
    assert!(matches!(sink.poll_flush(&mut cx), Step::Pending));
    drop(ready_s);
    assert!(matches!(
        sink.poll_flush(&mut cx),
        Step::Ready(Err(PushError::NoStreams(7)))
    ));
    assert!(matches!(sink.poll_close(&mut cx), Step::Ready(Ok(()))));
}

#[test]
fn states_have_names() {
    assert_eq!(State::<Script>::Pending.name(), "pending");
    let mut state = State::<Script>::Msg(1);
    assert_eq!(state.name(), "msg");
    assert_eq!(state.take().name(), "msg");
    assert_eq!(state.name(), "pending");
}

#[test]
fn publishing_waits_for_the_slowest() {
    let log = Log::default();
    let (ready_s, ready_r) = bounded(10);
    let (done_s, done_r) = bounded(10);
    let (msg_s, msg_r) = bounded(10);
    let mut run = publish(ready_r, done_s, msg_r);
    let slow = Script::new("a", &log);
    let ready = slow.ready.clone();
    let flush = slow.flush.clone();
    ready.borrow_mut().push_back(Poll::Pending);
    flush.borrow_mut().push_back(Poll::Pending);
    assert!(ready_s.try_send(slow).is_ok());
    assert!(ready_s.try_send(Script::new("b", &log)).is_ok());
    let (promise, mut future) = qpromise();
    assert!(msg_s.try_send((1, promise)).is_ok());
    assert_eq!(publish_on(&mut run), Poll::Pending);
    assert!(taken(&log).is_empty());
    assert!(ready_s.try_send(Script::new("c", &log)).is_ok());
    assert_eq!(publish_on(&mut run), Poll::Pending);
    assert_eq!(taken(&log), ["a takes 1", "b takes 1", "b sent", "c sent"]);
    assert_eq!(value(&mut future), Poll::Pending);
    assert_eq!(publish_on(&mut run), Poll::Pending);
    assert_eq!(taken(&log), ["a sent"]);
    assert_eq!(value(&mut future), Poll::Ready(Ok(())));
    let (promise, mut future) = qpromise();
    assert!(msg_s.try_send((2, promise)).is_ok());
    assert_eq!(publish_on(&mut run), Poll::Pending);
    assert_eq!(
        taken(&log),
        ["a takes 2", "b takes 2", "c takes 2", "a sent", "b sent", "c sent"]
    );
    assert_eq!(value(&mut future), Poll::Ready(Ok(())));
    assert!(done_r.try_recv().is_err());
}

#[test]
fn publishing_reports_each_way_to_fail() {
    let log = Log::default();
    let (ready_s, ready_r) = bounded(10);
    let (done_s, done_r) = bounded(10);
    let (msg_s, msg_r) = bounded(10);
    let mut run = publish(ready_r, done_s, msg_r);
    let unready = Script::new("a", &log);
    unready.ready.borrow_mut().push_back(Poll::Ready(Err("not ready")));
    let mut refusing = Script::new("b", &log);
    refusing.send.push_back(Err("refused"));
    let stuck = Script::new("c", &log);
    stuck.flush.borrow_mut().push_back(Poll::Ready(Err("stuck")));
    let ended = Script::new("d", &log);
    ended.next.borrow_mut().push_back(Poll::Ready(Some(Ok(9))));
    ended.next.borrow_mut().push_back(Poll::Ready(None));
    let broken = Script::new("e", &log);
    broken.next.borrow_mut().push_back(Poll::Ready(Some(Err("broken"))));
    let mut odd = Script::new("f", &log);
    odd.close.push_back(Poll::Ready(Err("odd")));
    for stream in [unready, refusing, stuck, ended, broken, odd, Script::new("g", &log)] {
        assert!(ready_s.try_send(stream).is_ok());
    }
    let (promise, mut future) = qpromise();
    assert!(msg_s.try_send((1, promise)).is_ok());
    msg_s.close();
    assert_eq!(publish_on(&mut run), Poll::Ready(()));
    assert_eq!(value(&mut future), Poll::Ready(Ok(())));
    let mut reports = Vec::new();
    while let Ok(done) = done_r.try_recv() {
        reports.push(done);
    }
    assert_eq!(
        reports,
        [
            None,
            Some("broken"),
            Some("not ready"),
            Some("refused"),
            Some("stuck"),
            Some("odd"),
        ]
    );
}

#[test]
fn publishing_to_nobody_is_over_when_nobody_can_come() {
    let (ready_s, ready_r) = bounded::<Script>(10);
    let (done_s, _done_r) = bounded(10);
    let (msg_s, msg_r) = bounded(10);
    let mut run = publish(ready_r, done_s, msg_r);
    let (promise, mut future) = qpromise();
    assert!(msg_s.try_send((1, promise)).is_ok());
    assert_eq!(publish_on(&mut run), Poll::Pending);
    assert_eq!(value(&mut future), Poll::Ready(Ok(())));
    drop(ready_s);
    assert_eq!(publish_on(&mut run), Poll::Ready(()));
    assert!(!msg_s.is_closed());
    drop(run);
    assert!(msg_s.is_closed());
}

#[test]
fn each_stream_gets_all_messages_from_its_first_on() {
    let log = Log::default();
    let (ready_s, ready_r) = bounded(10);
    let (done_s, done_r) = bounded(10);
    let (msg_s, msg_r) = bounded(10);
    let mut run = publish(ready_r, done_s, msg_r);
    assert!(ready_s.try_send(Script::new("a", &log)).is_ok());
    let mut futures = Vec::new();
    for msg in 1..=2 {
        let (promise, future) = qpromise();
        assert!(msg_s.try_send((msg, promise)).is_ok());
        futures.push(future);
    }
    assert_eq!(publish_on(&mut run), Poll::Pending);
    assert_eq!(taken(&log), ["a takes 1", "a sent", "a takes 2", "a sent"]);
    assert!(ready_s.try_send(Script::new("b", &log)).is_ok());
    for msg in 3..=4 {
        let (promise, future) = qpromise();
        assert!(msg_s.try_send((msg, promise)).is_ok());
        futures.push(future);
    }
    assert_eq!(publish_on(&mut run), Poll::Pending);
    assert_eq!(
        taken(&log),
        [
            "a takes 3",
            "b takes 3",
            "a sent",
            "b sent",
            "a takes 4",
            "b takes 4",
            "a sent",
            "b sent",
        ]
    );
    for future in &mut futures {
        assert_eq!(value(future), Poll::Ready(Ok(())));
    }
    assert!(done_r.try_recv().is_err());
}

#[test]
fn a_stream_that_goes_while_a_message_is_at_work_is_reported() {
    let log = Log::default();
    let (ready_s, ready_r) = bounded(10);
    let (done_s, done_r) = bounded(10);
    let (msg_s, msg_r) = bounded(10);
    let mut run = publish(ready_r, done_s, msg_r);
    let slow = Script::new("a", &log);
    let ready = slow.ready.clone();
    ready.borrow_mut().push_back(Poll::Pending);
    assert!(ready_s.try_send(slow).is_ok());
    let leaving = Script::new("b", &log);
    let next = leaving.next.clone();
    assert!(ready_s.try_send(leaving).is_ok());
    let (promise, mut future) = qpromise();
    assert!(msg_s.try_send((1, promise)).is_ok());
    assert_eq!(publish_on(&mut run), Poll::Pending);
    assert!(taken(&log).is_empty());
    next.borrow_mut().push_back(Poll::Ready(None));
    assert_eq!(publish_on(&mut run), Poll::Pending);
    assert_eq!(taken(&log), ["a takes 1", "a sent"]);
    assert_eq!(value(&mut future), Poll::Ready(Ok(())));
    assert_eq!(done_r.try_recv(), Ok(None));
    assert!(done_r.try_recv().is_err());
}

#[test]
fn a_stream_that_is_gone_stays_gone() {
    let log = Log::default();
    let mut cx = idle();
    let (done_s, done_r) = bounded(10);
    let mut done_s = Outbox::new(done_s);
    let script = Script::new("a", &log);
    script.next.borrow_mut().push_back(Poll::Ready(Some(Ok(9))));
    script.next.borrow_mut().push_back(Poll::Ready(None));
    let asked = script.next.clone();
    let mut stream = PubStream {
        peer: Peer::new(script),
        readying: false,
        flushing: false,
        ready: false,
        gone: false,
    };
    assert!(matches!(stream.poll_next(&mut done_s, &mut cx), PubPoll::Again));
    assert!(!stream.gone);
    assert!(matches!(stream.poll_next(&mut done_s, &mut cx), PubPoll::Ended));
    assert!(stream.gone);
    asked.borrow_mut().push_back(Poll::Pending);
    assert!(matches!(stream.poll_next(&mut done_s, &mut cx), PubPoll::Ended));
    assert_eq!(asked.borrow().len(), 1);
    assert_eq!(done_r.try_recv(), Ok(None));
    assert!(done_r.try_recv().is_err());
}

#[test]
fn publishing_is_over_after_the_last_message() {
    let log = Log::default();
    let (ready_s, ready_r) = bounded(10);
    let (done_s, done_r) = bounded(10);
    let (msg_s, msg_r) = bounded(10);
    let mut run = publish(ready_r, done_s, msg_r);
    assert!(ready_s.try_send(Script::new("a", &log)).is_ok());
    let (promise, mut future) = qpromise();
    assert!(msg_s.try_send((1, promise)).is_ok());
    drop(msg_s);
    assert_eq!(publish_on(&mut run), Poll::Ready(()));
    assert_eq!(taken(&log), ["a takes 1", "a sent", "a closes"]);
    assert_eq!(value(&mut future), Poll::Ready(Ok(())));
    assert!(!ready_s.is_closed());
    assert!(done_r.try_recv().is_err());
}

#[test]
fn all_that_want_to_join_are_taken_in() {
    let log = Log::default();
    let mut cx = idle();
    let (ready_s, ready_r) = bounded(10);
    let (done_s, done_r) = bounded(10);
    let mut sink = Pub::<Script>::new(ready_r, done_s);
    for name in ["a", "b", "c"] {
        assert!(ready_s.try_send(Script::new(name, &log)).is_ok());
    }
    let gone = Script::new("d", &log);
    gone.next.borrow_mut().push_back(Poll::Ready(Some(Err("gone"))));
    assert!(ready_s.try_send(gone).is_ok());
    assert_eq!(until(|| sink.poll_ready(&mut cx)), Poll::Ready(()));
    assert!(ready_s.is_empty());
    assert_eq!(done_r.try_recv(), Ok(Some("gone")));
    sink.start_send(1);
    assert_eq!(taken(&log), ["a takes 1", "b takes 1", "c takes 1"]);
}

#[test]
fn a_copy_goes_to_those_that_are_ready() {
    let log = Log::default();
    let mut cx = idle();
    let (ready_s, ready_r) = bounded(10);
    let (done_s, _done_r) = bounded(10);
    let mut sink = Pub::<Script>::new(ready_r, done_s);
    assert!(ready_s.try_send(Script::new("a", &log)).is_ok());
    assert_eq!(until(|| sink.poll_ready(&mut cx)), Poll::Ready(()));
    sink.start_send(1);
    sink.start_send(2);
    assert_eq!(taken(&log), ["a takes 1"]);
    assert_eq!(until(|| sink.poll_flush(&mut cx)), Poll::Ready(()));
    assert_eq!(until(|| sink.poll_close(&mut cx)), Poll::Ready(()));
    assert_eq!(taken(&log), ["a sent", "a closes"]);
}

#[test]
fn a_reply_belongs_to_its_request() {
    let log = Log::default();
    let (ready_s, ready_r) = bounded(10);
    let (done_s, done_r) = bounded(10);
    let (request_s, request_r) = bounded(10);
    let mut run = req(ready_r, done_s, request_r);
    let a = Script::new("a", &log);
    let b = Script::new("b", &log);
    let (from_a, from_b) = (a.next.clone(), b.next.clone());
    assert!(ready_s.try_send(a).is_ok());
    assert!(ready_s.try_send(b).is_ok());
    let mut futures = Vec::new();
    for msg in 1..=3 {
        let (promise, future) = qpromise();
        assert!(request_s.try_send((msg, promise)).is_ok());
        futures.push(future);
    }
    while taken(&log) != ["a takes 1", "a sent"] {
        assert_eq!(request_on(&mut run), Poll::Pending);
    }
    assert_eq!(value(&mut futures[0]), Poll::Pending);
    from_a.borrow_mut().push_back(Poll::Ready(Some(Ok(10))));
    while taken(&log) != ["b takes 2", "b sent"] {
        assert_eq!(request_on(&mut run), Poll::Pending);
    }
    assert_eq!(value(&mut futures[0]), Poll::Ready(Ok(10)));
    from_b.borrow_mut().push_back(Poll::Ready(Some(Ok(20))));
    while taken(&log) != ["a takes 3", "a sent"] {
        assert_eq!(request_on(&mut run), Poll::Pending);
    }
    assert_eq!(value(&mut futures[1]), Poll::Ready(Ok(20)));
    from_a.borrow_mut().push_back(Poll::Ready(Some(Ok(30))));
    assert_eq!(request_on(&mut run), Poll::Pending);
    assert_eq!(value(&mut futures[2]), Poll::Ready(Ok(30)));
    assert!(done_r.try_recv().is_err());
}

#[test]
fn a_request_is_sent_again_when_its_stream_is_gone() {
    let log = Log::default();
    let (ready_s, ready_r) = bounded(10);
    let (done_s, done_r) = bounded(10);
    let (request_s, request_r) = bounded(10);
    let mut run = req(ready_r, done_s, request_r);
    let unready = Script::new("a", &log);
    unready.ready.borrow_mut().push_back(Poll::Pending);
    unready.ready.borrow_mut().push_back(Poll::Ready(Err("not ready")));
    let mut refusing = Script::new("b", &log);
    refusing.send.push_back(Err("refused"));
    let stuck = Script::new("c", &log);
    stuck.flush.borrow_mut().push_back(Poll::Ready(Err("stuck")));
    let ended = Script::new("d", &log);
    let from_ended = ended.next.clone();
    let broken = Script::new("e", &log);
    let from_broken = broken.next.clone();
    let last = Script::new("f", &log);
    let from_last = last.next.clone();
    for stream in [unready, refusing, stuck, ended, broken, last] {
        assert!(ready_s.try_send(stream).is_ok());
    }
    drop(ready_s);
    let (promise, mut future) = qpromise();
    assert!(request_s.try_send((1, promise)).is_ok());
    request_s.close();
    for _ in 0..10 {
        assert_eq!(request_on(&mut run), Poll::Pending);
    }
    from_ended.borrow_mut().push_back(Poll::Ready(None));
    for _ in 0..10 {
        assert_eq!(request_on(&mut run), Poll::Pending);
    }
    from_broken.borrow_mut().push_back(Poll::Ready(Some(Err("broken"))));
    for _ in 0..10 {
        assert_eq!(request_on(&mut run), Poll::Pending);
    }
    assert_eq!(value(&mut future), Poll::Pending);
    from_last.borrow_mut().push_back(Poll::Ready(Some(Ok(2))));
    assert_eq!(request_on(&mut run), Poll::Ready(()));
    assert_eq!(value(&mut future), Poll::Ready(Ok(2)));
    assert_eq!(
        taken(&log),
        ["b takes 1", "c takes 1", "d takes 1", "d sent", "e takes 1", "e sent", "f takes 1", "f sent"]
    );
    for done in [Some("not ready"), Some("refused"), Some("stuck"), None, Some("broken")] {
        assert_eq!(done_r.try_recv(), Ok(done));
    }
    assert!(done_r.try_recv().is_err());
}

#[test]
fn a_request_fails_when_there_can_be_no_streams() {
    let log = Log::default();
    let (ready_s, ready_r) = bounded(10);
    let (done_s, done_r) = bounded(10);
    let (request_s, request_r) = bounded(10);
    let mut run = req(ready_r, done_s, request_r);
    let mut refusing = Script::new("a", &log);
    refusing.send.push_back(Err("refused"));
    assert!(ready_s.try_send(refusing).is_ok());
    drop(ready_s);
    let (promise, mut future) = qpromise();
    assert!(request_s.try_send((1, promise)).is_ok());
    let mut rounds = 0;
    while request_on(&mut run) == Poll::Pending {
        rounds += 1;
        assert!(rounds < 10);
    }
    assert_eq!(value(&mut future), Poll::Ready(Err(Error)));
    assert_eq!(done_r.try_recv(), Ok(Some("refused")));
    assert!(done_r.try_recv().is_err());
}

#[test]
fn streams_in_line_are_closed_and_reported_after_the_last_request() {
    let log = Log::default();
    let (ready_s, ready_r) = bounded(10);
    let (done_s, done_r) = bounded(10);
    let (request_s, request_r) = bounded::<(i32, QPromise<i32>)>(10);
    let mut run = req(ready_r, done_s, request_r);
    let mut slow = Script::new("c", &log);
    slow.close.push_back(Poll::Pending);
    slow.close.push_back(Poll::Ready(Err("late")));
    assert!(ready_s.try_send(Script::new("a", &log)).is_ok());
    assert!(ready_s.try_send(Script::new("b", &log)).is_ok());
    assert!(ready_s.try_send(slow).is_ok());
    assert_eq!(request_on(&mut run), Poll::Pending);
    request_s.close();
    while request_on(&mut run) == Poll::Pending {}
    assert_eq!(taken(&log), ["b closes", "c closes", "c closes"]);
    assert_eq!(done_r.try_recv(), Ok(None));
    assert_eq!(done_r.try_recv(), Ok(Some("late")));
    assert!(done_r.try_recv().is_err());
}

#[test]
fn replies_go_where_the_requests_came_from() {
    let log = Log::default();
    let (ready_s, ready_r) = bounded(10);
    let (done_s, done_r) = bounded(10);
    let (request_s, request_r) = bounded(10);
    let mut run = rep(ready_r, &done_s, &request_s);
    let a = Script::new("a", &log);
    let b = Script::new("b", &log);
    let slow = a.ready.clone();
    slow.borrow_mut().push_back(Poll::Pending);
    a.flush.borrow_mut().push_back(Poll::Pending);
    a.next.borrow_mut().push_back(Poll::Ready(Some(Ok(1))));
    b.next.borrow_mut().push_back(Poll::Ready(Some(Ok(2))));
    assert!(ready_s.try_send(a).is_ok());
    assert!(ready_s.try_send(b).is_ok());
    assert_eq!(reply_on(&mut run), Poll::Pending);
    let (request, promise) = request_r.try_recv().unwrap();
    assert_eq!(request, 1);
    assert!(request_r.try_recv().is_err());
    promise.resolve(10);
    assert_eq!(reply_on(&mut run), Poll::Pending);
    assert!(taken(&log).is_empty());
    assert_eq!(reply_on(&mut run), Poll::Pending);
    assert_eq!(taken(&log), ["a takes 10"]);
    assert!(request_r.try_recv().is_err());
    assert_eq!(reply_on(&mut run), Poll::Pending);
    assert_eq!(taken(&log), ["a sent"]);
    let (request, promise) = request_r.try_recv().unwrap();
    assert_eq!(request, 2);
    promise.resolve(20);
    assert_eq!(reply_on(&mut run), Poll::Pending);
    assert_eq!(taken(&log), ["b takes 20", "b sent"]);
    assert!(done_r.try_recv().is_err());
}

#[test]
fn a_stream_without_a_reply_is_closed_and_reported() {
    let log = Log::default();
    let (ready_s, ready_r) = bounded(10);
    let (done_s, done_r) = bounded(1);
    let (request_s, request_r) = bounded(10);
    let mut run = rep(ready_r, &done_s, &request_s);
    let mut a = Script::new("a", &log);
    a.close.push_back(Poll::Pending);
    a.close.push_back(Poll::Ready(Err("late")));
    let b = Script::new("b", &log);
    let mut c = Script::new("c", &log);
    c.send.push_back(Err("refused"));
    for (stream, msg) in [(&a, 1), (&b, 2), (&c, 3)] {
        stream.next.borrow_mut().push_back(Poll::Ready(Some(Ok(msg))));
    }
    b.flush.borrow_mut().push_back(Poll::Ready(Err("stuck")));
    for stream in [a, b, c] {
        assert!(ready_s.try_send(stream).is_ok());
    }
    drop(ready_s);
    assert_eq!(reply_on(&mut run), Poll::Pending);
    drop(request_r.try_recv());
    assert_eq!(reply_on(&mut run), Poll::Pending);
    assert_eq!(taken(&log), ["a closes"]);
    assert_eq!(reply_on(&mut run), Poll::Pending);
    assert_eq!(taken(&log), ["a closes"]);
    let (request, promise) = request_r.try_recv().unwrap();
    assert_eq!(request, 2);
    promise.resolve(20);
    assert_eq!(reply_on(&mut run), Poll::Pending);
    assert_eq!(taken(&log), ["b takes 20"]);
    assert!(request_r.try_recv().is_err());
    assert_eq!(done_r.try_recv(), Ok(Some("late")));
    assert_eq!(reply_on(&mut run), Poll::Pending);
    assert_eq!(done_r.try_recv(), Ok(Some("stuck")));
    let (request, promise) = request_r.try_recv().unwrap();
    assert_eq!(request, 3);
    promise.resolve(30);
    assert_eq!(reply_on(&mut run), Poll::Ready(()));
    assert_eq!(taken(&log), ["c takes 30"]);
    assert_eq!(done_r.try_recv(), Ok(Some("refused")));
    assert!(done_r.try_recv().is_err());
}

#[test]
fn streams_that_end_are_reported_while_replying() {
    let log = Log::default();
    let (ready_s, ready_r) = bounded(10);
    let (done_s, done_r) = bounded(10);
    let (request_s, request_r) = bounded::<(i32, QPromise<i32>)>(10);
    let mut run = rep(ready_r, &done_s, &request_s);
    let ended = Script::new("a", &log);
    ended.next.borrow_mut().push_back(Poll::Ready(None));
    let broken = Script::new("b", &log);
    broken.next.borrow_mut().push_back(Poll::Ready(Some(Err("broken"))));
    let unready = Script::new("c", &log);
    unready.next.borrow_mut().push_back(Poll::Ready(Some(Ok(1))));
    unready.ready.borrow_mut().push_back(Poll::Ready(Err("not ready")));
    for stream in [ended, broken, unready] {
        assert!(ready_s.try_send(stream).is_ok());
    }
    drop(ready_s);
    assert_eq!(reply_on(&mut run), Poll::Pending);
    request_r.try_recv().unwrap().1.resolve(1);
    assert_eq!(reply_on(&mut run), Poll::Ready(()));
    for done in [None, Some("broken"), Some("not ready")] {
        assert_eq!(done_r.try_recv(), Ok(done));
    }
    assert!(done_r.try_recv().is_err());
}

#[test]
fn messages_are_handed_on_one_at_a_time() {
    let log = Log::default();
    let (ready_s, ready_r) = bounded(10);
    let (done_s, done_r) = bounded(10);
    let (msg_s, msg_r) = unbounded();
    let mut run = stream_patterns::sub_impl::sub(ready_r, done_s, &msg_s);
    let stream = Script::new("a", &log);
    for msg in 1..=2 {
        stream.next.borrow_mut().push_back(Poll::Ready(Some(Ok(msg))));
    }
    stream.next.borrow_mut().push_back(Poll::Ready(Some(Err("broken"))));
    assert!(ready_s.try_send(stream).is_ok());
    assert_eq!(receive_on(&mut run), Poll::Pending);
    let (msg, promise) = msg_r.try_recv().unwrap();
    assert_eq!(msg, 1);
    assert!(msg_r.try_recv().is_err());
    promise.done();
    assert_eq!(receive_on(&mut run), Poll::Pending);
    let (msg, promise) = msg_r.try_recv().unwrap();
    assert_eq!(msg, 2);
    promise.done();
    assert_eq!(receive_on(&mut run), Poll::Pending);
    assert_eq!(receive_on(&mut run), Poll::Pending);
    assert_eq!(done_r.try_recv(), Ok(Some("broken")));
    drop(ready_s);
    assert_eq!(receive_on(&mut run), Poll::Ready(()));
    assert!(done_r.try_recv().is_err());
}

#[test]
fn a_message_that_is_not_wanted_ends_it() {
    let log = Log::default();
    let (ready_s, ready_r) = bounded(10);
    let (done_s, done_r) = bounded(10);
    let (msg_s, msg_r) = unbounded();
    let mut run = stream_patterns::sub_impl::sub(ready_r, done_s, &msg_s);
    let stream = Script::new("a", &log);
    stream.next.borrow_mut().push_back(Poll::Ready(Some(Ok(1))));
    assert!(ready_s.try_send(stream).is_ok());
    assert_eq!(receive_on(&mut run), Poll::Pending);
    drop(msg_r.try_recv());
    assert_eq!(receive_on(&mut run), Poll::Ready(()));
    assert_eq!(taken(&log), ["a closes"]);
    assert_eq!(done_r.try_recv(), Ok(None));
    assert!(done_r.try_recv().is_err());
}

struct Alarm(AtomicUsize);

impl Wake for Alarm {
    fn wake(self: Arc<Self>) {
        self.0.fetch_add(1, Ordering::SeqCst);
    }
}

fn alarm() -> (Arc<Alarm>, Waker) {
    let alarm = Arc::new(Alarm(AtomicUsize::new(0)));
    (alarm.clone(), Waker::from(alarm))
}

#[test]
fn a_pusher_at_rest_wakes_when_a_stream_joins() {
    let log = Log::default();
    let (ready_s, ready_r) = bounded(10);
    let (done_s, done_r) = bounded(10);
    let (msg_s, msg_r) = bounded(10);
    let mut run = push(ready_r, done_s, msg_r);
    for name in ["a", "b"] {
        assert!(ready_s.try_send(Script::new(name, &log)).is_ok());
    }
    let (alarm, waker) = alarm();
    let mut cx = Context::from_waker(&waker);
    assert!(go_on(&mut run, &mut cx).is_pending());
    assert!(ready_s.is_empty());
    assert_eq!(alarm.0.load(Ordering::SeqCst), 0);
    let gone = Script::new("c", &log);
    gone.next.borrow_mut().push_back(Poll::Ready(None));
    assert!(ready_s.try_send(gone).is_ok());
    assert!(alarm.0.load(Ordering::SeqCst) > 0);
    assert!(go_on(&mut run, &mut cx).is_pending());
    assert_eq!(done_r.try_recv(), Ok(None));
    let before = alarm.0.load(Ordering::SeqCst);
    assert!(msg_s.try_send((1, QPromise::ignore())).is_ok());
    assert!(alarm.0.load(Ordering::SeqCst) > before);
}

#[test]
fn a_requester_at_rest_wakes_when_a_stream_joins() {
    let log = Log::default();
    let (ready_s, ready_r) = bounded(10);
    let (done_s, _done_r) = bounded(10);
    let (request_s, request_r) = bounded(10);
    let mut run = req(ready_r, done_s, request_r);
    for name in ["a", "b"] {
        assert!(ready_s.try_send(Script::new(name, &log)).is_ok());
    }
    let (alarm, waker) = alarm();
    let mut cx = Context::from_waker(&waker);
    assert!(go_on(&mut run, &mut cx).is_pending());
    assert!(ready_s.is_empty());
    assert_eq!(alarm.0.load(Ordering::SeqCst), 0);
    assert!(ready_s.try_send(Script::new("c", &log)).is_ok());
    assert!(alarm.0.load(Ordering::SeqCst) > 0);
    drop(request_s);
}

#[test]
fn queued_streams_are_pushed_to_in_turn() {
    let log = Log::default();
    let (ready_s, ready_r) = bounded(10);
    let (done_s, _done_r) = bounded(10);
    let (msg_s, msg_r) = bounded(10);
    let mut run = push(ready_r, done_s, msg_r);
    for name in ["a", "b", "c"] {
        assert!(ready_s.try_send(Script::new(name, &log)).is_ok());
    }
    for msg in 0..4 {
        assert!(msg_s.try_send((msg, QPromise::ignore())).is_ok());
    }
    assert!(push_on(&mut run).is_pending());
    assert_eq!(
        log.borrow()
            .iter()
            .filter(|line| line.contains("takes"))
            .cloned()
            .collect::<Vec<String>>(),
        ["a takes 0", "b takes 1", "c takes 2", "a takes 3"]
    );
}

#[test]
fn a_message_that_is_not_delivered_is_not_acknowledged() {
    let (ready_s, ready_r) = bounded::<Script>(10);
    let (done_s, done_r) = bounded(10);
    let (msg_s, msg_r) = bounded(10);
    let mut run = push(ready_r, done_s, msg_r);
    ready_s.close();
    let (promise, mut future) = qpromise();
    assert!(msg_s.try_send((426, promise)).is_ok());
    assert!(push_on(&mut run).is_ready());
    assert_eq!(value(&mut future), Poll::Ready(Err(Error)));
    assert!(done_r.try_recv().is_err());
}
