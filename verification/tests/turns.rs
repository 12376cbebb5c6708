use std::collections::VecDeque;
use std::task::{Context, Poll};

use async_channel::{bounded, unbounded};
use stream_patterns::owned_close::{CloseSet, OwnedClose};
use stream_patterns::push_stream::{Link, PushStreams, Turn, Unlock};
use stream_patterns::stream::{PatternStream, Peer, ResultStream};
use stream_patterns::task::Step;

fn idle() -> Context<'static> {
    Context::from_waker(futures_util::task::noop_waker_ref())
}

struct Script {
    name: &'static str,
    next: VecDeque<Poll<Option<Result<i32, &'static str>>>>,
    close: VecDeque<Poll<Result<(), &'static str>>>,
    sent: async_channel::Sender<(&'static str, i32)>,
}

impl ResultStream for Script {
    type Msg = i32;
    type Err = &'static str;
}

impl PatternStream for Script {
    fn poll_next(&mut self, _: &mut Context<'_>) -> Poll<Option<Result<i32, &'static str>>> {
        self.next.pop_front().unwrap_or(Poll::Pending)
    }

    fn poll_ready(&mut self, _: &mut Context<'_>) -> Poll<Result<(), &'static str>> {
        Poll::Ready(Ok(()))
    }

    fn start_send(&mut self, msg: i32) -> Result<(), &'static str> {
        self.sent.try_send((self.name, msg)).map_err(|_| "full")
    }

    fn poll_flush(&mut self, _: &mut Context<'_>) -> Poll<Result<(), &'static str>> {
        Poll::Ready(Ok(()))
    }

    fn poll_close(&mut self, _: &mut Context<'_>) -> Poll<Result<(), &'static str>> {
        self.close.pop_front().unwrap_or(Poll::Ready(Ok(())))
    }
}

type Sent = async_channel::Receiver<(&'static str, i32)>;

fn scripts(names: &[&'static str]) -> (Vec<Script>, Sent) {
    let (sent, log) = unbounded();
    let scripts = names
        .iter()
        .map(|name| Script {
            name,
            next: VecDeque::new(),
            close: VecDeque::new(),
            sent: sent.clone(),
        })
        .collect();
    (scripts, log)
}

fn name(peer: &mut Peer<Script>, log: &Sent) -> &'static str {
    assert!(peer.start_send(0).is_ok());
    log.try_recv().unwrap().0
}

fn poll(
    streams: &mut PushStreams<Script>,
    cx: &mut Context<'_>,
) -> Poll<Option<(Peer<Script>, stream_patterns::push_stream::Key)>> {
    loop {
        match streams.poll_next(cx) {
            Step::Ready(ready) => return Poll::Ready(ready),
            Step::Pending => return Poll::Pending,
            Step::Again => {}
        }
    }
}

#[test]
fn a_link_passes_the_turn_once() {
    let mut link = Link::Empty;
    assert!(link.receive() == Turn::Held);
    link.send(Unlock::Unlock);
    link.send(Unlock::Unlock);
    assert!(link.receive() == Turn::Free);
    assert!(link.receive() == Turn::Held);
    link.close();
    assert!(link.receive() == Turn::Lost);
    link.send(Unlock::Unlock);
    assert!(link.receive() == Turn::Lost);
}

#[test]
fn a_link_leads_on_to_another() {
    let mut link = Link::Empty;
    link.send(Unlock::Skip(Box::new(Link::Full(Unlock::Skip(Box::new(
        Link::Empty,
    ))))));
    assert!(link.receive() == Turn::Held);
    link.send(Unlock::Unlock);
    assert!(link.receive() == Turn::Free);
    let mut link = Link::Full(Unlock::Skip(Box::new(Link::Empty)));
    link.close();
    assert!(link.receive() == Turn::Lost);
    let mut link = Link::Full(Unlock::Unlock);
    link.close();
    assert!(link.receive() == Turn::Free);
}

#[test]
fn streams_take_turns() {
    let mut cx = idle();
    let (ready_s, ready_r) = bounded(10);
    let (done_s, done_r) = bounded(10);
    let mut streams = PushStreams::new(ready_r, done_s);
    assert!(poll(&mut streams, &mut cx).is_pending());
    let (all, log) = scripts(&["a", "b", "c"]);
    for stream in all {
        assert!(ready_s.try_send(stream).is_ok());
    }
    for expected in ["a", "b", "c", "a", "b"] {
        let (mut peer, key) = match poll(&mut streams, &mut cx) {
            Poll::Ready(Some(pair)) => pair,
            _ => panic!("nobody came"),
        };
        assert_eq!(name(&mut peer, &log), expected);
        assert!(poll(&mut streams, &mut cx).is_pending());
        streams.add(peer);
        assert!(poll(&mut streams, &mut cx).is_pending());
        streams.unlock(key);
    }
    assert!(done_r.try_recv().is_err());
}

#[test]
fn queued_streams_take_turns() {
    let mut cx = idle();
    let (ready_s, ready_r) = bounded(10);
    let (done_s, done_r) = bounded(10);
    let mut streams = PushStreams::new(ready_r, done_s);
    let (all, log) = scripts(&["a", "b", "c"]);
    for stream in all {
        assert!(ready_s.try_send(stream).is_ok());
    }
    for expected in ["a", "b", "c", "a", "b", "c", "a"] {
        let (mut peer, key) = match poll(&mut streams, &mut cx) {
            Poll::Ready(Some(pair)) => pair,
            _ => panic!("nobody came"),
        };
        assert_eq!(name(&mut peer, &log), expected);
        streams.add(peer);
        streams.unlock(key);
    }
    assert!(done_r.try_recv().is_err());
}

#[test]
fn all_that_are_queued_join_before_one_is_handed_out() {
    let mut cx = idle();
    let (ready_s, ready_r) = bounded(10);
    let (done_s, _done_r) = bounded(10);
    let mut streams = PushStreams::new(ready_r, done_s);
    let (all, log) = scripts(&["a", "b"]);
    for stream in all {
        assert!(ready_s.try_send(stream).is_ok());
    }
    assert!(matches!(streams.poll_next(&mut cx), Step::Again));
    assert_eq!(ready_s.len(), 1);
    assert!(matches!(streams.poll_next(&mut cx), Step::Again));
    assert_eq!(ready_s.len(), 0);
    match streams.poll_next(&mut cx) {
        Step::Ready(Some((mut peer, _key))) => assert_eq!(name(&mut peer, &log), "a"),
        _ => panic!("nobody came"),
    }
}

#[test]
fn a_turn_goes_on_without_one_that_is_gone() {
    let mut cx = idle();
    let (ready_s, ready_r) = bounded(10);
    let (done_s, done_r) = bounded(10);
    let mut streams = PushStreams::new(ready_r, done_s);
    let (mut all, log) = scripts(&["a", "b", "c"]);
    all[1].next.push_back(Poll::Pending);
    all[1].next.push_back(Poll::Pending);
    all[1].next.push_back(Poll::Ready(None));
    for stream in all {
        assert!(ready_s.try_send(stream).is_ok());
    }
    let mut order = String::new();
    for _ in 0..9 {
        let (mut peer, key) = match poll(&mut streams, &mut cx) {
            Poll::Ready(Some(pair)) => pair,
            _ => panic!("nobody came"),
        };
        order.push_str(name(&mut peer, &log));
        streams.add(peer);
        streams.unlock(key);
    }
    assert_eq!(order, "abcabcaca");
    assert_eq!(done_r.try_recv(), Ok(None));
}

#[test]
fn those_that_are_gone_are_passed_over() {
    let mut cx = idle();
    let (ready_s, ready_r) = bounded(10);
    let (done_s, done_r) = bounded(10);
    let mut streams = PushStreams::new(ready_r, done_s);
    let (mut all, log) = scripts(&["a", "b", "c", "d"]);
    all[0].next.push_back(Poll::Ready(Some(Ok(1))));
    all[0].next.push_back(Poll::Ready(Some(Err("broken"))));
    all[1].next.push_back(Poll::Ready(None));
    for stream in all {
        assert!(ready_s.try_send(stream).is_ok());
    }
    let (mut peer, key) = match poll(&mut streams, &mut cx) {
        Poll::Ready(Some(pair)) => pair,
        _ => panic!("nobody came"),
    };
    assert_eq!(name(&mut peer, &log), "c");
    assert_eq!(done_r.try_recv(), Ok(Some("broken")));
    assert_eq!(done_r.try_recv(), Ok(None));
    streams.done(Some("lost"));
    streams.unlock(key);
    assert_eq!(done_r.try_recv(), Ok(Some("lost")));
    let (mut peer, _key) = match poll(&mut streams, &mut cx) {
        Poll::Ready(Some(pair)) => pair,
        _ => panic!("nobody came"),
    };
    assert_eq!(name(&mut peer, &log), "d");
    drop(ready_s);
    assert!(matches!(poll(&mut streams, &mut cx), Poll::Ready(None)));
}

#[test]
fn a_turn_that_is_dropped_is_lost() {
    let mut cx = idle();
    let (ready_s, ready_r) = bounded(10);
    let (done_s, done_r) = bounded(10);
    let mut streams = PushStreams::new(ready_r, done_s);
    let (all, _log) = scripts(&["a", "b"]);
    for stream in all {
        assert!(ready_s.try_send(stream).is_ok());
    }
    match poll(&mut streams, &mut cx) {
        Poll::Ready(Some((_peer, key))) => streams.forsake(key),
        _ => panic!("nobody came"),
    }
    assert!(poll(&mut streams, &mut cx).is_pending());
    assert_eq!(streams.drain().len(), 0);
    assert!(done_r.try_recv().is_err());
}

#[test]
fn streams_are_taken_out_of_the_line() {
    let mut cx = idle();
    let (ready_s, ready_r) = bounded(10);
    let (done_s, _done_r) = bounded(10);
    let mut streams = PushStreams::new(ready_r, done_s);
    let (all, log) = scripts(&["a", "b", "c"]);
    for stream in all {
        assert!(ready_s.try_send(stream).is_ok());
    }
    let held = match poll(&mut streams, &mut cx) {
        Poll::Ready(Some((_peer, key))) => key,
        _ => panic!("nobody came"),
    };
    while let Step::Again = streams.poll_next(&mut cx) {}
    let mut peers = streams.drain();
    assert_eq!(peers.len(), 2);
    assert_eq!(name(&mut peers[0], &log), "b");
    assert_eq!(name(&mut peers[1], &log), "c");
    streams.unlock(held);
    assert!(poll(&mut streams, &mut cx).is_pending());
}

#[test]
fn streams_are_closed_as_they_get_ready() {
    let mut cx = idle();
    let (mut all, _log) = scripts(&["a", "b", "c"]);
    all[0].close.push_back(Poll::Pending);
    all[1].close.push_back(Poll::Ready(Err("stuck")));
    let mut set = CloseSet::new();
    assert!(set.is_empty());
    set.extend(all.into_iter().map(Peer::new).collect());
    assert!(!set.is_empty());
    assert_eq!(set.poll_next(&mut cx), Poll::Ready(Some(Err("stuck"))));
    assert_eq!(set.poll_next(&mut cx), Poll::Ready(Some(Ok(()))));
    assert_eq!(set.poll_next(&mut cx), Poll::Ready(Some(Ok(()))));
    assert_eq!(set.poll_next(&mut cx), Poll::Ready(None));
    let (mut all, _log) = scripts(&["a"]);
    all[0].close.push_back(Poll::Pending);
    let stream = all.remove(0);
    let mut closing = OwnedClose::new(Peer::new(stream));
    assert_eq!(closing.poll(&mut cx), Poll::Pending);
    assert_eq!(closing.poll(&mut cx), Poll::Ready(Ok(())));
}
