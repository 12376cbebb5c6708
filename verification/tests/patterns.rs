use std::task::{Context, Poll};

use async_channel::bounded;
use futures_channel::mpsc::{channel, Receiver, SendError, Sender};
use futures_util::{FutureExt, StreamExt};
use stream_patterns::fuzzer::{Local, Runner};
use stream_patterns::promise::qpromise;
use stream_patterns::pub_impl::{publish, PubRun};
use stream_patterns::pull_impl::pull;
use stream_patterns::push_impl::{push, PushRun};
use stream_patterns::rep_impl::{rep, RepRun};
use stream_patterns::req_impl::{req, ReqRun};
use stream_patterns::stream::{PatternStream, ResultStream};
use stream_patterns::sub_impl::SubRun;
use stream_patterns::task::Step;

struct Channel<T> {
    sender: Sender<T>,
    receiver: Receiver<T>,
}

impl<T: Clone> ResultStream for Channel<T> {
    type Msg = T;
    type Err = SendError;
}

impl<T: Clone> PatternStream for Channel<T> {
    fn poll_next(&mut self, cx: &mut Context<'_>) -> Poll<Option<Result<T, SendError>>> {
        self.receiver.poll_next_unpin(cx).map(|o| o.map(Ok))
    }

    fn poll_ready(&mut self, cx: &mut Context<'_>) -> Poll<Result<(), SendError>> {
        self.sender.poll_ready(cx)
    }

    fn start_send(&mut self, msg: T) -> Result<(), SendError> {
        self.sender.start_send(msg)
    }

    fn poll_flush(&mut self, cx: &mut Context<'_>) -> Poll<Result<(), SendError>> {
        match self.sender.poll_ready(cx) {
            Poll::Ready(Err(ref e)) if e.is_disconnected() => Poll::Ready(Ok(())),
            poll => poll,
        }
    }

    fn poll_close(&mut self, _: &mut Context<'_>) -> Poll<Result<(), SendError>> {
        self.sender.disconnect();
        Poll::Ready(Ok(()))
    }
}

impl<T: Clone> Channel<T> {
    fn send(&mut self, msg: T, cx: &mut Context<'_>) -> Poll<Result<(), SendError>> {
        match self.poll_ready(cx) {
            Poll::Ready(Ok(())) => {}
            poll => return poll,
        }
        match self.start_send(msg) {
            Ok(()) => {}
            Err(e) => return Poll::Ready(Err(e)),
        }
        self.poll_flush(cx)
    }
}

fn channel_pair<T>(size: usize) -> (Channel<T>, Channel<T>) {
    let (sender0, receiver0) = channel(size);
    let (sender1, receiver1) = channel(size);
    (
        Channel {
            sender: sender0,
            receiver: receiver1,
        },
        Channel {
            sender: sender1,
            receiver: receiver0,
        },
    )
}

trait Run {
    fn once(&mut self, cx: &mut Context<'_>) -> Step<()>;

    fn drive(&mut self, cx: &mut Context<'_>) -> Poll<()> {
        loop {
            match self.once(cx) {
                Step::Ready(()) => return Poll::Ready(()),
                Step::Pending => return Poll::Pending,
                Step::Again => {}
            }
        }
    }

    fn pending_in(&mut self, runner: &mut Runner, rounds: usize, cx: &mut Context<'_>) {
        for _ in 0..rounds {
            assert!(self.drive(cx).is_pending());
            if !runner.step() {
                return;
            }
        }
    }

    fn ready_in(&mut self, runner: &mut Runner, rounds: usize, cx: &mut Context<'_>) {
        for _ in 0..rounds {
            if self.drive(cx).is_ready() {
                return;
            }
            assert!(runner.step());
        }
        panic!("not ready in {} rounds", rounds);
    }
}

impl<S: PatternStream> Run for PushRun<S> {
    fn once(&mut self, cx: &mut Context<'_>) -> Step<()> {
        self.poll(cx)
    }
}

impl<S: PatternStream> Run for PubRun<S> {
    fn once(&mut self, cx: &mut Context<'_>) -> Step<()> {
        self.poll(cx)
    }
}

impl<S: PatternStream> Run for ReqRun<S> {
    fn once(&mut self, cx: &mut Context<'_>) -> Step<()> {
        self.poll(cx)
    }
}

impl<S: PatternStream> Run for RepRun<'_, S> {
    fn once(&mut self, cx: &mut Context<'_>) -> Step<()> {
        self.poll(cx)
    }
}

impl<S: PatternStream> Run for SubRun<'_, S> {
    fn once(&mut self, cx: &mut Context<'_>) -> Step<()> {
        self.poll(cx)
    }
}

fn idle() -> Context<'static> {
    Context::from_waker(futures_util::task::noop_waker_ref())
}

#[test]
fn pub_two() {
    let (publisher0, mut subscriber0) = channel_pair(10);
    let (publisher1, mut subscriber1) = channel_pair(10);
    let (ready_s, ready_r) = bounded(10);
    let (done_s, done_r) = bounded(10);
    let (msg_s, msg_r) = bounded(10);
    let mut publishing = publish::<Channel<i32>>(ready_r, done_s, msg_r);
    let mut cx = idle();
    assert!(publishing.drive(&mut cx).is_pending());
    ready_s.try_send(publisher0).unwrap();
    ready_s.try_send(publisher1).unwrap();
    let (promise, future) = qpromise();
    msg_s.try_send((426, promise)).unwrap();
    msg_s.close();
    assert!(publishing.drive(&mut cx).is_ready());
    assert!(future.wait().poll_unpin(&mut cx).is_ready());
    assert!(done_r.try_recv().is_err());
    assert_eq!(
        subscriber0.poll_next(&mut cx),
        Poll::Ready(Some(Ok(426)))
    );
    assert_eq!(
        subscriber1.poll_next(&mut cx),
        Poll::Ready(Some(Ok(426)))
    );
}

#[test]
fn pull_one() {
    let (puller, mut pusher) = channel_pair(10);
    let (ready_s, ready_r) = bounded(10);
    let (done_s, done_r) = bounded(10);
    let (msg_s, msg_r) = bounded(10);
    let mut pulling = pull::<Channel<i32>>(ready_r, done_s, &msg_s);
    let mut cx = idle();
    assert!(pulling.drive(&mut cx).is_pending());
    ready_s.try_send(puller).unwrap();
    assert!(pusher.send(426, &mut cx).is_ready());
    assert!(pulling.drive(&mut cx).is_pending());
    let (msg, promise) = msg_r.try_recv().unwrap();
    assert_eq!(msg, 426);
    promise.done();
    ready_s.close();
    drop(pusher);
    assert!(pulling.drive(&mut cx).is_ready());
    assert!(done_r.try_recv().unwrap().is_none());
}

fn pull_one_seed(seed: u64) {
    let mut runner = Runner::new(seed);
    let (puller, pusher) = runner.channel();
    let (ready_s, ready_r) = bounded(10);
    let (done_s, done_r) = bounded(10);
    let (msg_s, msg_r) = bounded(10);
    let mut pulling = pull::<Local<i32>>(ready_r, done_s, &msg_s);
    let mut cx = idle();
    ready_s.try_send(puller).unwrap();
    pusher.send(426);
    pulling.pending_in(&mut runner, 100, &mut cx);
    let (msg, promise) = msg_r.try_recv().unwrap();
    assert_eq!(msg, 426);
    promise.done();
    ready_s.close();
    drop(pusher);
    pulling.ready_in(&mut runner, 100, &mut cx);
    assert!(done_r.try_recv().unwrap().is_none());
}

#[test]
fn pull_one_fuzz() {
    for i in 0..1000 {
        pull_one_seed(i);
    }
}

#[test]
fn push_one() {
    let (pusher, mut puller) = channel_pair(10);
    let (ready_s, ready_r) = bounded(10);
    let (done_s, done_r) = bounded(10);
    let (msg_s, msg_r) = bounded(10);
    let mut pushing = push::<Channel<i32>>(ready_r, done_s, msg_r);
    let mut cx = idle();
    assert!(pushing.drive(&mut cx).is_pending());
    ready_s.try_send(pusher).unwrap();
    let (promise, mut future) = qpromise();
    msg_s.try_send((426, promise)).unwrap();
    msg_s.close();
    assert!(pushing.drive(&mut cx).is_ready());
    assert!(future.poll_unpin(&mut cx).is_ready());
    assert!(done_r.try_recv().unwrap().is_none());
    assert!(done_r.try_recv().is_err());
    assert_eq!(puller.poll_next(&mut cx), Poll::Ready(Some(Ok(426))));
}

fn push_one_seed(seed: u64) {
    let mut runner = Runner::new(seed);
    let (pusher, puller) = runner.channel();
    let (ready_s, ready_r) = bounded(10);
    let (done_s, done_r) = bounded(10);
    let (msg_s, msg_r) = bounded(10);
    let mut pushing = push::<Local<i32>>(ready_r, done_s, msg_r);
    let mut cx = idle();
    ready_s.try_send(pusher).unwrap();
    let (promise, mut future) = qpromise();
    msg_s.try_send((426, promise)).unwrap();
    pushing.pending_in(&mut runner, 100, &mut cx);
    msg_s.close();
    pushing.ready_in(&mut runner, 100, &mut cx);
    assert!(future.poll_unpin(&mut cx).is_ready());
    assert!(done_r.try_recv().unwrap().is_none());
    assert!(done_r.try_recv().is_err());
    assert_eq!(puller.recv(), Some(426));
}

#[test]
fn push_one_fuzz() {
    for i in 0..1000 {
        push_one_seed(i);
    }
}

fn push_two_seed(seed: u64) {
    let mut runner = Runner::new(seed);
    let (pusher0, puller0) = runner.channel();
    let (pusher1, puller1) = runner.channel();
    let (ready_s, ready_r) = bounded(10);
    let (done_s, done_r) = bounded(10);
    let (msg_s, msg_r) = bounded(10);
    let mut pushing = push::<Local<i32>>(ready_r, done_s, msg_r);
    let mut cx = idle();
    ready_s.try_send(pusher0).unwrap();
    ready_s.try_send(pusher1).unwrap();
    let (promise0, mut future0) = qpromise();
    msg_s.try_send((426, promise0)).unwrap();
    let (promise1, mut future1) = qpromise();
    msg_s.try_send((426, promise1)).unwrap();
    pushing.pending_in(&mut runner, 100, &mut cx);
    msg_s.close();
    pushing.ready_in(&mut runner, 100, &mut cx);
    assert!(future0.poll_unpin(&mut cx).is_ready());
    assert!(future1.poll_unpin(&mut cx).is_ready());
    assert!(done_r.try_recv().unwrap().is_none());
    assert!(done_r.try_recv().unwrap().is_none());
    assert!(done_r.try_recv().is_err());
    assert_eq!(puller0.recv(), Some(426));
    assert_eq!(puller1.recv(), Some(426));
}

#[test]
fn push_two_fuzz() {
    for i in 0..1000 {
        push_two_seed(i);
    }
}

#[test]
fn rep_one() {
    let (replier, mut requester) = channel_pair(10);
    let (ready_s, ready_r) = bounded(10);
    let (done_s, done_r) = bounded(10);
    let (request_s, request_r) = bounded(10);
    let mut replying = rep::<Channel<i32>>(ready_r, &done_s, &request_s);
    let mut cx = idle();
    assert!(replying.drive(&mut cx).is_pending());
    ready_s.try_send(replier).unwrap();
    assert!(requester.send(426, &mut cx).is_ready());
    assert!(replying.drive(&mut cx).is_pending());
    let (request, promise) = request_r.try_recv().unwrap();
    promise.resolve(request - 210);
    ready_s.close();
    assert!(replying.drive(&mut cx).is_pending());
    assert_eq!(
        requester.poll_next(&mut cx),
        Poll::Ready(Some(Ok(216)))
    );
    drop(requester);
    assert!(replying.drive(&mut cx).is_ready());
    assert!(done_r.try_recv().unwrap().is_none());
}

fn rep_one_seed(seed: u64) {
    let mut runner = Runner::new(seed);
    let (replier, requester) = runner.channel();
    let (ready_s, ready_r) = bounded(10);
    let (done_s, done_r) = bounded(10);
    let (request_s, request_r) = bounded(10);
    let mut replying = rep::<Local<i32>>(ready_r, &done_s, &request_s);
    let mut cx = idle();
    ready_s.try_send(replier).unwrap();
    requester.send(426);
    replying.pending_in(&mut runner, 100, &mut cx);
    let (request, promise) = request_r.try_recv().unwrap();
    promise.resolve(request - 210);
    ready_s.close();
    replying.pending_in(&mut runner, 100, &mut cx);
    assert_eq!(requester.recv(), Some(216));
    drop(requester);
    replying.ready_in(&mut runner, 100, &mut cx);
    assert!(done_r.try_recv().unwrap().is_none());
}

#[test]
fn rep_one_fuzz() {
    for i in 0..1000 {
        rep_one_seed(i);
    }
}

#[test]
fn req_one() {
    let (requester, mut replier) = channel_pair(10);
    let (ready_s, ready_r) = bounded(10);
    let (done_s, done_r) = bounded(10);
    let (request_s, request_r) = bounded(10);
    let mut requesting = req::<Channel<i32>>(ready_r, done_s, request_r);
    let mut cx = idle();
    assert!(requesting.drive(&mut cx).is_pending());
    ready_s.try_send(requester).unwrap();
    let (promise, future) = qpromise();
    request_s.try_send((426, promise)).unwrap();
    request_s.close();
    assert!(requesting.drive(&mut cx).is_pending());
    assert_eq!(replier.poll_next(&mut cx), Poll::Ready(Some(Ok(426))));
    assert!(replier.send(216, &mut cx).is_ready());
    assert!(requesting.drive(&mut cx).is_ready());
    assert_eq!(future.wait().poll_unpin(&mut cx), Poll::Ready(Ok(216)));
    assert!(done_r.try_recv().is_err());
}

fn req_one_seed(seed: u64) {
    let mut runner = Runner::new(seed);
    let (requester, replier) = runner.channel();
    let (ready_s, ready_r) = bounded(10);
    let (done_s, done_r) = bounded(10);
    let (request_s, request_r) = bounded(10);
    let mut requesting = req::<Local<i32>>(ready_r, done_s, request_r);
    let mut cx = idle();
    ready_s.try_send(requester).unwrap();
    let (promise, future) = qpromise();
    request_s.try_send((426, promise)).unwrap();
    request_s.close();
    requesting.pending_in(&mut runner, 100, &mut cx);
    assert_eq!(replier.recv(), Some(426));
    replier.send(216);
    requesting.ready_in(&mut runner, 100, &mut cx);
    assert_eq!(future.wait().poll_unpin(&mut cx), Poll::Ready(Ok(216)));
    assert!(done_r.try_recv().is_err());
}

#[test]
fn req_one_fuzz() {
    for i in 0..1000 {
        req_one_seed(i);
    }
}
