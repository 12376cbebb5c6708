use std::task::{Context, Poll};

use async_channel::{bounded, unbounded};
use futures_util::FutureExt;
use stream_patterns::promise::{
    outcome, qpromise, Asker, Error, Jobs, QFuture, QPromise, QSender, Request, RequestSender,
};

fn idle() -> Context<'static> {
    Context::from_waker(futures_util::task::noop_waker_ref())
}

#[test]
fn a_value_goes_through_once() {
    let mut cx = idle();
    let (promise, mut future) = qpromise();
    assert_eq!(future.poll(&mut cx), Poll::Pending);
    promise.resolve(7);
    assert_eq!(future.poll(&mut cx), Poll::Ready(Ok(7)));
    assert_eq!(future.poll(&mut cx), Poll::Ready(Err(Error)));
}

#[test]
fn a_promise_that_is_dropped_is_an_error() {
    let mut cx = idle();
    let (promise, mut future) = qpromise::<i32>();
    drop(promise);
    assert_eq!(future.poll(&mut cx), Poll::Ready(Err(Error)));
    assert_eq!(Error.message(), "promise error");
}

#[test]
fn a_future_can_be_awaited() {
    let mut cx = idle();
    let (promise, future) = qpromise();
    let mut waiting = Box::pin(async move { future.wait().await });
    assert_eq!(waiting.poll_unpin(&mut cx), Poll::Pending);
    promise.resolve("done");
    assert_eq!(waiting.poll_unpin(&mut cx), Poll::Ready(Ok("done")));
}

#[test]
fn a_promise_without_a_value_is_done() {
    let mut cx = idle();
    let (promise, mut future) = qpromise::<()>();
    promise.done();
    assert_eq!(future.poll(&mut cx), Poll::Ready(Ok(())));
}

#[test]
fn a_promise_knows_when_nobody_waits() {
    let (promise, future) = qpromise::<i32>();
    assert!(!promise.is_closed());
    drop(future);
    assert!(promise.is_closed());
    promise.resolve(1);
    assert!(QPromise::<i32>::ignore().is_closed());
}

#[test]
fn ends_can_be_made_of_a_channel() {
    let mut cx = idle();
    let (sender, receiver) = unbounded();
    let first = QPromise::new(sender.clone());
    let second = QPromise::new(sender);
    let mut future = QFuture::new(receiver);
    first.resolve(1);
    second.resolve(2);
    assert_eq!(future.poll(&mut cx), Poll::Ready(Ok(1)));
    assert_eq!(future.poll(&mut cx), Poll::Ready(Ok(2)));
    assert_eq!(future.poll(&mut cx), Poll::Ready(Err(Error)));
}

#[test]
fn a_function_is_lifted_over_the_promise() {
    let mut cx = idle();
    let double = QPromise::<i32>::map(|x: i32| x * 2);
    let (promise, mut future) = qpromise();
    let (doubled, promise) = double((21, promise));
    assert_eq!(doubled, 42);
    promise.resolve(doubled);
    assert_eq!(future.poll(&mut cx), Poll::Ready(Ok(42)));
}

#[test]
fn what_a_future_makes_of_its_channel() {
    assert_eq!(outcome(Poll::Ready(Some(3))), Poll::Ready(Ok(3)));
    assert_eq!(outcome::<i32>(Poll::Ready(None)), Poll::Ready(Err(Error)));
    assert_eq!(outcome::<i32>(Poll::Pending), Poll::Pending);
}

#[test]
fn a_promise_that_is_owed_is_kept_or_dropped() {
    let mut cx = idle();
    let (sender, receiver) = bounded(2);
    let mut jobs = Jobs::new(receiver);
    let (promise, mut kept) = qpromise();
    assert!(sender.try_send((1, promise)).is_ok());
    let (promise, mut dropped) = qpromise::<i32>();
    assert!(sender.try_send((2, promise)).is_ok());
    match jobs.poll(&mut cx) {
        Poll::Ready(Some((1, owed))) => {
            assert_eq!(kept.poll(&mut cx), Poll::Pending);
            jobs.keep(owed, 5);
        }
        _ => panic!("no message"),
    }
    assert_eq!(kept.poll(&mut cx), Poll::Ready(Ok(5)));
    assert!(matches!(jobs.poll(&mut cx), Poll::Ready(Some((2, _)))));
    assert_eq!(dropped.poll(&mut cx), Poll::Ready(Err(Error)));
    assert!(jobs.poll(&mut cx).is_pending());
    drop(sender);
    assert!(matches!(jobs.poll(&mut cx), Poll::Ready(None)));
}

#[test]
fn what_is_asked_goes_out_once() {
    let mut cx = idle();
    let (sender, receiver): (QSender<i32, i32>, _) = bounded(4);
    let mut asker = Asker::new(&sender);
    let mut request = asker.ask(7);
    assert!(receiver.try_recv().is_err());
    assert_eq!(request.poll(&mut cx), Poll::Pending);
    let (msg, promise) = receiver.try_recv().unwrap();
    assert_eq!(msg, 7);
    assert!(receiver.try_recv().is_err());
    promise.resolve(8);
    assert_eq!(request.poll(&mut cx), Poll::Ready(Ok(8)));
}

#[test]
fn a_request_waits_for_room_then_for_the_reply() {
    let mut cx = idle();
    let (sender, receiver): (QSender<i32, i32>, _) = bounded(1);
    let mut first = sender.request(1);
    let mut second = Request::new(&sender, 2);
    assert_eq!(first.poll(&mut cx), Poll::Pending);
    assert_eq!(second.poll(&mut cx), Poll::Pending);
    let (msg, promise) = receiver.try_recv().unwrap();
    assert_eq!(msg, 1);
    assert!(receiver.try_recv().is_err());
    promise.resolve(10);
    assert_eq!(first.poll(&mut cx), Poll::Ready(Ok(10)));
    assert_eq!(second.poll(&mut cx), Poll::Pending);
    let (msg, promise) = receiver.try_recv().unwrap();
    assert_eq!(msg, 2);
    drop(promise);
    assert_eq!(second.poll(&mut cx), Poll::Ready(Err(Error)));
}

#[test]
fn a_request_is_refused_by_a_closed_channel() {
    let mut cx = idle();
    let (sender, receiver): (QSender<i32, i32>, _) = bounded(1);
    drop(receiver);
    let mut request = sender.request(1);
    assert_eq!(request.poll_unpin(&mut cx), Poll::Ready(Err(Error)));
}
