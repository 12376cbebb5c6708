use std::task::{Context, Poll};

use futures_util::FutureExt;
use rand::rngs::StdRng;
use rand::{RngCore, SeedableRng};
use stream_patterns::fuzzer::{Dice, Local, PopSet, Runner, TestError};
use stream_patterns::stream::PatternStream;

fn idle() -> Context<'static> {
    Context::from_waker(futures_util::task::noop_waker_ref())
}

fn settle<T>(runner: &mut Runner, mut poll: impl FnMut() -> Poll<T>) -> T {
    loop {
        match poll() {
            Poll::Ready(value) => return value,
            Poll::Pending => assert!(runner.step()),
        }
    }
}

#[test]
fn each_value_comes_out_once() {
    for seed in 0..50 {
        let mut set = PopSet::new(seed);
        assert_eq!(set.pop(), None);
        for value in 0..20 {
            set.push(value);
        }
        let mut values: Vec<i32> = std::iter::from_fn(|| set.pop()).collect();
        assert_eq!(set.pop(), None);
        values.sort();
        assert_eq!(values, (0..20).collect::<Vec<i32>>());
    }
}

#[test]
fn the_seed_decides_the_order() {
    let order = |seed: u64| {
        let mut set = PopSet::new(seed);
        for value in 0..20 {
            set.push(value);
        }
        std::iter::from_fn(|| set.pop()).collect::<Vec<i32>>()
    };
    assert_eq!(order(1), order(1));
    assert_ne!(order(1), order(2));
    assert_ne!(order(1), (0..20).collect::<Vec<i32>>());
}

#[test]
fn places_are_taken_and_dropped() {
    let mut set = PopSet::new(0);
    set.push('a');
    set.push('b');
    set.push('c');
    assert_eq!(set.take_at(1), Some('b'));
    assert_eq!(set.take_at(1), None);
    set.compact();
    assert_eq!(set.take_at(1), Some('c'));
    assert_eq!(set.take_at(0), Some('a'));
    assert_eq!(set.pop(), None);
}

#[test]
fn dice_are_fair_enough() {
    let mut dice = Dice::new(3);
    let heads = (0..1000).filter(|_| dice.coin()).count();
    assert!(heads > 400 && heads < 600);
    for end in 1..100 {
        assert!(dice.below(end) < end);
    }
    let mut seen = [false; 6];
    for _ in 0..200 {
        seen[dice.below(6)] = true;
    }
    assert_eq!(seen, [true; 6]);
    let mut first = Dice::new(3).fork();
    let mut second = Dice::new(3).fork();
    assert_eq!(
        (0..64).map(|_| first.coin()).collect::<Vec<bool>>(),
        (0..64).map(|_| second.coin()).collect::<Vec<bool>>()
    );
}

#[test]
fn a_runner_without_delays_has_nothing_to_do() {
    let mut runner = Runner::new(0);
    assert!(!runner.step());
}

#[test]
fn an_event_comes_after_its_delays() {
    let mut cx = idle();
    let mut held = 0;
    for seed in 0..100 {
        let mut runner = Runner::new(seed);
        let mut event = runner.event();
        if event.poll(&mut cx).is_pending() {
            held += 1;
            assert!(event.poll(&mut cx).is_pending());
            assert!(event.poll_unpin(&mut cx).is_pending());
        }
        settle(&mut runner, || event.poll(&mut cx));
        while runner.step() {}
    }
    assert!(held > 20 && held < 80);
}

#[test]
fn an_event_without_a_runner_comes_at_once() {
    let mut cx = idle();
    for seed in 0..20 {
        let mut runner = Runner::new(seed);
        let mut event = runner.event();
        drop(runner);
        assert_eq!(event.poll(&mut cx), Poll::Ready(()));
    }
}

#[test]
fn messages_go_both_ways() {
    let mut cx = idle();
    for seed in 0..100 {
        let mut runner = Runner::new(seed);
        let (mut local, remote): (Local<i32>, _) = runner.channel();
        assert_eq!(remote.recv(), None);
        assert_eq!(settle(&mut runner, || local.poll_ready(&mut cx)), Ok(()));
        assert_eq!(local.start_send(1), Ok(()));
        assert_eq!(settle(&mut runner, || local.poll_flush(&mut cx)), Ok(()));
        assert_eq!(remote.recv(), Some(1));
        assert_eq!(remote.recv(), None);
        remote.send(2);
        assert_eq!(settle(&mut runner, || local.poll_next(&mut cx)), Some(Ok(2)));
        drop(remote);
        assert_eq!(settle(&mut runner, || local.poll_next(&mut cx)), None);
        assert_eq!(local.start_send(3), Err(TestError::Closed));
    }
}

#[test]
fn a_closed_stream_takes_nothing() {
    let mut cx = idle();
    for seed in 0..100 {
        let mut runner = Runner::new(seed);
        let (mut local, remote): (Local<i32>, _) = runner.channel();
        assert_eq!(settle(&mut runner, || local.poll_close(&mut cx)), Ok(()));
        assert_eq!(
            settle(&mut runner, || local.poll_ready(&mut cx)),
            Err(TestError::Closed)
        );
        assert_eq!(local.start_send(1), Err(TestError::Closed));
        assert_eq!(remote.recv(), None);
        assert_eq!(settle(&mut runner, || local.poll_flush(&mut cx)), Ok(()));
    }
}

#[test]
fn dice_toss_what_the_generator_draws() {
    let mut dice = Dice::new(5);
    let mut rng = StdRng::seed_from_u64(5);
    let mut heads = 0;
    for _ in 0..200 {
        let word = rng.next_u64();
        let coin = dice.coin();
        assert_eq!(coin, word < 1 << 63);
        heads += usize::from(coin);
    }
    assert!(heads > 50 && heads < 150);
    let mut fork = dice.fork();
    let mut other = StdRng::seed_from_u64(rng.next_u64());
    for _ in 0..200 {
        assert_eq!(fork.coin(), other.next_u64() < 1 << 63);
    }
    assert_eq!(dice.coin(), rng.next_u64() < 1 << 63);
}

#[test]
fn forks_of_one_generator_differ() {
    let mut dice = Dice::new(8);
    let (mut one, mut other) = (dice.fork(), dice.fork());
    let tosses = |dice: &mut Dice| (0..64).map(|_| dice.coin()).collect::<Vec<bool>>();
    assert_ne!(tosses(&mut one), tosses(&mut other));
}

#[test]
fn runners_of_one_seed_hold_up_alike() {
    let run = |seed: u64| {
        let mut cx = idle();
        let mut runner = Runner::new(seed);
        let mut answers = Vec::new();
        for _ in 0..64 {
            let mut event = runner.event();
            answers.push(event.poll(&mut cx).is_pending());
        }
        answers
    };
    assert_eq!(run(9), run(9));
    assert_ne!(run(9), run(10));
}

#[test]
fn empty_places_are_passed_over() {
    for seed in 0..20 {
        let mut set = PopSet::new(seed);
        for value in [6, 7, 8] {
            set.push(value);
        }
        assert_eq!(set.take_at(0), Some(6));
        assert_eq!(set.take_at(2), Some(8));
        assert_eq!(set.pop(), Some(7));
        assert_eq!(set.pop(), None);
        set.push(9);
        assert_eq!(set.take_at(0), Some(9));
    }
}
