//! In which order streams take turns, over any number of calls.
//!
//! Whoever gets in line draws the next number: a stream that joins, and one that was handed out and
//! comes back. The laws say that numbers are served in order.
use crate::push_stream::{stay, waiting, Chain, Key, Round, Turn, Visit, Waiting};
use crate::stream::{Done, PatternStream, Peer};
use crate::task::Step;
use vstd::arithmetic::div_mod::{lemma_mod_add_multiples_vanish, lemma_small_mod};
use vstd::prelude::*;

verus! {

/// One thing that happens to a line.
#[verifier::reject_recursive_types(S)]
pub enum Move<S: PatternStream> {
    /// It is polled, and this comes of it.
    Look(Round<S>, Step<Option<(Peer<S>, Key)>>),
    /// The stream that was handed out comes back, and then the turn.
    Back(Peer<S>),
    /// The stream that was handed out is gone, this is reported, and the turn comes back.
    Gone(Seq<Done<S>>),
}

/// A line, with the number that each stream in it has drawn.
#[verifier::reject_recursive_types(S)]
pub struct Line<S: PatternStream> {
    /// The line.
    pub chain: Chain<S>,
    /// The numbers of those in line, the first one first.
    pub numbers: Seq<int>,
    /// The number that is drawn next.
    pub next: int,
}

/// The numbers of those that stay in line after these visits, if the turn stood like this.
pub open spec fn staying<S: PatternStream>(
    visits: Seq<Visit<S>>,
    turn: Turn,
    numbers: Seq<int>,
) -> Seq<int>
    decreases visits.len(),
{
    if visits.len() == 0 {
        Seq::empty()
    } else {
        let before = staying(visits.drop_last(), turn, numbers);
        let at = if stay(visits.drop_last(), turn).len() == 0 {
            turn
        } else {
            Turn::Held
        };
        match waiting(visits.last().answer, at) {
            Waiting::Pending | Waiting::Again => before.push(numbers[visits.len() - 1]),
            Waiting::Ended | Waiting::Dropped | Waiting::Unlocked => before,
        }
    }
}

/// Each of these is smaller than those behind it.
pub open spec fn rising(numbers: Seq<int>) -> bool {
    forall|i: int, j: int| 0 <= i < j < numbers.len() ==> numbers[i] < numbers[j]
}

/// All of these are below `bound`.
pub open spec fn all_below(numbers: Seq<int>, bound: int) -> bool {
    forall|i: int| 0 <= i < numbers.len() ==> #[trigger] numbers[i] < bound
}

/// All of these are above `bound`.
pub open spec fn all_above(numbers: Seq<int>, bound: int) -> bool {
    forall|i: int| 0 <= i < numbers.len() ==> bound < #[trigger] numbers[i]
}

/// Those that stay keep their order.
proof fn staying_rises<S: PatternStream>(visits: Seq<Visit<S>>, turn: Turn, numbers: Seq<int>)
    requires
        visits.len() <= numbers.len(),
        rising(numbers),
    ensures
        staying(visits, turn, numbers).len() == stay(visits, turn).len(),
        rising(staying(visits, turn, numbers)),
        visits.len() < numbers.len() ==> all_below(
            staying(visits, turn, numbers),
            numbers[visits.len() as int],
        ),
        forall|bound: int| #[trigger]
            all_below(numbers, bound) ==> all_below(staying(visits, turn, numbers), bound),
        forall|bound: int| #[trigger]
            all_above(numbers, bound) ==> all_above(staying(visits, turn, numbers), bound),
    decreases visits.len(),
{
    if visits.len() > 0 {
        staying_rises(visits.drop_last(), turn, numbers);
    }
}

impl<S: PatternStream> Line<S> {
    /// Each stream in line has a number, those behind a later one, and none was drawn twice.
    pub open spec fn ordered(self) -> bool {
        &&& self.numbers.len() == self.chain.members.len()
        &&& rising(self.numbers)
        &&& all_below(self.numbers, self.next)
    }

    /// `after` is what becomes of the line.
    pub open spec fn moved(self, by: Move<S>, after: Self) -> bool {
        match by {
            Move::Look(round, step) => {
                &&& self.chain.polled(round, step, after.chain)
                &&& if round.joined.len() > 0 {
                    &&& after.numbers == self.numbers.push(self.next)
                    &&& after.next == self.next + 1
                } else {
                    &&& after.numbers == match step {
                        Step::Ready(Some(_)) => self.numbers.skip(round.visits.len() as int),
                        _ => staying(round.visits, self.chain.turn, self.numbers)
                            + self.numbers.skip(round.visits.len() as int),
                    }
                    &&& after.next == self.next
                }
            },
            Move::Back(peer) => {
                &&& after.chain == Chain {
                    members: self.chain.members.push(peer),
                    turn: self.chain.turn.given_back(),
                    ..self.chain
                }
                &&& after.numbers == self.numbers.push(self.next)
                &&& after.next == self.next + 1
            },
            Move::Gone(reports) => {
                &&& self.chain.gave_back(reports, after.chain)
                &&& after.numbers == self.numbers
                &&& after.next == self.next
            },
        }
    }

    /// The number that is served: that of the stream that is handed out.
    pub open spec fn served(self, by: Move<S>) -> Option<int> {
        match by {
            Move::Look(round, Step::Ready(Some(_))) => Some(self.numbers[round.visits.len() - 1]),
            _ => None,
        }
    }
}

/// **The smallest number is served.** Whatever happens, those in line stay in order; and who is handed
/// out has a smaller number than all that are left in line, or will ever get in line again.
pub proof fn smallest_is_served<S: PatternStream>(line: Line<S>, by: Move<S>, after: Line<S>)
    requires
        line.ordered(),
        line.moved(by, after),
    ensures
        after.ordered(),
        line.next <= after.next,
        forall|bound: int| #[trigger]
            all_above(line.numbers, bound) && bound < line.next ==> all_above(after.numbers, bound),
        line.served(by) matches Some(number) ==> all_above(after.numbers, number) && number
            < after.next,
{
    match by {
        Move::Look(round, step) => {
            assert(line.chain.members + Seq::empty() =~= line.chain.members);
            if round.joined.len() == 0 {
                assert(line.chain.members + round.joined =~= line.chain.members);
                staying_rises(round.visits, line.chain.turn, line.numbers);
                assert(all_below(line.numbers, line.next));
                let n = round.visits.len() as int;
                let first = staying(round.visits, line.chain.turn, line.numbers);
                if !(step matches Step::Ready(Some(_))) {
                    assert forall|i: int, j: int|
                        0 <= i < j < after.numbers.len() implies after.numbers[i]
                        < after.numbers[j] by {
                        if i < first.len() && j >= first.len() {
                            assert(first[i] < line.numbers[n]);
                            assert(after.numbers[j] == line.numbers[n + j - first.len()]);
                        }
                    }
                }
            }
        },
        _ => {},
    }
}

/// These are what becomes of a line, one thing after the other.
pub open spec fn goes_on<S: PatternStream>(lines: Seq<Line<S>>, moves: Seq<Move<S>>) -> bool {
    &&& lines.len() == moves.len() + 1
    &&& forall|i: int| #![trigger moves[i]]
        0 <= i < moves.len() ==> lines[i].moved(moves[i], lines[i + 1])
}

/// From its start on a line stays in order.
proof fn stays_ordered<S: PatternStream>(lines: Seq<Line<S>>, moves: Seq<Move<S>>, k: int)
    requires
        goes_on(lines, moves),
        lines[0].ordered(),
        0 <= k < lines.len(),
    ensures
        lines[k].ordered(),
    decreases k,
{
    if k > 0 {
        stays_ordered(lines, moves, k - 1);
        assert(lines[k - 1].moved(moves[k - 1], lines[k]));
        smallest_is_served(lines[k - 1], moves[k - 1], lines[k]);
    }
}

/// What was served stays behind.
proof fn served_stays_behind<S: PatternStream>(
    lines: Seq<Line<S>>,
    moves: Seq<Move<S>>,
    i: int,
    k: int,
)
    requires
        goes_on(lines, moves),
        lines[0].ordered(),
        0 <= i < k < lines.len(),
        lines[i].served(moves[i]) is Some,
    ensures
        all_above(lines[k].numbers, lines[i].served(moves[i]).unwrap()),
        lines[i].served(moves[i]).unwrap() < lines[k].next,
    decreases k,
{
    let number = lines[i].served(moves[i]).unwrap();
    stays_ordered(lines, moves, k - 1);
    assert(lines[k - 1].moved(moves[k - 1], lines[k]));
    smallest_is_served(lines[k - 1], moves[k - 1], lines[k]);
    if i < k - 1 {
        served_stays_behind(lines, moves, i, k - 1);
        assert(all_above(lines[k - 1].numbers, number));
    }
}

/// **Turns go in order.** Streams are handed out by number, over any number of calls. A stream that
/// comes back draws a number behind all that are in line, so it is not handed out again before each of
/// them had its turn or is gone.
pub proof fn turns_go_in_order<S: PatternStream>(
    lines: Seq<Line<S>>,
    moves: Seq<Move<S>>,
    i: int,
    j: int,
)
    requires
        goes_on(lines, moves),
        lines[0].ordered(),
        0 <= i < j < moves.len(),
        lines[i].served(moves[i]) is Some,
        lines[j].served(moves[j]) is Some,
    ensures
        lines[i].served(moves[i]).unwrap() < lines[j].served(moves[j]).unwrap(),
{
    served_stays_behind(lines, moves, i, j);
    stays_ordered(lines, moves, j);
    assert(lines[j].moved(moves[j], lines[j + 1]));
    match moves[j] {
        Move::Look(round, _) => {
            assert(lines[j].chain.members + round.joined =~= lines[j].chain.members);
        },
        _ => {},
    }
}

/// `peer` was handed out, while no stream in line was found gone, and came back.
pub open spec fn took_turn<S: PatternStream>(before: Chain<S>, peer: Peer<S>, after: Chain<S>) -> bool {
    exists|round: Round<S>, key: Key, mid: Chain<S>| #[trigger]
        before.polled(round, Step::Ready(Some((peer, key))), mid) && round.visits.len() == 1 && (
        exists|back: Peer<S>|
            back.origin() == peer.origin() && after.members == #[trigger] mid.members.push(back))
}

/// Streams took turns like this.
pub open spec fn took_turns<S: PatternStream>(chains: Seq<Chain<S>>, peers: Seq<Peer<S>>) -> bool {
    &&& chains.len() == peers.len() + 1
    &&& forall|k: int| #![trigger peers[k]]
        0 <= k < peers.len() ==> took_turn(chains[k], peers[k], chains[k + 1])
}

/// The line after so many turns is the line at first, turned by as many places.
proof fn line_turns<S: PatternStream>(chains: Seq<Chain<S>>, peers: Seq<Peer<S>>, k: int, i: int)
    requires
        took_turns(chains, peers),
        0 <= k < chains.len(),
        0 <= i < chains[0].members.len(),
    ensures
        chains[k].members.len() == chains[0].members.len(),
        chains[k].members[i].origin() == chains[0].members[(k + i) % (
        chains[0].members.len() as int)].origin(),
    decreases k,
{
    let n = chains[0].members.len() as int;
    if k == 0 {
        lemma_small_mod(i as nat, n as nat);
    } else {
        line_turns(chains, peers, k - 1, 0);
        assert(took_turn(chains[k - 1], peers[k - 1], chains[k]));
        let (round, key, mid) = choose|round: Round<S>, key: Key, mid: Chain<S>| #[trigger]
            chains[k - 1].polled(round, Step::Ready(Some((peers[k - 1], key))), mid)
                && round.visits.len() == 1 && (exists|back: Peer<S>|
                back.origin() == peers[k - 1].origin() && chains[k].members
                    == #[trigger] mid.members.push(back));
        assert(chains[k - 1].members + round.joined =~= chains[k - 1].members);
        if i < n - 1 {
            line_turns(chains, peers, k - 1, i + 1);
        } else {
            lemma_mod_add_multiples_vanish(k - 1, n);
        }
    }
}

/// **Round robin.** While the streams in line stay the same, they are handed out one after the other
/// in line order, and then from the first again.
pub proof fn round_robin<S: PatternStream>(chains: Seq<Chain<S>>, peers: Seq<Peer<S>>, k: int)
    requires
        took_turns(chains, peers),
        0 <= k < peers.len(),
    ensures
        chains[0].members.len() > 0,
        peers[k].origin() == chains[0].members[k % (chains[0].members.len() as int)].origin(),
{
    assert(took_turn(chains[0], peers[0], chains[1]));
    let (round, key, mid) = choose|round: Round<S>, key: Key, mid: Chain<S>| #[trigger]
        chains[0].polled(round, Step::Ready(Some((peers[0], key))), mid) && round.visits.len() == 1;
    assert(chains[0].members + round.joined =~= chains[0].members);
    line_turns(chains, peers, k, 0);
    assert(took_turn(chains[k], peers[k], chains[k + 1]));
    let (round, key, mid) = choose|round: Round<S>, key: Key, mid: Chain<S>| #[trigger]
        chains[k].polled(round, Step::Ready(Some((peers[k], key))), mid) && round.visits.len() == 1;
    assert(chains[k].members + round.joined =~= chains[k].members);
}

} // verus!
