//! The bisection game: a challenger and a proposer narrow a disputed range
//! of leaves down to a single index.

use crate::aggregation::AggregateCommitment;
use crate::errors::ArchimedesError;
use crate::merkle::CommitmentMerkleTree;
use vstd::arithmetic::power2::{lemma_pow2_pos, lemma_pow2_unfold, pow2};
use vstd::prelude::*;

verus! {

/// How a finished game ended.
#[derive(Clone, Copy, Debug, PartialEq, Eq, Structural)]
pub enum DisputeResult {
    ProposerWins,
    ChallengerWins,
    Timeout,
}

/// Where the game stands.
#[derive(Clone, Copy, Debug, PartialEq, Eq, Structural)]
pub enum BisectionState {
    Initial,
    Challenged,
    BisectLeft,
    BisectRight,
    Resolve,
    Complete(DisputeResult),
}

/// The challenger's opening message.
#[derive(Clone, Copy, Debug)]
pub struct Challenge {
    pub challenger_id: [u8; 32],
    pub disputed_range: (usize, usize),
    pub claimed_aggregate: AggregateCommitment,
    pub timestamp: u64,
}

/// The proposer's answer for the current range: a midpoint and the
/// aggregates of the two halves.
#[derive(Clone, Copy, Debug)]
pub struct Response {
    pub proposer_id: [u8; 32],
    pub mid_index: usize,
    pub left_aggregate: AggregateCommitment,
    pub right_aggregate: AggregateCommitment,
    pub timestamp: u64,
}

/// One game over a tree.
#[derive(Debug)]
pub struct BisectionProtocol {
    pub state: BisectionState,
    pub tree: CommitmentMerkleTree,
    pub current_range: (usize, usize),
    pub challenge: Option<Challenge>,
    pub responses: Vec<Response>,
    pub round: usize,
    pub max_rounds: usize,
}

/// The game as the protocol's rules see it.
pub struct Game {
    pub state: BisectionState,
    pub lo: nat,
    pub hi: nat,
    pub mids: Seq<nat>,
    pub round: nat,
}

/// The least `k` with `n <= 2^k`.
pub open spec fn ceil_log2(n: nat) -> nat
    decreases n,
{
    if n <= 1 {
        0
    } else {
        1 + ceil_log2((n + 1) / 2)
    }
}

/// The bound on the rounds of a game over `n` leaves.
pub open spec fn round_bound(n: nat) -> nat {
    ceil_log2(n) + 1
}

/// Whether the game accepts responses and selections.
pub open spec fn is_active(state: BisectionState) -> bool {
    state is Challenged || state is BisectLeft || state is BisectRight
}

/// Whether the game has come to its end or to the single-step check.
pub open spec fn is_settled(state: BisectionState) -> bool {
    state is Resolve || state is Complete
}

/// The game after an accepted challenge over `[lo, hi)`.
pub open spec fn after_challenge(g: Game, lo: nat, hi: nat) -> Game {
    Game { state: BisectionState::Challenged, lo, hi, ..g }
}

/// The game after an accepted response with midpoint `mid`. A response whose
/// aggregates do not match the tree ends the game in favour of the
/// challenger; one that matches is recorded, and leads to the single-step
/// check when the range holds two leaves or fewer.
pub open spec fn after_response(g: Game, mid: nat, matches: bool) -> Game {
    if !matches {
        Game { state: BisectionState::Complete(DisputeResult::ChallengerWins), ..g }
    } else {
        Game {
            state: if g.hi - g.lo <= 2 {
                BisectionState::Resolve
            } else {
                g.state
            },
            mids: g.mids.push(mid),
            round: g.round + 1,
            ..g
        }
    }
}

/// The game after an accepted selection of a half of the range around the
/// last midpoint. A range of one leaf or none leads to the single-step check.
pub open spec fn after_selection(g: Game, go_left: bool) -> Game {
    let mid = g.mids.last();
    let lo = if go_left {
        g.lo
    } else {
        mid
    };
    let hi = if go_left {
        mid
    } else {
        g.hi
    };
    Game {
        state: if hi - lo <= 1 {
            BisectionState::Resolve
        } else if go_left {
            BisectionState::BisectLeft
        } else {
            BisectionState::BisectRight
        },
        lo,
        hi,
        ..g
    }
}

/// A message of the proposer or of the challenger, as the rules see it.
pub enum Move {
    /// A response with its midpoint, and whether its aggregates match the
    /// tree.
    Respond { mid: nat, matches: bool },
    /// The choice of a half of the range.
    Select { go_left: bool },
}

/// The game after a message. A message that the rules reject leaves the game
/// as it is.
pub open spec fn after_move(g: Game, m: Move) -> Game {
    match m {
        Move::Respond { mid, matches } => if is_active(g.state) && g.lo < mid < g.hi {
            after_response(g, mid, matches)
        } else {
            g
        },
        Move::Select { go_left } => if is_active(g.state) && g.mids.len() > 0 {
            after_selection(g, go_left)
        } else {
            g
        },
    }
}

/// The game after a sequence of messages.
pub open spec fn after_moves(g: Game, moves: Seq<Move>) -> Game
    decreases moves.len(),
{
    if moves.len() == 0 {
        g
    } else {
        after_move(after_moves(g, moves.drop_last()), moves.last())
    }
}

/// The midpoint of the current range.
pub open spec fn midpoint(g: Game) -> nat {
    g.lo + (g.hi - g.lo) as nat / 2
}

/// One round with a proposer who answers the midpoint with matching
/// aggregates: the response, then the challenger's choice.
pub open spec fn honest_round(g: Game, go_left: bool) -> Game {
    after_move(
        after_move(g, Move::Respond { mid: midpoint(g), matches: true }),
        Move::Select { go_left },
    )
}

/// The game after one such round for each of the challenger's choices.
pub open spec fn honest_rounds(g: Game, choices: Seq<bool>) -> Game
    decreases choices.len(),
{
    if choices.len() == 0 {
        g
    } else {
        honest_round(honest_rounds(g, choices.drop_last()), choices.last())
    }
}

/// Whether the challenger has won.
pub open spec fn challenger_won(state: BisectionState) -> bool {
    state == BisectionState::Complete(DisputeResult::ChallengerWins)
}

/// A proposer whose responses always match the tree never loses the game to
/// the challenger, whatever messages are exchanged.
pub proof fn lemma_honest_proposer_never_loses(g: Game, moves: Seq<Move>)
    requires
        !challenger_won(g.state),
        forall|i: int|
            0 <= i < moves.len() ==> (#[trigger] moves[i] matches Move::Respond { matches, .. }
                ==> matches),
    ensures
        !challenger_won(after_moves(g, moves).state),
    decreases moves.len(),
{
    if moves.len() > 0 {
        lemma_honest_proposer_never_loses(g, moves.drop_last());
        let before = after_moves(g, moves.drop_last());
        let m = moves.last();
        assert(m == moves[moves.len() - 1]);
    }
}

/// One round against a proposer who answers the midpoint settles the game or
/// leaves a range of at least two leaves whose bound is one less.
pub proof fn lemma_honest_round_halves(g: Game, go_left: bool)
    requires
        is_active(g.state),
        g.lo + 2 <= g.hi,
    ensures
        ({
            let next = honest_round(g, go_left);
            is_settled(next.state) || (is_active(next.state) && next.lo + 2 <= next.hi
                && ceil_log2((next.hi - next.lo) as nat) + 1 <= ceil_log2((g.hi - g.lo) as nat))
        }),
{
    let w = (g.hi - g.lo) as nat;
    let mid = midpoint(g);
    assert(g.lo < mid < g.hi);
    let answered = after_move(g, Move::Respond { mid, matches: true });
    if w > 2 {
        assert(answered.mids.last() == mid);
        let next = after_move(answered, Move::Select { go_left });
        let nw = (next.hi - next.lo) as nat;
        if nw > 1 {
            assert(nw <= (w + 1) / 2);
            lemma_ceil_log2_monotone(nw, (w + 1) / 2);
        }
    }
}

/// After any number of rounds against a proposer who answers the midpoint,
/// the game is settled, or the bound of its range has gone down by the
/// number of rounds.
pub proof fn lemma_honest_rounds_progress(g: Game, choices: Seq<bool>)
    requires
        is_active(g.state),
        g.lo + 2 <= g.hi,
    ensures
        ({
            let end = honest_rounds(g, choices);
            is_settled(end.state) || (is_active(end.state) && end.lo + 2 <= end.hi && ceil_log2(
                (end.hi - end.lo) as nat,
            ) + choices.len() <= ceil_log2((g.hi - g.lo) as nat))
        }),
    decreases choices.len(),
{
    if choices.len() > 0 {
        lemma_honest_rounds_progress(g, choices.drop_last());
        let before = honest_rounds(g, choices.drop_last());
        if is_settled(before.state) {
            assert(honest_round(before, choices.last()) == before);
        } else {
            lemma_honest_round_halves(before, choices.last());
        }
    }
}

/// The game terminates: from an active game over a range of at least two
/// leaves of a tree with `n` leaves, `round_bound(n)` rounds against a
/// proposer who answers the midpoint with matching aggregates settle the
/// game, whatever halves the challenger selects.
pub proof fn lemma_bisection_terminates(g: Game, n: nat, choices: Seq<bool>)
    requires
        is_active(g.state),
        g.lo + 2 <= g.hi <= n,
        choices.len() >= round_bound(n),
    ensures
        is_settled(honest_rounds(g, choices).state),
{
    lemma_honest_rounds_progress(g, choices);
    lemma_ceil_log2_monotone((g.hi - g.lo) as nat, n);
}

/// `ceil_log2(n)` is the least exponent whose power of two reaches `n`.
pub proof fn lemma_ceil_log2(n: nat)
    requires
        n >= 1,
    ensures
        n <= pow2(ceil_log2(n)),
        ceil_log2(n) > 0 ==> pow2((ceil_log2(n) - 1) as nat) < n,
    decreases n,
{
    if n <= 1 {
        vstd::arithmetic::power2::lemma2_to64();
    } else {
        let h = (n + 1) / 2;
        lemma_ceil_log2(h);
        let k = ceil_log2(h);
        lemma_pow2_unfold(k + 1);
        if k > 0 {
            lemma_pow2_unfold(k);
        } else {
            vstd::arithmetic::power2::lemma2_to64();
        }
    }
}

/// A wider range has no smaller bound.
pub proof fn lemma_ceil_log2_monotone(a: nat, b: nat)
    requires
        a <= b,
    ensures
        ceil_log2(a) <= ceil_log2(b),
    decreases b,
{
    if b > 1 && a > 1 {
        lemma_ceil_log2_monotone((a + 1) / 2, (b + 1) / 2);
    }
}

impl Clone for BisectionProtocol {
    fn clone(&self) -> (r: Self)
        ensures
            r@ == self@,
            r.responses@ == self.responses@,
            r.challenge == self.challenge,
            r.max_rounds == self.max_rounds,
            r.tree.levels() == self.tree.levels(),
            r.tree.spec_leaf_count() == self.tree.spec_leaf_count(),
    {
        let mut responses: Vec<Response> = Vec::new();
        let mut i: usize = 0;
        while i < self.responses.len()
            invariant
                i <= self.responses@.len(),
                responses@ == self.responses@.subrange(0, i as int),
            decreases self.responses@.len() - i,
        {
            responses.push(self.responses[i]);
            i = i + 1;
            proof {
                assert(responses@ =~= self.responses@.subrange(0, i as int));
            }
        }
        proof {
            assert(self.responses@.subrange(0, i as int) =~= self.responses@);
        }
        let r = BisectionProtocol {
            state: self.state,
            tree: self.tree.clone(),
            current_range: (self.current_range.0, self.current_range.1),
            challenge: self.challenge,
            responses,
            round: self.round,
            max_rounds: self.max_rounds,
        };
        proof {
            assert(r@.mids =~= self@.mids);
        }
        r
    }
}

impl View for BisectionProtocol {
    type V = Game;

    open spec fn view(&self) -> Game {
        Game {
            state: self.state,
            lo: self.current_range.0 as nat,
            hi: self.current_range.1 as nat,
            mids: Seq::new(self.responses@.len(), |i: int| self.responses@[i].mid_index as nat),
            round: self.round as nat,
        }
    }
}

impl BisectionProtocol {
    /// The range lies within the tree, a round was counted for each recorded
    /// response, no response was recorded before the challenge, and the last
    /// midpoint lies within the range.
    pub open spec fn wf(&self) -> bool {
        &&& self.tree.wf()
        &&& self.current_range.0 <= self.current_range.1 <= self.tree.spec_leaf_count()
        &&& self.round == self.responses@.len()
        &&& self.state is Initial ==> self.responses@.len() == 0
        &&& self.responses@.len() > 0 ==> self.current_range.0
            <= self.responses@.last().mid_index <= self.current_range.1
    }

    /// Whether the aggregates of a response match the tree over the two
    /// halves of the current range.
    pub open spec fn spec_matches(&self, response: Response) -> bool {
        &&& response.left_aggregate.commitment@ == self.tree.spec_range_aggregate(
            self.current_range.0 as int,
            response.mid_index as int,
        )
        &&& response.right_aggregate.commitment@ == self.tree.spec_range_aggregate(
            response.mid_index as int,
            self.current_range.1 as int,
        )
    }

    /// A game over `tree` that waits for a challenge. It is bounded by one
    /// round more than it takes to halve the leaves down to one.
    pub fn new(tree: CommitmentMerkleTree) -> (r: Self)
        ensures
            r.wf(),
            r.state is Initial,
            r.tree == tree,
            r.current_range == (0usize, tree.spec_leaf_count() as usize),
            r.challenge is None,
            r.responses@.len() == 0,
            r.round == 0,
            r.max_rounds == round_bound(tree.spec_leaf_count()),
    {
        let leaf_count = tree.leaf_count();
        let mut width: usize = leaf_count;
        let mut halvings: usize = 0;
        proof {
            use_type_invariant(&tree);
            tree.lemma_wf();
        }
        while width > 1
            invariant
                width >= 1,
                leaf_count >= 1,
                halvings + width <= leaf_count,
                ceil_log2(leaf_count as nat) == halvings + ceil_log2(width as nat),
            decreases width,
        {
            width = width / 2 + width % 2;
            halvings = halvings + 1;
        }
        BisectionProtocol {
            state: BisectionState::Initial,
            current_range: (0, leaf_count),
            tree,
            challenge: None,
            responses: Vec::new(),
            round: 0,
            max_rounds: halvings + 1,
        }
    }

    /// Opens the dispute over the challenged range. Accepted only before any
    /// challenge, for a non-empty range within the tree.
    pub fn initiate_challenge(&mut self, challenge: Challenge) -> (res: Result<
        (),
        ArchimedesError,
    >)
        requires
            old(self).wf(),
        ensures
            final(self).wf(),
            final(self).tree == old(self).tree,
            final(self).responses == old(self).responses,
            final(self).max_rounds == old(self).max_rounds,
            ({
                let (lo, hi) = challenge.disputed_range;
                if !(old(self).state is Initial) {
                    &&& res matches Err(ArchimedesError::DisputeError(m))
                    &&& m@ == "Invalid state for challenge"@
                    &&& *final(self) == *old(self)
                } else if !(lo < hi <= old(self).tree.spec_leaf_count()) {
                    &&& res matches Err(ArchimedesError::DisputeError(m))
                    &&& m@ == "Invalid dispute range"@
                    &&& *final(self) == *old(self)
                } else {
                    &&& res is Ok
                    &&& final(self)@ == after_challenge(old(self)@, lo as nat, hi as nat)
                    &&& final(self).challenge == Some(challenge)
                }
            }),
    {
        match self.state {
            BisectionState::Initial => {},
            _ => {
                return Err(
                    ArchimedesError::DisputeError("Invalid state for challenge".to_string()),
                );
            },
        }
        let (start, end) = challenge.disputed_range;
        if end > self.tree.leaf_count() || start >= end {
            return Err(ArchimedesError::DisputeError("Invalid dispute range".to_string()));
        }
        self.current_range = (start, end);
        self.challenge = Some(challenge);
        self.state = BisectionState::Challenged;
        proof {
            assert(self@.mids =~= old(self)@.mids);
        }
        Ok(())
    }

    /// Takes the proposer's response for the current range. Accepted while
    /// the game is active, for a midpoint strictly inside the range.
    pub fn respond(&mut self, response: Response) -> (res: Result<(), ArchimedesError>)
        requires
            old(self).wf(),
        ensures
            final(self).wf(),
            final(self).tree == old(self).tree,
            final(self).challenge == old(self).challenge,
            final(self).max_rounds == old(self).max_rounds,
            final(self)@ == after_move(
                old(self)@,
                Move::Respond {
                    mid: response.mid_index as nat,
                    matches: old(self).spec_matches(response),
                },
            ),
            ({
                let (lo, hi) = old(self).current_range;
                let matches = old(self).spec_matches(response);
                if !is_active(old(self).state) {
                    &&& res matches Err(ArchimedesError::DisputeError(m))
                    &&& m@ == "Invalid state for response"@
                    &&& *final(self) == *old(self)
                } else if !(lo < response.mid_index < hi) {
                    &&& res matches Err(ArchimedesError::DisputeError(m))
                    &&& m@ == "Invalid midpoint"@
                    &&& *final(self) == *old(self)
                } else {
                    &&& res is Ok
                    &&& final(self)@ == after_response(
                        old(self)@,
                        response.mid_index as nat,
                        matches,
                    )
                    &&& final(self).responses@ == (if matches {
                        old(self).responses@.push(response)
                    } else {
                        old(self).responses@
                    })
                }
            }),
    {
        match self.state {
            BisectionState::Challenged | BisectionState::BisectLeft | BisectionState::BisectRight => {},
            _ => {
                return Err(
                    ArchimedesError::DisputeError("Invalid state for response".to_string()),
                );
            },
        }
        let (start, end) = self.current_range;
        let mid = response.mid_index;
        if mid <= start || mid >= end {
            return Err(ArchimedesError::DisputeError("Invalid midpoint".to_string()));
        }
        let left_agg = match self.tree.range_aggregate(start, mid) {
            Ok(a) => a,
            Err(e) => {
                return Err(e);
            },
        };
        let right_agg = match self.tree.range_aggregate(mid, end) {
            Ok(a) => a,
            Err(e) => {
                return Err(e);
            },
        };
        if left_agg.commitment.0 != response.left_aggregate.commitment.0
            || right_agg.commitment.0 != response.right_aggregate.commitment.0 {
            self.state = BisectionState::Complete(DisputeResult::ChallengerWins);
            proof {
                assert(self@.mids =~= old(self)@.mids);
            }
            return Ok(());
        }
        self.responses.push(response);
        self.round = self.responses.len();
        if end - start <= 2 {
            self.state = BisectionState::Resolve;
        }
        proof {
            assert(self@.mids =~= old(self)@.mids.push(mid as nat));
        }
        Ok(())
    }

    /// Takes the challenger's choice of a half of the range around the last
    /// midpoint. Accepted while the game is active, once a response is
    /// recorded.
    pub fn select_direction(&mut self, go_left: bool) -> (res: Result<(), ArchimedesError>)
        requires
            old(self).wf(),
        ensures
            final(self).wf(),
            final(self).tree == old(self).tree,
            final(self).challenge == old(self).challenge,
            final(self).responses == old(self).responses,
            final(self).max_rounds == old(self).max_rounds,
            final(self)@ == after_move(old(self)@, Move::Select { go_left }),
            ({
                if !is_active(old(self).state) {
                    &&& res matches Err(ArchimedesError::DisputeError(m))
                    &&& m@ == "Invalid state"@
                    &&& *final(self) == *old(self)
                } else if old(self).responses@.len() == 0 {
                    &&& res matches Err(ArchimedesError::DisputeError(m))
                    &&& m@ == "No response to bisect"@
                    &&& *final(self) == *old(self)
                } else {
                    &&& res is Ok
                    &&& final(self)@ == after_selection(old(self)@, go_left)
                }
            }),
    {
        match self.state {
            BisectionState::Challenged | BisectionState::BisectLeft | BisectionState::BisectRight => {},
            _ => {
                return Err(ArchimedesError::DisputeError("Invalid state".to_string()));
            },
        }
        if self.responses.len() == 0 {
            return Err(ArchimedesError::DisputeError("No response to bisect".to_string()));
        }
        let mid = self.responses[self.responses.len() - 1].mid_index;
        let (start, end) = self.current_range;
        if go_left {
            self.current_range = (start, mid);
            self.state = BisectionState::BisectLeft;
        } else {
            self.current_range = (mid, end);
            self.state = BisectionState::BisectRight;
        }
        if self.current_range.1 - self.current_range.0 <= 1 {
            self.state = BisectionState::Resolve;
        }
        proof {
            assert(self@.mids =~= old(self)@.mids);
        }
        Ok(())
    }

    /// Whether the game has come to its end or to the single-step check.
    pub fn is_resolved(&self) -> (r: bool)
        ensures
            r == is_settled(self.state),
    {
        match self.state {
            BisectionState::Complete(_) | BisectionState::Resolve => true,
            _ => false,
        }
    }

    /// The index that the single-step check is about: the start of the range
    /// once the game waits for that check over a range of one leaf.
    pub fn disputed_index(&self) -> (r: Option<usize>)
        requires
            self.state is Resolve ==> self.current_range.0 <= self.current_range.1,
        ensures
            r == (if self.state is Resolve && self.current_range.1 - self.current_range.0 == 1 {
                Some(self.current_range.0)
            } else {
                None
            }),
    {
        match self.state {
            BisectionState::Resolve => {
                if self.current_range.1 - self.current_range.0 == 1 {
                    Some(self.current_range.0)
                } else {
                    None
                }
            },
            _ => None,
        }
    }
}

} // verus!
