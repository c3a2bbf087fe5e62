//! Aggregates of commitments, and the chain that accumulates them together
//! with their openings.

use crate::commitment::{
    add_mod, lemma_pedersen_homomorphic, pedersen, Commitment, CommitmentParams, Opening,
    Randomness,
};
use crate::errors::ArchimedesError;
use crate::field::ScalarField;
use crate::group::group_order;
use ark_std::rand::rngs::StdRng;
use vstd::arithmetic::div_mod::*;
use vstd::prelude::*;

verus! {

/// The sum of a sequence of group elements, or of scalars, by their views.
pub open spec fn sum_mod(s: Seq<nat>) -> nat
    decreases s.len(),
{
    if s.len() == 0 {
        0
    } else {
        add_mod(sum_mod(s.drop_last()), s.last())
    }
}

/// The views of a sequence of commitments.
pub open spec fn commitment_views(cs: Seq<Commitment>) -> Seq<nat> {
    Seq::new(cs.len(), |i: int| cs[i]@)
}

/// The views of a sequence of randomness values.
pub open spec fn randomness_views(rs: Seq<Randomness>) -> Seq<nat> {
    Seq::new(rs.len(), |i: int| rs[i]@)
}

/// The views of a sequence of scalars.
pub open spec fn scalar_views(vs: Seq<ScalarField>) -> Seq<nat> {
    Seq::new(vs.len(), |i: int| vs[i]@)
}

/// The commitments to the pairs `(vs[i], rs[i])`.
pub open spec fn pedersen_all(g: nat, h: nat, vs: Seq<nat>, rs: Seq<nat>) -> Seq<nat> {
    Seq::new(vs.len(), |i: int| pedersen(g, h, vs[i], rs[i]))
}

/// A sum is below the order of the group.
pub proof fn lemma_sum_mod_bound(s: Seq<nat>)
    ensures
        sum_mod(s) < group_order(),
    decreases s.len(),
{
    if s.len() > 0 {
        lemma_mod_bound((sum_mod(s.drop_last()) + s.last()) as int, group_order() as int);
    }
}

/// Addition modulo the order is associative.
pub proof fn lemma_add_mod_assoc(a: nat, b: nat, c: nat)
    ensures
        add_mod(add_mod(a, b), c) == add_mod(a, add_mod(b, c)),
{
    let m = group_order() as int;
    lemma_add_mod_noop((a + b) as int, c as int, m);
    lemma_add_mod_noop(a as int, (b + c) as int, m);
    lemma_mod_bound(c as int, m);
    lemma_mod_bound(a as int, m);
    lemma_mod_twice((a + b) as int, m);
    lemma_mod_twice((b + c) as int, m);
    lemma_add_mod_noop(((a + b) % (m as nat)) as int, c as int, m);
    lemma_add_mod_noop(a as int, ((b + c) % (m as nat)) as int, m);
}

/// The sum of a concatenation is the sum of the sums.
pub proof fn lemma_sum_mod_concat(s: Seq<nat>, t: Seq<nat>)
    ensures
        sum_mod(s + t) == add_mod(sum_mod(s), sum_mod(t)),
    decreases t.len(),
{
    if t.len() == 0 {
        assert(s + t =~= s);
        lemma_sum_mod_bound(s);
        lemma_small_mod(sum_mod(s), group_order());
    } else {
        assert((s + t).drop_last() =~= s + t.drop_last());
        assert((s + t).last() == t.last());
        lemma_sum_mod_concat(s, t.drop_last());
        lemma_add_mod_assoc(sum_mod(s), sum_mod(t.drop_last()), t.last());
    }
}

/// The sum of the commitments to `(vs[i], rs[i])` is the commitment to the
/// sum of the values under the sum of the randomness.
pub proof fn lemma_pedersen_sum(g: nat, h: nat, vs: Seq<nat>, rs: Seq<nat>)
    requires
        vs.len() == rs.len(),
    ensures
        sum_mod(pedersen_all(g, h, vs, rs)) == pedersen(g, h, sum_mod(vs), sum_mod(rs)),
    decreases vs.len(),
{
    let cs = pedersen_all(g, h, vs, rs);
    if vs.len() == 0 {
        assert(g * 0 + h * 0 == 0) by (nonlinear_arith);
        lemma_small_mod(0, group_order());
    } else {
        assert(cs.drop_last() =~= pedersen_all(g, h, vs.drop_last(), rs.drop_last()));
        lemma_pedersen_sum(g, h, vs.drop_last(), rs.drop_last());
        lemma_pedersen_homomorphic(
            g,
            h,
            sum_mod(vs.drop_last()),
            sum_mod(rs.drop_last()),
            vs.last(),
            rs.last(),
        );
    }
}

/// Commitments are homomorphic over any number of openings: the commitment
/// to the sum of the values under the sum of the randomness is the sum of
/// the commitments to each value under its randomness.
pub proof fn lemma_commit_sum(params: CommitmentParams, vs: Seq<nat>, rs: Seq<nat>)
    requires
        vs.len() == rs.len(),
    ensures
        params.spec_commit(sum_mod(vs), sum_mod(rs)) == sum_mod(
            Seq::new(vs.len(), |i: int| params.spec_commit(vs[i], rs[i])),
        ),
{
    lemma_pedersen_sum(params.g@, params.h@, vs, rs);
    assert(Seq::new(vs.len(), |i: int| params.spec_commit(vs[i], rs[i])) =~= pedersen_all(
        params.g@,
        params.h@,
        vs,
        rs,
    ));
}

/// The sum of a number of commitments, with their count.
#[derive(Clone, Copy, Debug)]
pub struct AggregateCommitment {
    pub commitment: Commitment,
    pub count: usize,
}

/// An ordered list of commitments with the values and the randomness that
/// open them.
#[derive(Clone, Debug)]
pub struct CommitmentChain {
    pub params: CommitmentParams,
    pub commitments: Vec<Commitment>,
    pub randomness: Vec<Randomness>,
    pub values: Vec<ScalarField>,
}

impl AggregateCommitment {
    /// The aggregate of no commitment.
    pub fn empty() -> (r: Self)
        ensures
            r.commitment@ == 0,
            r.count == 0,
    {
        AggregateCommitment { commitment: Commitment::zero(), count: 0 }
    }

    /// The aggregate of the given commitments.
    pub fn from_commitments(commitments: &[Commitment]) -> (r: Self)
        ensures
            r.commitment@ == sum_mod(commitment_views(commitments@)),
            r.count == commitments@.len(),
    {
        let mut agg = Commitment::zero();
        let mut i: usize = 0;
        proof {
            assert(commitment_views(commitments@.subrange(0, 0)) =~= Seq::<nat>::empty());
        }
        while i < commitments.len()
            invariant
                i <= commitments.len(),
                agg@ == sum_mod(commitment_views(commitments@.subrange(0, i as int))),
            decreases commitments.len() - i,
        {
            agg = agg.add(&commitments[i]);
            proof {
                let next = commitment_views(commitments@.subrange(0, i + 1));
                assert(next.drop_last() =~= commitment_views(commitments@.subrange(0, i as int)));
                assert(next.last() == commitments@[i as int]@);
            }
            i = i + 1;
        }
        proof {
            assert(commitments@.subrange(0, i as int) =~= commitments@);
        }
        AggregateCommitment { commitment: agg, count: commitments.len() }
    }

    /// The aggregate with one more commitment.
    pub fn add(&self, other: &Commitment) -> (r: Self)
        requires
            self.count < usize::MAX,
        ensures
            r.commitment@ == add_mod(self.commitment@, other@),
            r.count == self.count + 1,
    {
        AggregateCommitment { commitment: self.commitment.add(other), count: self.count + 1 }
    }

    /// The aggregate of two aggregates.
    pub fn merge(&self, other: &AggregateCommitment) -> (r: Self)
        requires
            self.count + other.count <= usize::MAX,
        ensures
            r.commitment@ == add_mod(self.commitment@, other.commitment@),
            r.count == self.count + other.count,
    {
        AggregateCommitment {
            commitment: self.commitment.add(&other.commitment),
            count: self.count + other.count,
        }
    }
}

impl CommitmentChain {
    /// The three lists have one length, and each commitment commits to its
    /// value under its randomness.
    pub open spec fn wf(&self) -> bool {
        &&& self.commitments@.len() == self.values@.len()
        &&& self.randomness@.len() == self.values@.len()
        &&& forall|i: int|
            0 <= i < self.values@.len() ==> (#[trigger] self.commitments@[i])@
                == self.params.spec_commit(self.values@[i]@, self.randomness@[i]@)
    }

    /// The sum of the committed values.
    pub open spec fn spec_value(&self) -> nat {
        sum_mod(scalar_views(self.values@))
    }

    /// The sum of the randomness.
    pub open spec fn spec_randomness(&self) -> nat {
        sum_mod(randomness_views(self.randomness@))
    }

    /// The sum of the commitments.
    pub open spec fn spec_aggregate(&self) -> nat {
        sum_mod(commitment_views(self.commitments@))
    }

    /// An empty chain under the given parameters.
    pub fn new(params: CommitmentParams) -> (r: Self)
        ensures
            r.params == params,
            r.commitments@.len() == 0,
            r.randomness@.len() == 0,
            r.values@.len() == 0,
            r.wf(),
    {
        CommitmentChain {
            params,
            commitments: Vec::new(),
            randomness: Vec::new(),
            values: Vec::new(),
        }
    }

    /// Appends `value` with the given randomness and returns its commitment.
    pub fn push_with_randomness(&mut self, value: ScalarField, randomness: Randomness) -> (res:
        Result<Commitment, ArchimedesError>)
        ensures
            res matches Ok(c) && c@ == old(self).params.spec_commit(value@, randomness@)
                && final(self).commitments@ == old(self).commitments@.push(c),
            final(self).randomness@ == old(self).randomness@.push(randomness),
            final(self).values@ == old(self).values@.push(value),
            final(self).params == old(self).params,
            old(self).wf() ==> final(self).wf(),
    {
        match self.params.commit_with_randomness(&value, &randomness) {
            Ok(c) => {
                self.commitments.push(c);
                self.randomness.push(randomness);
                self.values.push(value);
                Ok(c)
            },
            Err(e) => Err(e),
        }
    }

    /// Commits to `value` under fresh randomness, appends the triple and
    /// returns the commitment.
    pub fn push(&mut self, value: ScalarField, rng: &mut StdRng) -> (res: Result<
        Commitment,
        ArchimedesError,
    >)
        ensures
            res matches Ok(c) && {
                &&& final(self).commitments@ == old(self).commitments@.push(c)
                &&& final(self).randomness@.len() == old(self).randomness@.len() + 1
                &&& final(self).randomness@.drop_last() == old(self).randomness@
                &&& c@ == old(self).params.spec_commit(value@, final(self).randomness@.last()@)
            },
            final(self).values@ == old(self).values@.push(value),
            final(self).params == old(self).params,
            old(self).wf() ==> final(self).wf(),
    {
        let randomness = Randomness(ScalarField::rand(rng));
        let res = self.push_with_randomness(value, randomness);
        proof {
            assert(self.randomness@.drop_last() =~= old(self).randomness@);
        }
        res
    }

    /// The aggregate of the whole chain.
    pub fn aggregate(&self) -> (r: AggregateCommitment)
        ensures
            r.commitment@ == self.spec_aggregate(),
            r.count == self.commitments@.len(),
    {
        AggregateCommitment::from_commitments(self.commitments.as_slice())
    }

    /// The aggregate of the commitments in `[start, end)`. Fails exactly when
    /// the range is reversed or reaches past the chain.
    pub fn aggregate_range(&self, start: usize, end: usize) -> (res: Result<
        AggregateCommitment,
        ArchimedesError,
    >)
        ensures
            (start <= end <= self.commitments@.len()) ==> (res matches Ok(a) && a.commitment@
                == sum_mod(commitment_views(self.commitments@.subrange(start as int, end as int)))
                && a.count == end - start),
            !(start <= end <= self.commitments@.len()) ==> (res matches Err(
                ArchimedesError::AggregationError(m),
            ) && m@ == "Invalid range"@),
    {
        if end > self.commitments.len() || start > end {
            return Err(ArchimedesError::AggregationError("Invalid range".to_string()));
        }
        let mut agg = Commitment::zero();
        let mut i: usize = start;
        proof {
            assert(commitment_views(self.commitments@.subrange(start as int, start as int))
                =~= Seq::<nat>::empty());
        }
        while i < end
            invariant
                start <= i <= end <= self.commitments@.len(),
                agg@ == sum_mod(
                    commitment_views(self.commitments@.subrange(start as int, i as int)),
                ),
            decreases end - i,
        {
            agg = agg.add(&self.commitments[i]);
            proof {
                let next = commitment_views(self.commitments@.subrange(start as int, i + 1));
                assert(next.drop_last() =~= commitment_views(
                    self.commitments@.subrange(start as int, i as int),
                ));
                assert(next.last() == self.commitments@[i as int]@);
            }
            i = i + 1;
        }
        Ok(AggregateCommitment { commitment: agg, count: end - start })
    }

    /// The sum of the randomness of the chain.
    pub fn aggregate_randomness(&self) -> (r: Randomness)
        ensures
            r@ == self.spec_randomness(),
    {
        let mut agg = Randomness::zero();
        let mut i: usize = 0;
        proof {
            assert(randomness_views(self.randomness@.subrange(0, 0)) =~= Seq::<nat>::empty());
        }
        while i < self.randomness.len()
            invariant
                i <= self.randomness@.len(),
                agg@ == sum_mod(randomness_views(self.randomness@.subrange(0, i as int))),
            decreases self.randomness@.len() - i,
        {
            agg = agg.add(&self.randomness[i]);
            proof {
                let next = randomness_views(self.randomness@.subrange(0, i + 1));
                assert(next.drop_last() =~= randomness_views(
                    self.randomness@.subrange(0, i as int),
                ));
                assert(next.last() == self.randomness@[i as int]@);
            }
            i = i + 1;
        }
        proof {
            assert(self.randomness@.subrange(0, i as int) =~= self.randomness@);
        }
        agg
    }

    /// The sum of the values of the chain.
    pub fn aggregate_value(&self) -> (r: ScalarField)
        ensures
            r@ == self.spec_value(),
    {
        let mut agg = ScalarField::from(0u64);
        let mut i: usize = 0;
        proof {
            assert(scalar_views(self.values@.subrange(0, 0)) =~= Seq::<nat>::empty());
        }
        while i < self.values.len()
            invariant
                i <= self.values@.len(),
                agg@ == sum_mod(scalar_views(self.values@.subrange(0, i as int))),
            decreases self.values@.len() - i,
        {
            agg = agg.add(&self.values[i]);
            proof {
                let next = scalar_views(self.values@.subrange(0, i + 1));
                assert(next.drop_last() =~= scalar_views(self.values@.subrange(0, i as int)));
                assert(next.last() == self.values@[i as int]@);
            }
            i = i + 1;
        }
        proof {
            assert(self.values@.subrange(0, i as int) =~= self.values@);
        }
        agg
    }

    /// Whether the summed values and randomness of the chain open the given
    /// aggregate. On a well-formed chain they open the chain's own aggregate.
    pub fn verify_aggregate(&self, aggregate: &AggregateCommitment) -> (res: Result<
        bool,
        ArchimedesError,
    >)
        ensures
            res matches Ok(b) && b == self.params.spec_verify(
                aggregate.commitment@,
                self.spec_value(),
                self.spec_randomness(),
            ),
            self.wf() && aggregate.commitment@ == self.spec_aggregate() ==> res == Ok::<
                bool,
                ArchimedesError,
            >(true),
    {
        let v_sum = self.aggregate_value();
        let r_sum = self.aggregate_randomness();
        let opening = Opening { value: v_sum, randomness: r_sum };
        proof {
            if self.wf() {
                lemma_chain_aggregate_opens(*self);
            }
        }
        self.params.verify(&aggregate.commitment, &opening)
    }

    /// The number of commitments.
    pub fn len(&self) -> (r: usize)
        ensures
            r == self.commitments@.len(),
    {
        self.commitments.len()
    }

    /// Whether the chain holds no commitment.
    pub fn is_empty(&self) -> (r: bool)
        ensures
            r == (self.commitments@.len() == 0),
    {
        self.commitments.len() == 0
    }
}

/// The homomorphism invariant of a chain: the sum of its commitments is the
/// commitment to the sum of its values under the sum of its randomness.
pub proof fn lemma_chain_aggregate_opens(chain: CommitmentChain)
    requires
        chain.wf(),
    ensures
        chain.spec_aggregate() == chain.params.spec_commit(
            chain.spec_value(),
            chain.spec_randomness(),
        ),
        chain.params.spec_verify(
            chain.spec_aggregate(),
            chain.spec_value(),
            chain.spec_randomness(),
        ),
{
    let vs = scalar_views(chain.values@);
    let rs = randomness_views(chain.randomness@);
    assert(commitment_views(chain.commitments@) =~= pedersen_all(
        chain.params.g@,
        chain.params.h@,
        vs,
        rs,
    ));
    lemma_pedersen_sum(chain.params.g@, chain.params.h@, vs, rs);
}

} // verus!
