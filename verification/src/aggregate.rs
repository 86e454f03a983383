use crate::error::AggregationError;
use crate::proofs::concat_public_inputs;
use crate::proofs::proof_views;
use crate::proofs::public_inputs_of;
use crate::proofs::same_values;
use crate::proofs::statements_of;
use crate::proofs::Proof;
use crate::proofs::ProofView;
use crate::schedule::arities_valid;
use crate::schedule::capacity;
use crate::schedule::lemma_capacity_split_first;
use crate::schedule::schedule_capacity;
use crate::setup::AggregationSetUp;
use crate::statement::aligned;
use crate::statement::has_width;
use crate::statement::lemma_flatten_width;
use crate::statement::lemma_regroup_flatten;
use crate::statement::lemma_split_of_flatten;
use crate::statement::lemma_split_width;
use crate::statement::lemma_statement_bounds;
use crate::statement::regroup;
use crate::statement::split;
use crate::statement::statement_at;
use vstd::arithmetic::div_mod::*;
use vstd::arithmetic::mul::*;
use vstd::prelude::*;

verus! {

/// A list of proofs with its last proof repeated `extra` times behind it.
pub open spec fn pad(leaves: Seq<ProofView>, extra: nat) -> Seq<ProofView> {
    leaves + Seq::new(extra, |i: int| leaves.last())
}

/// The leaves padded to the capacity of the schedule.
pub open spec fn padded_leaves(leaves: Seq<ProofView>, schedule: Seq<usize>) -> Seq<ProofView> {
    pad(leaves, (capacity(schedule) - leaves.len()) as nat)
}

/// What the root of a tree over the given leaves publishes: the public inputs of the padded
/// leaves, one leaf after another, the first leaf in the lowest places.
pub open spec fn aggregated_statement(leaves: Seq<ProofView>, schedule: Seq<usize>) -> Seq<u64> {
    statements_of(padded_leaves(leaves, schedule))
}

/// What may be wrong with the proof handed back for one chunk: there is none, or it does
/// not publish the public inputs of the chunk's proofs, one after another.
pub open spec fn chunk_fault(
    layer: usize,
    chunk: int,
    children: Seq<ProofView>,
    outcome: Option<Proof>,
) -> Option<AggregationError> {
    match outcome {
        None => Some(AggregationError::ProvingFailed { layer, chunk: chunk as usize }),
        Some(p) => if p@.public_inputs == statements_of(children) {
            None
        } else {
            Some(AggregationError::PublicInputMismatch { layer, chunk: chunk as usize })
        },
    }
}

/// The proofs that a list of outcomes holds, where each holds one.
pub open spec fn outcome_views(outcomes: Seq<Option<Proof>>) -> Seq<ProofView> {
    Seq::new(outcomes.len(), |c: int| outcomes[c]->0@)
}

/// What the slices of a list stand for.
pub open spec fn chunk_views(chunks: Seq<&[Proof]>) -> Seq<Seq<ProofView>> {
    Seq::new(chunks.len(), |c: int| proof_views(chunks[c]@))
}

/// Fills a list of `n` leaf proofs up to the capacity of the schedule: behind the proofs
/// come `capacity - n` copies of the last of them, so that exactly `capacity` proofs result.
/// A list of any other length than `n` is refused and not padded, the empty list too.
pub fn padd_proofs(n: usize, alignment: Vec<usize>, proofs: &[Proof]) -> (r: Result<
    Vec<Proof>,
    AggregationError,
>)
    ensures
        match r {
            Ok(padded) => {
                &&& proofs@.len() > 0
                &&& proofs@.len() == n
                &&& n <= capacity(alignment@) <= usize::MAX
                &&& padded@.len() == capacity(alignment@)
                &&& proof_views(padded@) == padded_leaves(proof_views(proofs@), alignment@)
            },
            Err(e) => if proofs@.len() != n {
                e == AggregationError::LeafCountMismatch
            } else if n == 0 {
                e == AggregationError::NoLeaves
            } else {
                &&& !(n <= capacity(alignment@) <= usize::MAX)
                &&& e == AggregationError::AggregationArityMismatch
            },
        },
{
    let len = proofs.len();
    if len != n {
        return Err(AggregationError::LeafCountMismatch);
    }
    if len == 0 {
        return Err(AggregationError::NoLeaves);
    }
    let product = match schedule_capacity(alignment.as_slice()) {
        Some(c) => c,
        None => {
            return Err(AggregationError::AggregationArityMismatch);
        },
    };
    if n > product {
        return Err(AggregationError::AggregationArityMismatch);
    }
    let extra = product - n;
    let ghost leaves = proof_views(proofs@);
    let ghost target = pad(leaves, extra as nat);
    let mut padded: Vec<Proof> = Vec::new();
    let mut i: usize = 0;
    while i < len
        invariant
            i <= len,
            len == proofs@.len(),
            leaves == proof_views(proofs@),
            target == pad(leaves, extra as nat),
            proof_views(padded@) == target.take(i as int),
        decreases len - i,
    {
        let ghost before = proof_views(padded@);
        padded.push(proofs[i].clone());
        proof {
            assert(target[i as int] == proofs@[i as int]@);
            assert(proof_views(padded@) =~= before.push(proofs@[i as int]@));
            assert(target.take(i + 1) =~= target.take(i as int).push(target[i as int]));
        }
        i += 1;
    }
    let last = &proofs[len - 1];
    let mut k: usize = 0;
    while k < extra
        invariant
            k <= extra,
            len == proofs@.len(),
            len > 0,
            leaves == proof_views(proofs@),
            *last == proofs@[len - 1],
            target == pad(leaves, extra as nat),
            proof_views(padded@) == target.take(len + k),
        decreases extra - k,
    {
        let ghost before = proof_views(padded@);
        padded.push(last.clone());
        proof {
            assert(target[len + k] == leaves.last());
            assert(leaves.last() == last@);
            assert(proof_views(padded@) =~= before.push(last@));
            assert(target.take(len + k + 1) =~= target.take(len + k).push(target[len + k]));
        }
        k += 1;
    }
    proof {
        assert(target.take(len + extra) =~= target);
        assert(padded@.len() == proof_views(padded@).len());
    }
    Ok(padded)
}

/// What an aggregation run asks of the proof system next.
pub enum AggregationStep<'a> {
    /// Prove each chunk against the circuit of this layer, the chunk's proofs bound to the
    /// layer's gadgets in order, and hand the proofs back in the order of the chunks.
    Prove { layer: usize, chunks: Vec<&'a [Proof]> },
    /// Every layer is done: take the root proof.
    Finish,
}

/// An aggregation run between two layers: the layer that comes next, and the proofs that
/// the layers so far have left.
///
/// A run starts from the leaf proofs, padded to the capacity of the schedule. Each layer
/// cuts the proofs at hand into chunks of its arity and replaces each chunk by one proof.
/// Whatever the proof system hands back, the proofs at hand publish, taken together and in
/// order, what the padded leaves publish, and after the last layer exactly one is left.
pub struct Aggregation {
    alignment: Vec<usize>,
    layer: usize,
    proofs: Vec<Proof>,
    leaves: Ghost<Seq<ProofView>>,
}

impl Aggregation {
    #[verifier::type_invariant]
    spec fn inv(&self) -> bool {
        &&& self.layer <= self.alignment@.len()
        &&& arities_valid(self.alignment@)
        &&& 1 <= self.leaves@.len() <= capacity(self.alignment@)
        &&& self.proofs@.len() == capacity(self.alignment@.skip(self.layer as int))
        &&& statements_of(proof_views(self.proofs@)) == aggregated_statement(
            self.leaves@,
            self.alignment@,
        )
    }

    /// The arity of each layer.
    pub closed spec fn schedule(&self) -> Seq<usize> {
        self.alignment@
    }

    /// The number of layers that are done.
    pub closed spec fn layers_done(&self) -> nat {
        self.layer as nat
    }

    /// The proofs at hand.
    pub closed spec fn current(&self) -> Seq<ProofView> {
        proof_views(self.proofs@)
    }

    /// The leaf proofs that the run started from.
    pub closed spec fn leaves(&self) -> Seq<ProofView> {
        self.leaves@
    }

    /// The chunks that the next layer reduces, or none once every layer is done.
    pub open spec fn pending(&self) -> Seq<Seq<ProofView>> {
        if self.layers_done() < self.schedule().len() {
            split(self.current(), self.schedule()[self.layers_done() as int] as nat)
        } else {
            Seq::empty()
        }
    }

    /// Starts a run: checks the setup and the number of leaf proofs, and pads the proofs to
    /// the capacity of the schedule.
    pub fn start<C, T>(proofs: &[Proof], setup: &AggregationSetUp<C, T>) -> (r: Result<
        Aggregation,
        AggregationError,
    >)
        ensures
            match r {
                Ok(run) => {
                    &&& setup.wf()
                    &&& proofs@.len() == setup.n
                    &&& run.schedule() == setup.alignment@
                    &&& run.layers_done() == 0
                    &&& run.leaves() == proof_views(proofs@)
                    &&& run.current() == padded_leaves(proof_views(proofs@), setup.alignment@)
                },
                Err(e) => if setup.error() is Some {
                    setup.error() == Some(e)
                } else {
                    &&& proofs@.len() != setup.n
                    &&& e == AggregationError::LeafCountMismatch
                },
            },
    {
        let _ = setup.check()?;
        if proofs.len() != setup.n {
            return Err(AggregationError::LeafCountMismatch);
        }
        let alignment = setup.alignment.clone();
        match padd_proofs(setup.n, setup.alignment.clone(), proofs) {
            Ok(padded) => {
                proof {
                    assert(alignment@ == setup.alignment@);
                    assert(alignment@.skip(0) =~= alignment@);
                    assert(arities_valid(alignment@));
                    assert(padded@.len() == proof_views(padded@).len());
                    assert(proof_views(padded@) == padded_leaves(proof_views(proofs@), alignment@));
                }
                Ok(
                    Aggregation {
                        alignment,
                        layer: 0,
                        proofs: padded,
                        leaves: Ghost(proof_views(proofs@)),
                    },
                )
            },
            Err(e) => Err(e),
        }
    }

    /// What the run asks for next: the chunks of the layer to prove, or nothing more.
    pub fn next_step(&self) -> (step: AggregationStep<'_>)
        ensures
            self.layers_done() <= self.schedule().len(),
            step is Finish <==> self.layers_done() == self.schedule().len(),
            step matches AggregationStep::Prove { layer, chunks } ==> {
                &&& layer == self.layers_done()
                &&& chunk_views(chunks@) == self.pending()
                &&& has_width(self.pending(), self.schedule()[layer as int] as nat)
                &&& self.pending().len() * self.schedule()[layer as int] == self.current().len()
            },
    {
        proof {
            use_type_invariant(self);
        }
        if self.layer >= self.alignment.len() {
            return AggregationStep::Finish;
        }
        let arity = self.alignment[self.layer];
        let all = self.proofs.as_slice();
        let count = all.len() / arity;
        proof {
            self.lemma_layer_divides();
        }
        let mut chunks: Vec<&[Proof]> = Vec::new();
        let mut c: usize = 0;
        let mut at: usize = 0;
        while c < count
            invariant
                arity >= 2,
                all@ == self.proofs@,
                all@.len() <= usize::MAX,
                count == all@.len() / (arity as nat),
                count * arity == all@.len(),
                c <= count,
                at == c * arity,
                chunks@.len() == c,
                forall|k: int|
                    0 <= k < c ==> proof_views((#[trigger] chunks@[k])@) == statement_at(
                        proof_views(all@),
                        arity as nat,
                        k,
                    ),
            decreases count - c,
        {
            proof {
                lemma_statement_bounds(all@.len(), arity as nat, c as int);
            }
            let chunk = &all[at..at + arity];
            proof {
                assert(proof_views(chunk@) =~= statement_at(
                    proof_views(all@),
                    arity as nat,
                    c as int,
                ));
            }
            chunks.push(chunk);
            at += arity;
            c += 1;
        }
        proof {
            assert(chunk_views(chunks@) =~= self.pending());
            lemma_split_width(self.current(), arity as nat);
        }
        AggregationStep::Prove { layer: self.layer, chunks }
    }

    /// Before the last layer is done, the proofs at hand divide into chunks of the next
    /// layer's arity, as many as the layers above it have room for.
    proof fn lemma_layer_divides(&self)
        requires
            self.inv(),
            self.layer < self.alignment@.len(),
        ensures
            self.alignment@[self.layer as int] >= 2,
            self.proofs@.len() == self.alignment@[self.layer as int] * capacity(
                self.alignment@.skip(self.layer + 1),
            ),
            self.proofs@.len() / (self.alignment@[self.layer as int] as nat) == capacity(
                self.alignment@.skip(self.layer + 1),
            ),
            aligned(self.proofs@.len(), self.alignment@[self.layer as int] as nat),
            (self.proofs@.len() / (self.alignment@[self.layer as int] as nat))
                * self.alignment@[self.layer as int] == self.proofs@.len(),
    {
        let rest = self.alignment@.skip(self.layer as int);
        let arity = self.alignment@[self.layer as int];
        let above = capacity(self.alignment@.skip(self.layer + 1));
        lemma_capacity_split_first(rest);
        assert(rest.drop_first() =~= self.alignment@.skip(self.layer + 1));
        assert(rest.first() == arity);
        lemma_mul_is_commutative(arity as int, above as int);
        lemma_div_multiples_vanish(above as int, arity as int);
        lemma_mod_multiples_basic(above as int, arity as int);
    }

    /// Takes in the outcome of the pending layer: for each chunk, in order, the proof that
    /// the proof system made of it, or `None` where it made none.
    ///
    /// The first chunk without a proof, or with a proof that does not publish the public
    /// inputs of the chunk's proofs one after another, ends the run.
    pub fn advance(self, outcomes: Vec<Option<Proof>>) -> (r: Result<Aggregation, AggregationError>)
        ensures
            match r {
                Ok(next) => {
                    &&& self.layers_done() < self.schedule().len()
                    &&& outcomes@.len() == self.pending().len()
                    &&& forall|c: int|
                        0 <= c < outcomes@.len() ==> chunk_fault(
                            self.layers_done() as usize,
                            c,
                            self.pending()[c],
                            #[trigger] outcomes@[c],
                        ) is None
                    &&& next.schedule() == self.schedule()
                    &&& next.leaves() == self.leaves()
                    &&& next.layers_done() == self.layers_done() + 1
                    &&& next.current() == outcome_views(outcomes@)
                },
                Err(e) => if self.layers_done() >= self.schedule().len() || outcomes@.len()
                    != self.pending().len() {
                    e == AggregationError::AggregationArityMismatch
                } else {
                    exists|c: int|
                        {
                            &&& 0 <= c < outcomes@.len()
                            &&& #[trigger] chunk_fault(
                                self.layers_done() as usize,
                                c,
                                self.pending()[c],
                                outcomes@[c],
                            ) == Some(e)
                            &&& forall|b: int|
                                0 <= b < c ==> chunk_fault(
                                    self.layers_done() as usize,
                                    b,
                                    self.pending()[b],
                                    #[trigger] outcomes@[b],
                                ) is None
                        }
                },
            },
    {
        proof {
            use_type_invariant(&self);
        }
        if self.layer >= self.alignment.len() {
            return Err(AggregationError::AggregationArityMismatch);
        }
        let layer = self.layer;
        let arity = self.alignment[layer];
        let all = self.proofs.as_slice();
        let count = all.len() / arity;
        proof {
            self.lemma_layer_divides();
        }
        if outcomes.len() != count {
            return Err(AggregationError::AggregationArityMismatch);
        }
        let ghost pending = self.pending();
        let mut c: usize = 0;
        let mut at: usize = 0;
        while c < count
            invariant
                arity >= 2,
                all@ == self.proofs@,
                all@.len() <= usize::MAX,
                layer == self.layer,
                layer < self.alignment@.len(),
                arity == self.alignment@[layer as int],
                pending == self.pending(),
                pending == split(proof_views(all@), arity as nat),
                pending.len() == count,
                count == all@.len() / (arity as nat),
                count * arity == all@.len(),
                outcomes@.len() == count,
                c <= count,
                at == c * arity,
                forall|b: int|
                    0 <= b < c ==> chunk_fault(layer, b, pending[b], #[trigger] outcomes@[b])
                        is None,
            decreases count - c,
        {
            proof {
                lemma_statement_bounds(all@.len(), arity as nat, c as int);
            }
            let chunk = &all[at..at + arity];
            proof {
                assert(proof_views(chunk@) =~= pending[c as int]);
            }
            match &outcomes[c] {
                None => {
                    assert(chunk_fault(layer, c as int, pending[c as int], outcomes@[c as int])
                        == Some(AggregationError::ProvingFailed { layer, chunk: c }));
                    return Err(AggregationError::ProvingFailed { layer, chunk: c });
                },
                Some(proof) => {
                    let expected = concat_public_inputs(chunk);
                    if !same_values(proof.public_inputs.as_slice(), expected.as_slice()) {
                        assert(chunk_fault(
                            layer,
                            c as int,
                            pending[c as int],
                            outcomes@[c as int],
                        ) == Some(AggregationError::PublicInputMismatch { layer, chunk: c }));
                        return Err(AggregationError::PublicInputMismatch { layer, chunk: c });
                    }
                },
            }
            at += arity;
            c += 1;
        }
        let ghost made = outcome_views(outcomes@);
        let mut next: Vec<Proof> = Vec::new();
        for outcome in it: outcomes
            invariant
                it.seq() == outcomes@,
                forall|b: int| 0 <= b < outcomes@.len() ==> (#[trigger] outcomes@[b]) is Some,
                made == outcome_views(outcomes@),
                proof_views(next@) == made.take(it.index() as int),
        {
            let ghost before = proof_views(next@);
            let ghost at = it.index() as int;
            assert(outcome == outcomes@[at]);
            let made_proof = outcome.unwrap();
            next.push(made_proof);
            proof {
                assert(made[at] == made_proof@);
                assert(proof_views(next@) =~= before.push(made_proof@));
                assert(made.take(at + 1) =~= made.take(at).push(made[at]));
            }
        }
        proof {
            assert(made.take(made.len() as int) =~= made);
            let before = public_inputs_of(proof_views(all@));
            lemma_regroup_flatten(before, arity as nat);
            assert(public_inputs_of(made) =~= regroup(before, arity as nat)) by {
                assert forall|k: int| 0 <= k < count implies public_inputs_of(made)[k] == regroup(
                    before,
                    arity as nat,
                )[k] by {
                    lemma_statement_bounds(all@.len(), arity as nat, k);
                    assert(chunk_fault(layer, k, pending[k], outcomes@[k]) is None);
                    assert(public_inputs_of(pending[k]) =~= before.subrange(
                        k * arity,
                        (k + 1) * arity,
                    ));
                }
            }
        }
        let Aggregation { alignment, layer: _, proofs: _, leaves } = self;
        Ok(Aggregation { alignment, layer: layer + 1, proofs: next, leaves })
    }

    /// The root proof, once every layer is done.
    pub fn finish(self) -> (r: Result<Proof, AggregationError>)
        ensures
            r is Ok <==> self.layers_done() == self.schedule().len(),
            r matches Err(e) ==> e == AggregationError::AggregationArityMismatch,
            r matches Ok(root) ==> {
                &&& self.current() == seq![root@]
                &&& 1 <= self.leaves().len() <= capacity(self.schedule())
                &&& root@.public_inputs == aggregated_statement(self.leaves(), self.schedule())
            },
    {
        proof {
            use_type_invariant(&self);
        }
        if self.layer != self.alignment.len() {
            return Err(AggregationError::AggregationArityMismatch);
        }
        proof {
            assert(self.alignment@.skip(self.layer as int) =~= Seq::<usize>::empty());
        }
        let Aggregation { alignment: _, layer: _, mut proofs, leaves: _ } = self;
        let ghost before = proof_views(proofs@);
        let root = proofs.pop().unwrap();
        proof {
            assert(before =~= seq![root@]);
            let groups = public_inputs_of(before);
            assert(groups =~= seq![root@.public_inputs]);
            groups.lemma_flatten_singleton();
        }
        Ok(root)
    }
}

/// The padded leaves fill the schedule's capacity; the first of them are the leaves, and
/// the rest are the last leaf.
pub proof fn lemma_padded_leaves(leaves: Seq<ProofView>, schedule: Seq<usize>)
    requires
        1 <= leaves.len() <= capacity(schedule),
    ensures
        padded_leaves(leaves, schedule).len() == capacity(schedule),
        forall|i: int| 0 <= i < leaves.len() ==> padded_leaves(leaves, schedule)[i] == leaves[i],
        forall|i: int|
            leaves.len() <= i < capacity(schedule) ==> padded_leaves(leaves, schedule)[i]
                == leaves.last(),
{
}

/// Where every leaf publishes `width` field elements, so does every padded leaf, and there
/// are as many of them as the schedule has capacity.
pub proof fn lemma_padded_leaves_width(leaves: Seq<ProofView>, schedule: Seq<usize>, width: nat)
    requires
        1 <= leaves.len() <= capacity(schedule),
        has_width(public_inputs_of(leaves), width),
    ensures
        public_inputs_of(padded_leaves(leaves, schedule)).len() == capacity(schedule),
        has_width(public_inputs_of(padded_leaves(leaves, schedule)), width),
{
    lemma_padded_leaves(leaves, schedule);
    let groups = public_inputs_of(padded_leaves(leaves, schedule));
    assert forall|i: int| 0 <= i < groups.len() implies (#[trigger] groups[i]).len()
        == width by {
        if i < leaves.len() {
            assert(groups[i] == public_inputs_of(leaves)[i]);
        } else {
            assert(groups[i] == public_inputs_of(leaves)[leaves.len() - 1]);
        }
    }
}

/// Where every leaf publishes `width` field elements, the root publishes `width` for each
/// place of the schedule's capacity, padding included.
pub proof fn lemma_aggregated_statement_len(
    leaves: Seq<ProofView>,
    schedule: Seq<usize>,
    width: nat,
)
    requires
        1 <= leaves.len() <= capacity(schedule),
        has_width(public_inputs_of(leaves), width),
    ensures
        aggregated_statement(leaves, schedule).len() == capacity(schedule) * width,
{
    lemma_padded_leaves_width(leaves, schedule, width);
    let groups = public_inputs_of(padded_leaves(leaves, schedule));
    lemma_flatten_width(groups, width);
}

/// Where every leaf publishes `width` field elements, cutting what the root publishes into
/// statements of that width gives back each leaf's public inputs in order, and behind them
/// the last leaf's for every place that padding filled.
pub proof fn lemma_aggregated_statement_decodes(
    leaves: Seq<ProofView>,
    schedule: Seq<usize>,
    width: nat,
)
    requires
        1 <= leaves.len() <= capacity(schedule),
        has_width(public_inputs_of(leaves), width),
        width > 0,
    ensures
        aligned(aggregated_statement(leaves, schedule).len(), width),
        split(aggregated_statement(leaves, schedule), width).len() == capacity(schedule),
        forall|i: int|
            0 <= i < leaves.len() ==> split(aggregated_statement(leaves, schedule), width)[i]
                == leaves[i].public_inputs,
        forall|i: int|
            leaves.len() <= i < capacity(schedule) ==> split(
                aggregated_statement(leaves, schedule),
                width,
            )[i] == leaves.last().public_inputs,
{
    lemma_padded_leaves_width(leaves, schedule, width);
    let groups = public_inputs_of(padded_leaves(leaves, schedule));
    lemma_split_of_flatten(groups, width);
}

/// What the root publishes is decided by what the leaves publish and by the schedule: two
/// runs over leaves with the same public inputs end in roots with the same public inputs,
/// whatever else the proofs hold.
pub proof fn lemma_aggregated_statement_determined(
    a: Seq<ProofView>,
    b: Seq<ProofView>,
    schedule: Seq<usize>,
)
    requires
        a.len() >= 1,
        public_inputs_of(a) == public_inputs_of(b),
    ensures
        aggregated_statement(a, schedule) == aggregated_statement(b, schedule),
{
    assert(a.len() == public_inputs_of(a).len());
    assert(b.len() == public_inputs_of(b).len());
    let pa = public_inputs_of(padded_leaves(a, schedule));
    let pb = public_inputs_of(padded_leaves(b, schedule));
    assert(pa =~= pb) by {
        assert forall|i: int| 0 <= i < pa.len() implies pa[i] == pb[i] by {
            if i < a.len() {
                assert(pa[i] == public_inputs_of(a)[i]);
                assert(pb[i] == public_inputs_of(b)[i]);
            } else {
                assert(pa[i] == public_inputs_of(a)[a.len() - 1]);
                assert(pb[i] == public_inputs_of(b)[b.len() - 1]);
            }
        }
    }
}

} // verus!
