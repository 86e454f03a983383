use crate::error::AggregationError;
use vstd::arithmetic::mul::*;
use vstd::arithmetic::power::*;
use vstd::prelude::*;

verus! {

/// The number of leaves that a tree with the given per-layer arities holds: their product.
pub open spec fn capacity(schedule: Seq<usize>) -> nat
    decreases schedule.len(),
{
    if schedule.len() == 0 {
        1
    } else {
        capacity(schedule.drop_last()) * (schedule.last() as nat)
    }
}

/// Every layer of the schedule reduces the number of proofs.
pub open spec fn arities_valid(schedule: Seq<usize>) -> bool {
    forall|i: int| 0 <= i < schedule.len() ==> schedule[i] >= 2
}

/// `schedule` is the shortest non-empty run of `arity` whose capacity covers `n` leaves.
pub open spec fn is_constant_schedule(n: nat, arity: nat, schedule: Seq<usize>) -> bool {
    &&& schedule.len() >= 1
    &&& forall|i: int| 0 <= i < schedule.len() ==> schedule[i] == arity
    &&& pow(arity as int, schedule.len()) >= n
    &&& schedule.len() > 1 ==> pow(arity as int, (schedule.len() - 1) as nat) < n
}

/// The capacity of a schedule with one arity throughout is a power of that arity.
pub proof fn lemma_capacity_of_constant(arity: nat, schedule: Seq<usize>)
    requires
        forall|i: int| 0 <= i < schedule.len() ==> schedule[i] == arity,
    ensures
        capacity(schedule) == pow(arity as int, schedule.len()),
    decreases schedule.len(),
{
    reveal(pow);
    if schedule.len() > 0 {
        let front = schedule.drop_last();
        lemma_capacity_of_constant(arity, front);
        lemma_pow_adds(arity as int, front.len(), 1);
        lemma_pow1(arity as int);
    }
}

/// A capacity is the first arity times the capacity of the layers above it.
pub proof fn lemma_capacity_split_first(schedule: Seq<usize>)
    requires
        schedule.len() > 0,
    ensures
        capacity(schedule) == (schedule.first() as nat) * capacity(schedule.drop_first()),
    decreases schedule.len(),
{
    let front = schedule.drop_last();
    let rest = schedule.drop_first();
    if schedule.len() == 1 {
        assert(capacity(front) == 1);
        assert(capacity(rest) == 1);
        lemma_mul_basics(schedule.first() as int);
    } else {
        lemma_capacity_split_first(front);
        assert(front.drop_first() =~= rest.drop_last());
        assert(front.first() == schedule.first());
        assert(rest.last() == schedule.last());
        assert(capacity(rest) == capacity(rest.drop_last()) * (schedule.last() as nat));
        assert(capacity(front) == (schedule.first() as nat) * capacity(rest.drop_last()));
        lemma_mul_is_associative(
            schedule.first() as int,
            capacity(rest.drop_last()) as int,
            schedule.last() as int,
        );
    }
}

/// With no arity of zero, a capacity is at least 1 and no smaller than that of any prefix.
pub proof fn lemma_capacity_grows(schedule: Seq<usize>, k: int)
    requires
        0 <= k <= schedule.len(),
        forall|i: int| 0 <= i < schedule.len() ==> schedule[i] >= 1,
    ensures
        1 <= capacity(schedule.take(k)) <= capacity(schedule),
    decreases schedule.len() - k,
{
    if k == schedule.len() {
        assert(schedule.take(k) =~= schedule);
        lemma_capacity_positive(schedule);
    } else {
        lemma_capacity_grows(schedule, k + 1);
        let next = schedule.take(k + 1);
        assert(next.drop_last() =~= schedule.take(k));
        assert(next.last() == schedule[k]);
        lemma_capacity_positive(schedule.take(k));
        lemma_mul_increases(schedule[k] as int, capacity(schedule.take(k)) as int);
        lemma_mul_is_commutative(schedule[k] as int, capacity(schedule.take(k)) as int);
    }
}

/// With no arity of zero, a capacity is at least 1.
pub proof fn lemma_capacity_positive(schedule: Seq<usize>)
    requires
        forall|i: int| 0 <= i < schedule.len() ==> schedule[i] >= 1,
    ensures
        capacity(schedule) >= 1,
    decreases schedule.len(),
{
    if schedule.len() > 0 {
        lemma_capacity_positive(schedule.drop_last());
        lemma_mul_strictly_positive(
            capacity(schedule.drop_last()) as int,
            schedule.last() as int,
        );
    }
}

/// A constant schedule covers its leaf count, and, where there are two leaves or more, the
/// schedule without its last layer does not.
pub proof fn lemma_constant_schedule_covers_minimally(n: nat, arity: nat, schedule: Seq<usize>)
    requires
        n >= 1,
        arity >= 2,
        is_constant_schedule(n, arity, schedule),
    ensures
        capacity(schedule) >= n,
        n >= 2 ==> capacity(schedule.drop_last()) < n,
{
    lemma_capacity_of_constant(arity, schedule);
    lemma_capacity_of_constant(arity, schedule.drop_last());
    lemma_pow0(arity as int);
}

/// Two constant schedules for the same leaf count and arity are the same schedule.
pub proof fn lemma_constant_schedule_unique(n: nat, arity: nat, a: Seq<usize>, b: Seq<usize>)
    requires
        arity >= 2,
        is_constant_schedule(n, arity, a),
        is_constant_schedule(n, arity, b),
    ensures
        a == b,
{
    if a.len() < b.len() {
        lemma_pow_increases(arity, a.len(), (b.len() - 1) as nat);
    }
    if b.len() < a.len() {
        lemma_pow_increases(arity, b.len(), (a.len() - 1) as nat);
    }
    assert(a =~= b);
}

/// The arity schedule for `n` leaves with one branching factor throughout: the smallest
/// number of layers, at least one, whose capacity `arity^k` covers `n`.
pub fn constant_strategy(n: usize, arity: usize) -> (r: Result<Vec<usize>, AggregationError>)
    ensures
        r is Err <==> arity < 2,
        r matches Err(e) ==> e == AggregationError::ArityTooSmall,
        r matches Ok(s) ==> is_constant_schedule(n as nat, arity as nat, s@),
{
    if arity < 2 {
        return Err(AggregationError::ArityTooSmall);
    }
    let mut layers: Vec<usize> = Vec::new();
    layers.push(arity);
    let mut reach: usize = arity;
    proof {
        lemma_pow1(arity as int);
    }
    while reach < n
        invariant
            arity >= 2,
            layers@.len() >= 1,
            forall|i: int| 0 <= i < layers@.len() ==> layers@[i] == arity,
            reach == pow(arity as int, layers@.len()),
            reach >= 1,
            layers@.len() > 1 ==> pow(arity as int, (layers@.len() - 1) as nat) < n,
        decreases (if reach < n { n - reach } else { 0 }),
    {
        proof {
            lemma_pow_adds(arity as int, layers@.len(), 1);
            lemma_pow1(arity as int);
            assert(reach < reach * arity) by (nonlinear_arith)
                requires
                    reach >= 1,
                    arity >= 2,
            ;
        }
        layers.push(arity);
        match reach.checked_mul(arity) {
            Some(next) => {
                reach = next;
            },
            None => {
                return Ok(layers);
            },
        }
    }
    Ok(layers)
}

/// The capacity of a schedule as a machine integer, where it is one.
pub fn schedule_capacity(alignment: &[usize]) -> (r: Option<usize>)
    ensures
        r is Some <==> capacity(alignment@) <= usize::MAX,
        r matches Some(c) ==> c == capacity(alignment@),
{
    let mut i: usize = 0;
    while i < alignment.len()
        invariant
            i <= alignment@.len(),
            forall|j: int| 0 <= j < i ==> alignment@[j] >= 1,
        decreases alignment@.len() - i,
    {
        if alignment[i] == 0 {
            proof {
                lemma_capacity_with_zero(alignment@, i as int);
            }
            return Some(0);
        }
        i += 1;
    }
    let mut product: usize = 1;
    let mut k: usize = 0;
    while k < alignment.len()
        invariant
            k <= alignment@.len(),
            forall|j: int| 0 <= j < alignment@.len() ==> alignment@[j] >= 1,
            product == capacity(alignment@.take(k as int)),
        decreases alignment@.len() - k,
    {
        proof {
            let next = alignment@.take(k + 1);
            assert(next.drop_last() =~= alignment@.take(k as int));
            assert(next.last() == alignment@[k as int]);
            lemma_capacity_grows(alignment@, k + 1);
        }
        match product.checked_mul(alignment[k]) {
            Some(next) => {
                product = next;
            },
            None => {
                return None;
            },
        }
        k += 1;
    }
    proof {
        assert(alignment@.take(k as int) =~= alignment@);
    }
    Some(product)
}

/// A schedule with an arity of zero has capacity zero.
pub proof fn lemma_capacity_with_zero(schedule: Seq<usize>, at: int)
    requires
        0 <= at < schedule.len(),
        schedule[at] == 0,
    ensures
        capacity(schedule) == 0,
    decreases schedule.len(),
{
    if at < schedule.len() - 1 {
        lemma_capacity_with_zero(schedule.drop_last(), at);
    }
    assert(capacity(schedule) == capacity(schedule.drop_last()) * (schedule.last() as nat));
    lemma_mul_basics(capacity(schedule.drop_last()) as int);
    lemma_mul_basics(schedule.last() as int);
}

} // verus!
