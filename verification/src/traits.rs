use crate::error::AggregationError;
use crate::statement::aligned;
use crate::statement::lemma_statement_bounds;
use crate::statement::statement_at;
use vstd::arithmetic::mul::lemma_mul_basics;
use vstd::prelude::*;

verus! {

/// A statement as a circuit sees it: a group of wires that can be laid out flat, read back
/// from a flat run of wires, and given values.
///
/// The wires, the circuit builder and the witness belong to the proof system, so a
/// statement names them as types of its own choosing.
pub trait RecursiveTarget: Sized {
    /// What fixes the shape of a statement whose shape varies; `()` where it is fixed.
    type SIZE;

    /// The values that a statement's wires take.
    type VALUE;

    /// A wire of a circuit under construction.
    type Wire: Copy;

    /// The builder of the circuit that the wires belong to.
    type Builder;

    /// An assignment of values to wires.
    type Witness;

    /// The statement's wires, in the order in which they are published.
    fn to_vec(&self) -> Vec<Self::Wire>;

    /// The statement that a flat run of wires stands for.
    fn from_vec(builder: &mut Self::Builder, input: &[Self::Wire], size: &Self::SIZE) -> Self;

    /// Gives the statement's wires their values.
    fn set_witness(&self, pw: &mut Self::Witness, value: &Self::VALUE);
}

/// `statement` is what `from_vec` makes of the run `wires`, with some builder.
pub open spec fn decoded_from<S: RecursiveTarget>(
    statement: S,
    wires: Seq<S::Wire>,
    size: &S::SIZE,
) -> bool {
    exists|builder: &mut S::Builder, input: &[S::Wire]|
        input@ == wires && #[trigger] call_ensures(S::from_vec, (builder, input, size), statement)
}

/// A statement with a base circuit of its own, whose proofs can be aggregated.
pub trait Provable: RecursiveTarget {
    /// The compiled base circuit.
    type Circuit;

    /// Builds the base circuit, and the statement whose wires it publishes.
    fn build_circuit() -> (Self::Circuit, Self);

    /// Reads the statements back from the public inputs of an aggregated proof: cuts the
    /// wires into runs of `num_targets_per_statement` and makes a statement of each run, in
    /// order. The runs that padding filled come last and repeat the last leaf's statement.
    /// Wires that cannot be cut so are refused before the builder is touched.
    fn decode_statement_target(
        builder: &mut Self::Builder,
        public_inputs: &[Self::Wire],
        num_targets_per_statement: usize,
        statement_size: &Self::SIZE,
    ) -> (r: Result<Vec<Self>, AggregationError>)
        ensures
            r is Err <==> !aligned(public_inputs@.len(), num_targets_per_statement as nat),
            r matches Err(e) ==> e == AggregationError::MisalignedPublicInputs,
            r is Err ==> *final(builder) == *old(builder),
            r matches Ok(statements) ==> {
                &&& statements@.len() == public_inputs@.len() / (num_targets_per_statement as nat)
                &&& forall|i: int|
                    0 <= i < statements@.len() ==> decoded_from(
                        #[trigger] statements@[i],
                        statement_at(public_inputs@, num_targets_per_statement as nat, i),
                        statement_size,
                    )
            },
    {
        let width = num_targets_per_statement;
        let len = public_inputs.len();
        if width == 0 || len % width != 0 {
            return Err(AggregationError::MisalignedPublicInputs);
        }
        let count = len / width;
        let mut statements: Vec<Self> = Vec::new();
        let mut i: usize = 0;
        let mut at: usize = 0;
        proof {
            lemma_mul_basics(width as int);
        }
        while i < count
            invariant
                width > 0,
                len == public_inputs@.len(),
                count == len / width,
                i <= count,
                at == i * width,
                statements@.len() == i,
                forall|k: int|
                    0 <= k < i ==> decoded_from(
                        #[trigger] statements@[k],
                        statement_at(public_inputs@, width as nat, k),
                        statement_size,
                    ),
            decreases count - i,
        {
            proof {
                lemma_statement_bounds(len as nat, width as nat, i as int);
            }
            let run = &public_inputs[at..at + width];
            let statement = Self::from_vec(builder, run, statement_size);
            proof {
                assert(run@ == statement_at(public_inputs@, width as nat, i as int));
            }
            statements.push(statement);
            at += width;
            i += 1;
        }
        Ok(statements)
    }
}

} // verus!
