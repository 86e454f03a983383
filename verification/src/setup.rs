use crate::error::AggregationError;
use crate::schedule::arities_valid;
use crate::schedule::capacity;
use crate::schedule::schedule_capacity;
use vstd::prelude::*;

verus! {

/// What is wrong with a schedule for `n` leaves, if anything: no leaf at all, a layer that
/// does not reduce, or a capacity that `n` exceeds or that no machine integer holds.
pub open spec fn schedule_error(n: nat, schedule: Seq<usize>) -> Option<AggregationError> {
    if n == 0 {
        Some(AggregationError::NoLeaves)
    } else if !arities_valid(schedule) {
        Some(AggregationError::ArityTooSmall)
    } else if !(n <= capacity(schedule) <= usize::MAX) {
        Some(AggregationError::AggregationArityMismatch)
    } else {
        None
    }
}

/// Checks a schedule against a leaf count and gives its capacity.
pub fn check_schedule(n: usize, alignment: &[usize]) -> (r: Result<usize, AggregationError>)
    ensures
        match r {
            Ok(c) => schedule_error(n as nat, alignment@) is None && c == capacity(alignment@),
            Err(e) => schedule_error(n as nat, alignment@) == Some(e),
        },
{
    if n == 0 {
        return Err(AggregationError::NoLeaves);
    }
    let mut i: usize = 0;
    while i < alignment.len()
        invariant
            n > 0,
            i <= alignment@.len(),
            forall|j: int| 0 <= j < i ==> alignment@[j] >= 2,
        decreases alignment@.len() - i,
    {
        if alignment[i] < 2 {
            assert(alignment@[i as int] < 2);
            return Err(AggregationError::ArityTooSmall);
        }
        i += 1;
    }
    match schedule_capacity(alignment) {
        Some(c) => {
            if n <= c {
                Ok(c)
            } else {
                Err(AggregationError::AggregationArityMismatch)
            }
        },
        None => Err(AggregationError::AggregationArityMismatch),
    }
}

/// Everything that is built once, before any proof is aggregated: the leaf count, the arity
/// of each layer, each layer's compiled circuit and, for each layer, the wire groups of its
/// verification gadgets, one for each child.
///
/// The circuits `C` and gadget wire groups `T` belong to the proof system; they are kept
/// and handed out, never looked into.
pub struct AggregationSetUp<C, T> {
    pub n: usize,
    pub alignment: Vec<usize>,
    pub circuits_data: Vec<C>,
    pub proof_t_vecs: Vec<Vec<T>>,
}

/// There are `built` layers, and each has one gadget for each child.
pub open spec fn layers_fit<C, T>(
    schedule: Seq<usize>,
    circuits: Seq<C>,
    gadgets: Seq<Vec<T>>,
    built: nat,
) -> bool {
    &&& built <= schedule.len()
    &&& circuits.len() == built
    &&& gadgets.len() == built
    &&& forall|i: int| 0 <= i < built ==> (#[trigger] gadgets[i])@.len() == schedule[i]
}

impl<C, T> AggregationSetUp<C, T> {
    /// What is wrong with the setup, if anything: first its schedule, then the number of
    /// its layers, with which no reduction could end at one proof, then the gadgets of each
    /// layer.
    pub open spec fn error(&self) -> Option<AggregationError> {
        if schedule_error(self.n as nat, self.alignment@) is Some {
            schedule_error(self.n as nat, self.alignment@)
        } else if self.circuits_data@.len() != self.alignment@.len() || self.proof_t_vecs@.len()
            != self.alignment@.len() {
            Some(AggregationError::AggregationArityMismatch)
        } else if !layers_fit(
            self.alignment@,
            self.circuits_data@,
            self.proof_t_vecs@,
            self.alignment@.len(),
        ) {
            Some(AggregationError::IncompatibleRecursionConfig)
        } else {
            None
        }
    }

    /// The schedule covers the leaf count, and every layer of it has been built to it.
    pub open spec fn wf(&self) -> bool {
        self.error() is None
    }

    /// Checks the setup and gives the capacity of its schedule.
    pub fn check(&self) -> (r: Result<usize, AggregationError>)
        ensures
            match r {
                Ok(c) => self.wf() && c == capacity(self.alignment@),
                Err(e) => self.error() == Some(e),
            },
    {
        let c = check_schedule(self.n, self.alignment.as_slice())?;
        let layers = self.alignment.len();
        if self.circuits_data.len() != layers || self.proof_t_vecs.len() != layers {
            return Err(AggregationError::AggregationArityMismatch);
        }
        let mut i: usize = 0;
        while i < layers
            invariant
                i <= layers,
                schedule_error(self.n as nat, self.alignment@) is None,
                layers == self.alignment@.len(),
                layers == self.proof_t_vecs@.len(),
                layers == self.circuits_data@.len(),
                forall|j: int|
                    0 <= j < i ==> (#[trigger] self.proof_t_vecs@[j])@.len() == self.alignment@[j],
            decreases layers - i,
        {
            if self.proof_t_vecs[i].len() != self.alignment[i] {
                assert(self.proof_t_vecs@[i as int]@.len() != self.alignment@[i as int]);
                return Err(AggregationError::IncompatibleRecursionConfig);
            }
            i += 1;
        }
        Ok(c)
    }
}

/// What the next layer is to be built from.
pub struct LayerPlan<'a, C> {
    /// The layer's place in the schedule, counted from the leaves.
    pub layer: usize,
    /// How many verification gadgets the layer's circuit holds.
    pub arity: usize,
    /// The circuit whose proofs the gadgets verify: the layer below, or `None` for the base
    /// circuit.
    pub inner: Option<&'a C>,
}

/// A setup under construction, layer by layer from the leaves up.
///
/// The proof system builds each circuit; this type says which layer comes next and against
/// which circuit, and takes in the result, or the news that there is none.
pub struct CircuitAssembly<C, T> {
    n: usize,
    alignment: Vec<usize>,
    circuits_data: Vec<C>,
    proof_t_vecs: Vec<Vec<T>>,
}

impl<C, T> CircuitAssembly<C, T> {
    #[verifier::type_invariant]
    spec fn inv(&self) -> bool {
        &&& schedule_error(self.n as nat, self.alignment@) is None
        &&& layers_fit(
            self.alignment@,
            self.circuits_data@,
            self.proof_t_vecs@,
            self.circuits_data@.len(),
        )
    }

    /// The number of leaves that the setup is built for.
    pub closed spec fn leaf_count(&self) -> nat {
        self.n as nat
    }

    /// The arity of each layer.
    pub closed spec fn schedule(&self) -> Seq<usize> {
        self.alignment@
    }

    /// The circuits built so far, the lowest layer first.
    pub closed spec fn circuits(&self) -> Seq<C> {
        self.circuits_data@
    }

    /// The gadget wire groups of the layers built so far.
    pub closed spec fn gadgets(&self) -> Seq<Vec<T>> {
        self.proof_t_vecs@
    }

    /// Starts a setup for `n` leaves with the given arities, none of its layers built yet.
    pub fn new(n: usize, alignment: Vec<usize>) -> (r: Result<Self, AggregationError>)
        ensures
            match r {
                Ok(a) => {
                    &&& schedule_error(n as nat, alignment@) is None
                    &&& a.leaf_count() == n
                    &&& a.schedule() == alignment@
                    &&& a.circuits().len() == 0
                    &&& a.gadgets().len() == 0
                },
                Err(e) => schedule_error(n as nat, alignment@) == Some(e),
            },
    {
        let _ = check_schedule(n, alignment.as_slice())?;
        Ok(CircuitAssembly { n, alignment, circuits_data: Vec::new(), proof_t_vecs: Vec::new() })
    }

    /// The layer to build next, or `None` once every layer of the schedule is built.
    pub fn next_layer(&self) -> (plan: Option<LayerPlan<'_, C>>)
        ensures
            self.circuits().len() == self.gadgets().len() <= self.schedule().len(),
            plan is None <==> self.circuits().len() == self.schedule().len(),
            plan matches Some(p) ==> {
                &&& p.layer == self.circuits().len()
                &&& p.arity == self.schedule()[p.layer as int]
                &&& p.arity >= 2
                &&& p.inner matches Some(c) ==> p.layer > 0 && *c == self.circuits().last()
                &&& p.inner is None <==> p.layer == 0
            },
    {
        proof {
            use_type_invariant(self);
        }
        let layer = self.circuits_data.len();
        if layer == self.alignment.len() {
            None
        } else if layer == 0 {
            Some(LayerPlan { layer, arity: self.alignment[layer], inner: None })
        } else {
            Some(
                LayerPlan {
                    layer,
                    arity: self.alignment[layer],
                    inner: Some(&self.circuits_data[layer - 1]),
                },
            )
        }
    }

    /// Takes in what became of the next layer: its compiled circuit and the wire groups of
    /// its gadgets, one for each child, or `None` where the proof system could not attach
    /// the gadgets and built no circuit.
    ///
    /// A layer that could not be built ends the assembly: there is no setup, not even a
    /// partial one.
    pub fn add_layer(self, built: Option<(C, Vec<T>)>) -> (r: Result<Self, AggregationError>)
        ensures
            match r {
                Ok(a) => {
                    &&& built matches Some((data, proofs_t))
                    &&& self.circuits().len() < self.schedule().len()
                    &&& proofs_t@.len() == self.schedule()[self.circuits().len() as int]
                    &&& a.leaf_count() == self.leaf_count()
                    &&& a.schedule() == self.schedule()
                    &&& a.circuits() == self.circuits().push(data)
                    &&& a.gadgets() == self.gadgets().push(proofs_t)
                },
                Err(e) => if built is None {
                    e == AggregationError::IncompatibleRecursionConfig
                } else if self.circuits().len() >= self.schedule().len() {
                    e == AggregationError::AggregationArityMismatch
                } else {
                    &&& built matches Some((data, proofs_t))
                    &&& proofs_t@.len() != self.schedule()[self.circuits().len() as int]
                    &&& e == AggregationError::IncompatibleRecursionConfig
                },
            },
    {
        proof {
            use_type_invariant(&self);
        }
        let (data, proofs_t) = match built {
            Some(layer) => layer,
            None => {
                return Err(AggregationError::IncompatibleRecursionConfig);
            },
        };
        let layer = self.circuits_data.len();
        if layer >= self.alignment.len() {
            return Err(AggregationError::AggregationArityMismatch);
        }
        if proofs_t.len() != self.alignment[layer] {
            return Err(AggregationError::IncompatibleRecursionConfig);
        }
        let CircuitAssembly { n, alignment, mut circuits_data, mut proof_t_vecs } = self;
        circuits_data.push(data);
        proof_t_vecs.push(proofs_t);
        Ok(CircuitAssembly { n, alignment, circuits_data, proof_t_vecs })
    }

    /// The finished setup, once every layer of the schedule is built.
    pub fn finish(self) -> (r: Result<AggregationSetUp<C, T>, AggregationError>)
        ensures
            r is Ok <==> self.circuits().len() == self.schedule().len(),
            r matches Err(e) ==> e == AggregationError::AggregationArityMismatch,
            r matches Ok(setup) ==> {
                &&& setup.wf()
                &&& setup.n == self.leaf_count()
                &&& setup.alignment@ == self.schedule()
                &&& setup.circuits_data@ == self.circuits()
                &&& setup.proof_t_vecs@ == self.gadgets()
            },
    {
        proof {
            use_type_invariant(&self);
        }
        if self.circuits_data.len() != self.alignment.len() {
            return Err(AggregationError::AggregationArityMismatch);
        }
        let CircuitAssembly { n, alignment, circuits_data, proof_t_vecs } = self;
        Ok(AggregationSetUp { n, alignment, circuits_data, proof_t_vecs })
    }
}

} // verus!
