use vstd::prelude::*;

verus! {

/// A proof as the aggregation sees it: the field elements that the proof publishes, in
/// order and in canonical form, and the proof system's own encoding of the rest.
#[derive(Debug, PartialEq, Eq)]
pub struct Proof {
    pub public_inputs: Vec<u64>,
    pub proof: Vec<u8>,
}

/// What a [`Proof`] holds.
pub ghost struct ProofView {
    pub public_inputs: Seq<u64>,
    pub proof: Seq<u8>,
}

impl View for Proof {
    type V = ProofView;

    open spec fn view(&self) -> ProofView {
        ProofView { public_inputs: self.public_inputs@, proof: self.proof@ }
    }
}

impl Clone for Proof {
    fn clone(&self) -> (copy: Self)
        ensures
            copy@ == self@,
    {
        Proof { public_inputs: self.public_inputs.clone(), proof: self.proof.clone() }
    }
}

/// What each proof of a list holds.
pub open spec fn proof_views(proofs: Seq<Proof>) -> Seq<ProofView> {
    proofs.map_values(|p: Proof| p@)
}

/// What each proof of a list publishes.
pub open spec fn public_inputs_of(proofs: Seq<ProofView>) -> Seq<Seq<u64>> {
    proofs.map_values(|p: ProofView| p.public_inputs)
}

/// What a list of proofs publishes in all: each proof's public inputs, one proof after
/// another.
pub open spec fn statements_of(proofs: Seq<ProofView>) -> Seq<u64> {
    public_inputs_of(proofs).flatten()
}

/// The public inputs of a list of proofs, one proof after another.
pub fn concat_public_inputs(proofs: &[Proof]) -> (flat: Vec<u64>)
    ensures
        flat@ == statements_of(proof_views(proofs@)),
{
    let mut flat: Vec<u64> = Vec::new();
    let mut p: usize = 0;
    let ghost groups = public_inputs_of(proof_views(proofs@));
    proof {
        assert(groups.take(0) =~= Seq::<Seq<u64>>::empty());
    }
    while p < proofs.len()
        invariant
            p <= proofs@.len(),
            groups == public_inputs_of(proof_views(proofs@)),
            flat@ == groups.take(p as int).flatten(),
        decreases proofs@.len() - p,
    {
        let inputs = &proofs[p].public_inputs;
        let ghost before = flat@;
        let mut j: usize = 0;
        while j < inputs.len()
            invariant
                j <= inputs@.len(),
                flat@ == before + inputs@.take(j as int),
            decreases inputs@.len() - j,
        {
            flat.push(inputs[j]);
            proof {
                assert(inputs@.take(j + 1) =~= inputs@.take(j as int).push(inputs@[j as int]));
            }
            j += 1;
        }
        proof {
            assert(inputs@.take(j as int) =~= inputs@);
            assert(groups.take(p + 1) =~= groups.take(p as int).push(inputs@));
            groups.take(p as int).lemma_flatten_push(inputs@);
        }
        p += 1;
    }
    proof {
        assert(groups.take(p as int) =~= groups);
    }
    flat
}

/// Whether two lists of field elements are the same list.
pub fn same_values(a: &[u64], b: &[u64]) -> (same: bool)
    ensures
        same <==> a@ == b@,
{
    if a.len() != b.len() {
        return false;
    }
    let mut i: usize = 0;
    while i < a.len()
        invariant
            i <= a@.len(),
            a@.len() == b@.len(),
            a@.take(i as int) == b@.take(i as int),
        decreases a@.len() - i,
    {
        if a[i] != b[i] {
            return false;
        }
        proof {
            assert(a@.take(i + 1) =~= a@.take(i as int).push(a@[i as int]));
            assert(b@.take(i + 1) =~= b@.take(i as int).push(b@[i as int]));
        }
        i += 1;
    }
    proof {
        assert(a@.take(i as int) =~= a@);
        assert(b@.take(i as int) =~= b@);
    }
    true
}

} // verus!
