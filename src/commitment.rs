//! A linear vector commitment over the scalar field: a key is a list of
//! generators and the commitment to `v` is the inner product of the two.
use vstd::prelude::*;
use crate::r1cs::{all_canonical, canonical, fadd, fmul, field_add, field_mul, MODULUS};

verus! {

/// The commitment to the first `k` values of `v` under the generators `g`.
pub open spec fn commit_prefix(g: Seq<u64>, v: Seq<u64>, k: nat) -> u64
    decreases k,
{
    if k == 0 {
        0
    } else {
        fadd(commit_prefix(g, v, (k - 1) as nat), fmul(g[k - 1], v[k - 1]))
    }
}

/// The commitment to the whole of `v` under the generators `g`.
pub open spec fn commit_spec(g: Seq<u64>, v: Seq<u64>) -> u64 {
    commit_prefix(g, v, v.len())
}

/// A commitment key: canonical generators, one per committed position.
pub struct CommitmentKey {
    gens: Vec<u64>,
}

impl View for CommitmentKey {
    type V = Seq<u64>;

    closed spec fn view(&self) -> Seq<u64> {
        self.gens@
    }
}

impl CommitmentKey {
    #[verifier::type_invariant]
    spec fn inv(self) -> bool {
        canonical(self.gens@)
    }

    /// Builds a key from raw generators, each reduced into the field.
    pub fn from_generators(gens: &Vec<u64>) -> (r: Self)
        ensures
            r@.len() == gens@.len(),
            forall|i: int| 0 <= i < gens@.len() ==> #[trigger] r@[i] == gens@[i] % MODULUS,
    {
        let mut out: Vec<u64> = Vec::new();
        let mut i: usize = 0;
        while i < gens.len()
            invariant
                i <= gens@.len(),
                out@.len() == i,
                forall|j: int| 0 <= j < i ==> #[trigger] out@[j] == gens@[j] % MODULUS,
            decreases gens@.len() - i,
        {
            out.push(gens[i] % MODULUS);
            i = i + 1;
        }
        CommitmentKey { gens: out }
    }

    /// A key with exactly these generators; `None` unless each is canonical.
    pub fn from_canonical(gens: Vec<u64>) -> (r: Option<Self>)
        ensures
            match r {
                Some(k) => canonical(gens@) && k@ == gens@,
                None => !canonical(gens@),
            },
    {
        if all_canonical(&gens) {
            Some(CommitmentKey { gens })
        } else {
            None
        }
    }

    /// A copy of the generators, each a canonical field element.
    pub fn generators(&self) -> (r: Vec<u64>)
        ensures
            r@ == self@,
            canonical(r@),
    {
        proof {
            use_type_invariant(self);
        }
        self.gens.clone()
    }

    /// A key holds at most `usize::MAX` generators.
    pub proof fn lemma_len_bound(&self)
        ensures
            self@.len() <= usize::MAX,
    {
        assert(self.gens@.len() == self.gens.len());
    }

    /// The number of generators, the longest vector the key commits to.
    pub fn capacity(&self) -> (r: usize)
        ensures
            r == self@.len(),
            canonical(self@),
    {
        proof {
            use_type_invariant(self);
        }
        self.gens.len()
    }

    /// A copy of the key with the same generators.
    pub fn duplicate(&self) -> (r: Self)
        ensures
            r@ == self@,
    {
        proof {
            use_type_invariant(self);
        }
        CommitmentKey { gens: self.gens.clone() }
    }

    /// Commits to `v`, which must fit the key.
    pub fn commit(&self, v: &Vec<u64>) -> (r: u64)
        requires
            v@.len() <= self@.len(),
            canonical(v@),
        ensures
            r == commit_spec(self@, v@),
            r < MODULUS,
    {
        proof {
            use_type_invariant(self);
        }
        let mut acc: u64 = 0;
        let mut i: usize = 0;
        while i < v.len()
            invariant
                i <= v@.len(),
                v@.len() <= self.gens@.len(),
                canonical(v@),
                canonical(self.gens@),
                acc == commit_prefix(self.gens@, v@, i as nat),
                acc < MODULUS,
            decreases v@.len() - i,
        {
            let term = field_mul(self.gens[i], v[i]);
            acc = field_add(acc, term);
            i = i + 1;
        }
        acc
    }
}

} // verus!
