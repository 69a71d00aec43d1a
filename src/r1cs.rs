//! Relaxed R1CS shapes, instances and witnesses over a prime field, and the
//! relaxed equation that ties them together.
use vstd::prelude::*;

verus! {

/// The prime order of the scalar field, `2^31 - 1`.
pub const MODULUS: u64 = 2147483647;

/// One non-zero entry of a sparse matrix: row, column and value.
pub type Entry = (usize, usize, u64);

/// Holds when every value of `v` is a canonical field element.
pub open spec fn canonical(v: Seq<u64>) -> bool {
    forall|i: int| 0 <= i < v.len() ==> #[trigger] v[i] < MODULUS
}

/// The field product of two canonical elements.
pub open spec fn fmul(a: u64, b: u64) -> u64 {
    ((a as int * b as int) % (MODULUS as int)) as u64
}

/// The field sum of two canonical elements.
pub open spec fn fadd(a: u64, b: u64) -> u64 {
    ((a as int + b as int) % (MODULUS as int)) as u64
}

/// Multiplies two canonical field elements.
pub fn field_mul(a: u64, b: u64) -> (r: u64)
    requires
        a < MODULUS,
        b < MODULUS,
    ensures
        r == fmul(a, b),
        r < MODULUS,
{
    assert(a * b < 0x4000_0000_0000_0000) by (nonlinear_arith)
        requires
            a < MODULUS,
            b < MODULUS,
    ;
    (a * b) % MODULUS
}

/// Adds two canonical field elements.
pub fn field_add(a: u64, b: u64) -> (r: u64)
    requires
        a < MODULUS,
        b < MODULUS,
    ensures
        r == fadd(a, b),
        r < MODULUS,
{
    (a + b) % MODULUS
}

/// `m * z` over the first `k` entries of the sparse matrix `m`, as a vector
/// of `rows` field elements.
pub open spec fn mat_vec(m: Seq<Entry>, z: Seq<u64>, rows: nat, k: nat) -> Seq<u64>
    decreases k,
{
    if k == 0 || k > m.len() {
        Seq::new(rows, |i: int| 0u64)
    } else {
        let prev = mat_vec(m, z, rows, (k - 1) as nat);
        let e = m[k - 1];
        prev.update(e.0 as int, fadd(prev[e.0 as int], fmul(e.2, z[e.1 as int])))
    }
}

/// The model of a shape: its dimensions and its three matrices.
pub struct ShapeModel {
    pub num_cons: nat,
    pub num_vars: nat,
    pub num_io: nat,
    pub a: Seq<Entry>,
    pub b: Seq<Entry>,
    pub c: Seq<Entry>,
}

impl ShapeModel {
    /// Holds when every entry of `m` lies inside the shape with a canonical value.
    pub open spec fn entries_fit(self, m: Seq<Entry>) -> bool {
        forall|i: int|
            0 <= i < m.len() ==> {
                &&& (#[trigger] m[i]).0 < self.num_cons
                &&& m[i].1 < self.num_cols()
                &&& m[i].2 < MODULUS
            }
    }

    /// Holds when the dimensions fit in memory and the matrices fit the dimensions.
    pub open spec fn wf(self) -> bool {
        &&& self.num_vars + 1 + self.num_io <= usize::MAX
        &&& self.num_cons <= usize::MAX
        &&& self.entries_fit(self.a)
        &&& self.entries_fit(self.b)
        &&& self.entries_fit(self.c)
    }

    /// The column count: witness, the relaxation scalar, then public inputs.
    pub open spec fn num_cols(self) -> nat {
        self.num_vars + 1 + self.num_io
    }
}

/// The vector `z = (W, u, X)` that the matrices multiply.
pub open spec fn z_vector(w: Seq<u64>, u: u64, x: Seq<u64>) -> Seq<u64> {
    w + seq![u] + x
}

/// The relaxed equation `(A z) o (B z) == u * (C z) + E`, row by row.
pub open spec fn relation_holds(s: ShapeModel, w: Seq<u64>, e: Seq<u64>, u: u64, x: Seq<u64>) -> bool {
    let z = z_vector(w, u, x);
    let az = mat_vec(s.a, z, s.num_cons, s.a.len());
    let bz = mat_vec(s.b, z, s.num_cons, s.b.len());
    let cz = mat_vec(s.c, z, s.num_cons, s.c.len());
    forall|i: int|
        0 <= i < s.num_cons ==> #[trigger] fmul(az[i], bz[i]) == fadd(fmul(u, cz[i]), e[i])
}

/// An immutable relaxed R1CS shape: sizes and three sparse matrices.
pub struct R1CSShape {
    pub num_cons: usize,
    pub num_vars: usize,
    pub num_io: usize,
    pub a: Vec<Entry>,
    pub b: Vec<Entry>,
    pub c: Vec<Entry>,
}

impl View for R1CSShape {
    type V = ShapeModel;

    open spec fn view(&self) -> ShapeModel {
        ShapeModel {
            num_cons: self.num_cons as nat,
            num_vars: self.num_vars as nat,
            num_io: self.num_io as nat,
            a: self.a@,
            b: self.b@,
            c: self.c@,
        }
    }
}

/// Tells whether every value of `v` is a canonical field element.
pub fn all_canonical(v: &Vec<u64>) -> (r: bool)
    ensures
        r == canonical(v@),
{
    let mut i: usize = 0;
    while i < v.len()
        invariant
            i <= v.len(),
            canonical(v@.take(i as int)),
        decreases v.len() - i,
    {
        if v[i] >= MODULUS {
            assert(!canonical(v@)) by {
                assert(v@[i as int] >= MODULUS);
            }
            return false;
        }
        assert(canonical(v@.take(i as int + 1))) by {
            assert forall|j: int| 0 <= j < i + 1 implies #[trigger] v@.take(i as int + 1)[j] < MODULUS by {
                if j < i {
                    assert(v@.take(i as int)[j] < MODULUS);
                }
            }
        }
        i = i + 1;
    }
    assert(v@.take(i as int) =~= v@);
    true
}

/// Computes `m * z` as a vector of `rows` field elements.
fn multiply_vec(m: &Vec<Entry>, z: &Vec<u64>, rows: usize) -> (r: Vec<u64>)
    requires
        canonical(z@),
        forall|i: int|
            0 <= i < m@.len() ==> {
                &&& (#[trigger] m@[i]).0 < rows
                &&& m@[i].1 < z@.len()
                &&& m@[i].2 < MODULUS
            },
    ensures
        r@ == mat_vec(m@, z@, rows as nat, m@.len()),
        r@.len() == rows,
        canonical(r@),
{
    let mut acc: Vec<u64> = Vec::new();
    let mut j: usize = 0;
    while j < rows
        invariant
            j <= rows,
            acc@ == Seq::new(j as nat, |i: int| 0u64),
        decreases rows - j,
    {
        acc.push(0);
        j = j + 1;
    }
    assert(acc@ =~= mat_vec(m@, z@, rows as nat, 0));
    let mut k: usize = 0;
    while k < m.len()
        invariant
            k <= m@.len(),
            acc@ == mat_vec(m@, z@, rows as nat, k as nat),
            acc@.len() == rows,
            canonical(acc@),
            canonical(z@),
            forall|i: int|
                0 <= i < m@.len() ==> {
                    &&& (#[trigger] m@[i]).0 < rows
                    &&& m@[i].1 < z@.len()
                    &&& m@[i].2 < MODULUS
                },
        decreases m@.len() - k,
    {
        let (row, col, val) = m[k];
        assert(m@[k as int].0 < rows);
        let term = field_mul(val, z[col]);
        let sum = field_add(acc[row], term);
        acc.set(row, sum);
        k = k + 1;
    }
    acc
}

/// The model of a relaxed instance.
pub struct InstanceModel {
    pub comm_w: u64,
    pub comm_e: u64,
    pub x: Seq<u64>,
    pub u: u64,
}

/// The model of a relaxed witness.
pub struct WitnessModel {
    pub w: Seq<u64>,
    pub e: Seq<u64>,
}

/// The public half of a relaxed R1CS claim: commitments to the witness and
/// to the error vector, the public inputs and the relaxation scalar.
pub struct RelaxedR1CSInstance {
    pub comm_w: u64,
    pub comm_e: u64,
    pub x: Vec<u64>,
    pub u: u64,
}

impl View for RelaxedR1CSInstance {
    type V = InstanceModel;

    open spec fn view(&self) -> InstanceModel {
        InstanceModel { comm_w: self.comm_w, comm_e: self.comm_e, x: self.x@, u: self.u }
    }
}

/// The private half of a relaxed R1CS claim: the witness and error vectors.
pub struct RelaxedR1CSWitness {
    pub w: Vec<u64>,
    pub e: Vec<u64>,
}

impl View for RelaxedR1CSWitness {
    type V = WitnessModel;

    open spec fn view(&self) -> WitnessModel {
        WitnessModel { w: self.w@, e: self.e@ }
    }
}

/// Copies the entries of a sparse matrix.
fn copy_entries(m: &Vec<Entry>) -> (r: Vec<Entry>)
    ensures
        r@ == m@,
{
    let mut out: Vec<Entry> = Vec::new();
    let mut i: usize = 0;
    while i < m.len()
        invariant
            i <= m@.len(),
            out@ == m@.take(i as int),
        decreases m@.len() - i,
    {
        out.push(m[i]);
        assert(m@.take(i as int + 1) =~= m@.take(i as int).push(m@[i as int]));
        i = i + 1;
    }
    assert(m@.take(i as int) =~= m@);
    out
}

impl R1CSShape {
    /// A copy of the shape with the same model.
    pub fn duplicate(&self) -> (r: R1CSShape)
        ensures
            r@ == self@,
    {
        R1CSShape {
            num_cons: self.num_cons,
            num_vars: self.num_vars,
            num_io: self.num_io,
            a: copy_entries(&self.a),
            b: copy_entries(&self.b),
            c: copy_entries(&self.c),
        }
    }
    /// Tells whether the matrices fit the declared dimensions.
    pub fn is_well_formed(&self) -> (r: bool)
        ensures
            r == self@.wf(),
    {
        if self.num_vars > usize::MAX - 1 || self.num_io > usize::MAX - 1 - self.num_vars {
            return false;
        }
        let cols = self.num_vars + 1 + self.num_io;
        entries_fit(&self.a, self.num_cons, cols) && entries_fit(&self.b, self.num_cons, cols)
            && entries_fit(&self.c, self.num_cons, cols)
    }

    /// Tells whether `(W, E)` satisfies the relaxed equation for `u` and `X`.
    /// The dimensions must already agree with the shape.
    pub fn is_sat_relaxed(&self, w: &Vec<u64>, e: &Vec<u64>, u: u64, x: &Vec<u64>) -> (r: bool)
        requires
            self@.wf(),
            w@.len() == self.num_vars,
            e@.len() == self.num_cons,
            x@.len() == self.num_io,
            canonical(w@),
            canonical(e@),
            canonical(x@),
            u < MODULUS,
        ensures
            r == relation_holds(self@, w@, e@, u, x@),
    {
        let mut z: Vec<u64> = w.clone();
        z.push(u);
        let mut i: usize = 0;
        while i < x.len()
            invariant
                i <= x@.len(),
                z@ == w@ + seq![u] + x@.take(i as int),
            decreases x@.len() - i,
        {
            z.push(x[i]);
            assert(x@.take(i as int + 1) =~= x@.take(i as int).push(x@[i as int]));
            i = i + 1;
        }
        assert(x@.take(i as int) =~= x@);
        assert(z@ =~= z_vector(w@, u, x@));
        let ghost zs = z_vector(w@, u, x@);
        assert(canonical(z@)) by {
            assert forall|j: int| 0 <= j < z@.len() implies #[trigger] z@[j] < MODULUS by {
                if j < w@.len() {
                    assert(z@[j] == w@[j]);
                } else if j > w@.len() {
                    assert(z@[j] == x@[j - w@.len() - 1]);
                }
            }
        }
        let az = multiply_vec(&self.a, &z, self.num_cons);
        let bz = multiply_vec(&self.b, &z, self.num_cons);
        let cz = multiply_vec(&self.c, &z, self.num_cons);
        let mut r: usize = 0;
        while r < self.num_cons
            invariant
                r <= self.num_cons,
                zs == z_vector(w@, u, x@),
                az@ == mat_vec(self@.a, zs, self@.num_cons, self@.a.len()),
                bz@ == mat_vec(self@.b, zs, self@.num_cons, self@.b.len()),
                cz@ == mat_vec(self@.c, zs, self@.num_cons, self@.c.len()),
                az@.len() == self.num_cons,
                bz@.len() == self.num_cons,
                cz@.len() == self.num_cons,
                canonical(az@),
                canonical(bz@),
                canonical(cz@),
                canonical(e@),
                e@.len() == self.num_cons,
                u < MODULUS,
                forall|i: int| 0 <= i < r ==> #[trigger] fmul(az@[i], bz@[i]) == fadd(fmul(u, cz@[i]), e@[i]),
            decreases self.num_cons - r,
        {
            let lhs = field_mul(az[r], bz[r]);
            let uc = field_mul(u, cz[r]);
            let rhs = field_add(uc, e[r]);
            if lhs != rhs {
                assert(!relation_holds(self@, w@, e@, u, x@)) by {
                    assert(0 <= r < self@.num_cons);
                }
                return false;
            }
            r = r + 1;
        }
        true
    }
}

/// Tells whether every entry of `m` has a row below `rows`, a column below
/// `cols` and a canonical value.
fn entries_fit(m: &Vec<Entry>, rows: usize, cols: usize) -> (r: bool)
    ensures
        r == (forall|i: int|
            0 <= i < m@.len() ==> {
                &&& (#[trigger] m@[i]).0 < rows
                &&& m@[i].1 < cols
                &&& m@[i].2 < MODULUS
            }),
{
    let mut i: usize = 0;
    while i < m.len()
        invariant
            i <= m@.len(),
            forall|j: int|
                0 <= j < i ==> {
                    &&& (#[trigger] m@[j]).0 < rows
                    &&& m@[j].1 < cols
                    &&& m@[j].2 < MODULUS
                },
        decreases m@.len() - i,
    {
        let (row, col, val) = m[i];
        if row >= rows || col >= cols || val >= MODULUS {
            assert(!(m@[i as int].0 < rows && m@[i as int].1 < cols && m@[i as int].2 < MODULUS));
            return false;
        }
        i = i + 1;
    }
    true
}

} // verus!
