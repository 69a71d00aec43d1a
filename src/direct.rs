//! A proof system whose proof is the witness itself: the verifier opens the
//! instance's commitments and checks the relaxed equation directly. It is
//! sound and complete, though neither succinct nor zero-knowledge.
use vstd::prelude::*;
use crate::codec::{
    bytes_words, decode_words, encode_words, len_prefixed, lemma_bytes_words, lemma_prefixed_at,
    lemma_words_bytes_len, prefixed_at, push_prefixed, read_prefixed, words_bytes,
};
use crate::commitment::CommitmentKey;
use crate::errors::NovaError;
use crate::r1cs::{
    all_canonical, canonical, Entry, InstanceModel, R1CSShape, RelaxedR1CSInstance, RelaxedR1CSWitness,
    ShapeModel, WitnessModel, MODULUS,
};
use crate::snark::{dims_agree, satisfies, shape_floor, RelaxedR1CSSNARKTrait};

verus! {

/// The prover key: the dimensions of the shape it was derived from.
pub struct ProverKey {
    pub num_cons: usize,
    pub num_vars: usize,
    pub num_io: usize,
}

/// The verifier key: the commitment key and the shape to check against.
pub struct VerifierKey {
    pub ck: CommitmentKey,
    pub shape: R1CSShape,
}

/// A proof that carries the witness and error vectors in the clear.
pub struct DirectSNARK {
    pub w: Vec<u64>,
    pub e: Vec<u64>,
}

impl DirectSNARK {
    /// The witness that the proof carries.
    pub open spec fn witness(self) -> WitnessModel {
        WitnessModel { w: self.w@, e: self.e@ }
    }
}

impl ProverKey {
    /// Holds when the key was derived from a shape with the dimensions of `s`.
    pub open spec fn matches(self, s: ShapeModel) -> bool {
        &&& self.num_cons == s.num_cons
        &&& self.num_vars == s.num_vars
        &&& self.num_io == s.num_io
    }
}

/// Tells whether the lengths of `inst` and `wit` are those that `shape` declares.
fn check_dims(shape: &R1CSShape, inst: &RelaxedR1CSInstance, w: &Vec<u64>, e: &Vec<u64>) -> (r: bool)
    ensures
        r == dims_agree(shape@, inst@, WitnessModel { w: w@, e: e@ }),
{
    w.len() == shape.num_vars && e.len() == shape.num_cons && inst.x.len() == shape.num_io
}

/// Tells whether `(w, e)` opens the commitments of `inst` under `ck` and
/// satisfies the relaxed equation of `shape`. Sizes must already agree.
fn check_opening(
    ck: &CommitmentKey,
    shape: &R1CSShape,
    inst: &RelaxedR1CSInstance,
    w: &Vec<u64>,
    e: &Vec<u64>,
) -> (r: bool)
    requires
        shape@.wf(),
        dims_agree(shape@, inst@, WitnessModel { w: w@, e: e@ }),
        ck@.len() >= shape_floor(shape@),
    ensures
        r == satisfies(ck@, shape@, inst@, WitnessModel { w: w@, e: e@ }),
{
    if !all_canonical(w) || !all_canonical(e) || !all_canonical(&inst.x) || inst.u >= MODULUS {
        return false;
    }
    if ck.commit(w) != inst.comm_w || ck.commit(e) != inst.comm_e {
        return false;
    }
    shape.is_sat_relaxed(w, e, inst.u, &inst.x)
}

impl RelaxedR1CSSNARKTrait for DirectSNARK {
    type ProverKey = ProverKey;

    type VerifierKey = VerifierKey;

    open spec fn floor_of(s: ShapeModel) -> nat {
        shape_floor(s)
    }

    open spec fn verifier_key_wf(vk: VerifierKey) -> bool {
        canonical(vk.ck@)
    }

    open spec fn proof_bytes(self) -> Seq<u8> {
        words_bytes(proof_words(self.witness()))
    }

    open spec fn prover_key_bytes(pk: ProverKey) -> Seq<u8> {
        words_bytes(prover_key_words(pk))
    }

    open spec fn verifier_key_bytes(vk: VerifierKey) -> Seq<u8> {
        words_bytes(verifier_key_words(vk.ck@, vk.shape@))
    }

    open spec fn same_proof(self, other: DirectSNARK) -> bool {
        self.witness() == other.witness()
    }

    open spec fn same_prover_key(a: ProverKey, b: ProverKey) -> bool {
        a == b
    }

    open spec fn same_verifier_key(a: VerifierKey, b: VerifierKey) -> bool {
        a.ck@ == b.ck@ && a.shape@ == b.shape@
    }

    open spec fn prover_key_for(pk: ProverKey, ck: Seq<u64>, s: ShapeModel) -> bool {
        pk.matches(s)
    }

    open spec fn verifier_key_for(vk: VerifierKey, ck: Seq<u64>, s: ShapeModel) -> bool {
        vk.ck@ == ck && vk.shape@ == s
    }

    open spec fn proves(self, ck: Seq<u64>, s: ShapeModel, inst: InstanceModel, wit: WitnessModel) -> bool {
        self.witness() == wit
    }

    open spec fn accepts(self, vk: VerifierKey, inst: InstanceModel) -> bool {
        satisfies(vk.ck@, vk.shape@, inst, self.witness())
    }

    fn commitment_key_floor(shape: &R1CSShape) -> (r: usize) {
        if shape.num_vars >= shape.num_cons {
            shape.num_vars
        } else {
            shape.num_cons
        }
    }

    fn setup(ck: &CommitmentKey, shape: &R1CSShape) -> (r: Result<(ProverKey, VerifierKey), NovaError>) {
        if !shape.is_well_formed() {
            return Err(NovaError::SetupFailure);
        }
        if ck.capacity() < Self::commitment_key_floor(shape) {
            return Err(NovaError::KeyTooSmall);
        }
        let pk = ProverKey { num_cons: shape.num_cons, num_vars: shape.num_vars, num_io: shape.num_io };
        let vk = VerifierKey { ck: ck.duplicate(), shape: shape.duplicate() };
        Ok((pk, vk))
    }

    fn prove(
        ck: &CommitmentKey,
        pk: &ProverKey,
        shape: &R1CSShape,
        inst: &RelaxedR1CSInstance,
        wit: &RelaxedR1CSWitness,
    ) -> (r: Result<DirectSNARK, NovaError>)
        ensures
            r == Err::<DirectSNARK, NovaError>(NovaError::ShapeMismatch) <==> !shape@.wf()
                || !pk.matches(shape@) || !dims_agree(shape@, inst@, wit@),
            r == Err::<DirectSNARK, NovaError>(NovaError::KeyTooSmall) <==> shape@.wf()
                && pk.matches(shape@) && dims_agree(shape@, inst@, wit@) && ck@.len()
                < shape_floor(shape@),
            r == Err::<DirectSNARK, NovaError>(NovaError::UnsatisfiedRelation) <==> shape@.wf()
                && pk.matches(shape@) && dims_agree(shape@, inst@, wit@) && ck@.len()
                >= shape_floor(shape@) && !satisfies(ck@, shape@, inst@, wit@),
            r is Ok <==> pk.matches(shape@) && satisfies(ck@, shape@, inst@, wit@),
            r matches Ok(p) ==> p.witness() == wit@,
    {
        if !shape.is_well_formed() || pk.num_cons != shape.num_cons || pk.num_vars != shape.num_vars
            || pk.num_io != shape.num_io || !check_dims(shape, inst, &wit.w, &wit.e) {
            return Err(NovaError::ShapeMismatch);
        }
        if ck.capacity() < wit.w.len() || ck.capacity() < wit.e.len() {
            return Err(NovaError::KeyTooSmall);
        }
        if !check_opening(ck, shape, inst, &wit.w, &wit.e) {
            return Err(NovaError::UnsatisfiedRelation);
        }
        Ok(DirectSNARK { w: wit.w.clone(), e: wit.e.clone() })
    }

    fn verify(&self, vk: &VerifierKey, inst: &RelaxedR1CSInstance) -> (r: Result<(), NovaError>) {
        let shape = &vk.shape;
        if !shape.is_well_formed() || !check_dims(shape, inst, &self.w, &self.e) {
            return Err(NovaError::VerificationFailure);
        }
        if vk.ck.capacity() < self.w.len() || vk.ck.capacity() < self.e.len() {
            return Err(NovaError::VerificationFailure);
        }
        if !check_opening(&vk.ck, shape, inst, &self.w, &self.e) {
            return Err(NovaError::VerificationFailure);
        }
        Ok(())
    }

    fn encode_proof(&self) -> (r: Vec<u8>) {
        self.to_bytes()
    }

    fn decode_proof(b: &Vec<u8>) -> (r: Option<DirectSNARK>) {
        let r = DirectSNARK::from_bytes(b);
        proof {
            assert forall|p: DirectSNARK| #[trigger] p.proof_bytes() == b@ implies (r matches Some(
                q,
            ) && q.same_proof(p)) by {
                lemma_proof_round_trip(p);
            }
        }
        r
    }

    fn encode_prover_key(pk: &ProverKey) -> (r: Vec<u8>) {
        pk.to_bytes()
    }

    fn decode_prover_key(b: &Vec<u8>) -> (r: Option<ProverKey>) {
        let r = ProverKey::from_bytes(b);
        proof {
            assert forall|pk: ProverKey| #[trigger] DirectSNARK::prover_key_bytes(pk) == b@ implies (
            r matches Some(q) && DirectSNARK::same_prover_key(q, pk)) by {
                lemma_prover_key_round_trip(pk);
            }
        }
        r
    }

    fn encode_verifier_key(vk: &VerifierKey) -> (r: Vec<u8>) {
        vk.to_bytes()
    }

    fn decode_verifier_key(b: &Vec<u8>) -> (r: Option<VerifierKey>) {
        let r = VerifierKey::from_bytes(b);
        proof {
            assert forall|vk: VerifierKey|
                DirectSNARK::verifier_key_wf(vk) && #[trigger] DirectSNARK::verifier_key_bytes(vk)
                    == b@ implies (r matches Some(q) && DirectSNARK::same_verifier_key(q, vk)) by {
                lemma_verifier_key_round_trip(vk);
            }
        }
        r
    }

    proof fn lemma_same_proof(p: DirectSNARK, q: DirectSNARK, vk: VerifierKey, inst: InstanceModel) {
    }

    proof fn lemma_same_prover_key(pk: ProverKey, q: ProverKey, ck: Seq<u64>, s: ShapeModel) {
    }

    proof fn lemma_same_verifier_key(
        vk: VerifierKey,
        q: VerifierKey,
        p: DirectSNARK,
        ck: Seq<u64>,
        s: ShapeModel,
        inst: InstanceModel,
    ) {
    }

    proof fn lemma_completeness(
        p: DirectSNARK,
        vk: VerifierKey,
        ck: Seq<u64>,
        s: ShapeModel,
        inst: InstanceModel,
        wit: WitnessModel,
    ) {
    }

    proof fn lemma_soundness(p: DirectSNARK, vk: VerifierKey, ck: Seq<u64>, s: ShapeModel, inst: InstanceModel)
        ensures
            satisfies(ck, s, inst, p.witness()),
    {
    }

    proof fn lemma_setup_deterministic(
        p: DirectSNARK,
        vk1: VerifierKey,
        vk2: VerifierKey,
        ck: Seq<u64>,
        s: ShapeModel,
        inst: InstanceModel,
    ) {
    }
}

/// The words of a proof: its witness vector, then its error vector, each
/// prefixed by its length.
pub open spec fn proof_words(m: WitnessModel) -> Seq<u64> {
    len_prefixed(m.w) + len_prefixed(m.e)
}

/// The proof that a word sequence spells, if it spells one.
pub open spec fn words_proof(ws: Seq<u64>) -> Option<WitnessModel> {
    let n = ws[0] as int;
    if ws.len() >= 1 && n + 1 < ws.len() && ws.len() == n + 2 + ws[n + 1] as int {
        Some(WitnessModel { w: ws.subrange(1, n + 1), e: ws.subrange(n + 2, ws.len() as int) })
    } else {
        None
    }
}

/// The proof that a byte string spells, if it spells one.
pub open spec fn proof_from_bytes(b: Seq<u8>) -> Option<WitnessModel> {
    if b.len() % 8 == 0 {
        words_proof(bytes_words(b))
    } else {
        None
    }
}

/// The words of a prover key: its three dimensions.
pub open spec fn prover_key_words(pk: ProverKey) -> Seq<u64> {
    seq![pk.num_cons as u64, pk.num_vars as u64, pk.num_io as u64]
}

/// The prover key that a word sequence spells, if it spells one.
pub open spec fn words_prover_key(ws: Seq<u64>) -> Option<ProverKey> {
    if ws.len() == 3 && ws[0] <= usize::MAX && ws[1] <= usize::MAX && ws[2] <= usize::MAX {
        Some(ProverKey { num_cons: ws[0] as usize, num_vars: ws[1] as usize, num_io: ws[2] as usize })
    } else {
        None
    }
}

/// The prover key that a byte string spells, if it spells one.
pub open spec fn prover_key_from_bytes(b: Seq<u8>) -> Option<ProverKey> {
    if b.len() % 8 == 0 {
        words_prover_key(bytes_words(b))
    } else {
        None
    }
}

impl DirectSNARK {
    /// The bytes of the proof.
    pub fn to_bytes(&self) -> (r: Vec<u8>)
        ensures
            r@ == words_bytes(proof_words(self.witness())),
    {
        let mut ws: Vec<u64> = Vec::new();
        push_prefixed(&mut ws, &self.w);
        push_prefixed(&mut ws, &self.e);
        assert(ws@ =~= proof_words(self.witness()));
        encode_words(&ws)
    }

    /// Reads a proof back from its bytes.
    pub fn from_bytes(b: &Vec<u8>) -> (r: Option<DirectSNARK>)
        ensures
            match r {
                Some(p) => proof_from_bytes(b@) == Some(p.witness()),
                None => proof_from_bytes(b@) is None,
            },
    {
        let ws = match decode_words(b) {
            Some(ws) => ws,
            None => return None,
        };
        let (w, p1) = match read_prefixed(&ws, 0) {
            Some(x) => x,
            None => return None,
        };
        let (e, p2) = match read_prefixed(&ws, p1) {
            Some(x) => x,
            None => return None,
        };
        if p2 != ws.len() {
            return None;
        }
        Some(DirectSNARK { w, e })
    }
}

impl ProverKey {
    /// The bytes of the key.
    pub fn to_bytes(&self) -> (r: Vec<u8>)
        ensures
            r@ == words_bytes(prover_key_words(*self)),
    {
        let ws: Vec<u64> = vec![self.num_cons as u64, self.num_vars as u64, self.num_io as u64];
        assert(ws@ =~= prover_key_words(*self));
        encode_words(&ws)
    }

    /// Reads a key back from its bytes.
    pub fn from_bytes(b: &Vec<u8>) -> (r: Option<ProverKey>)
        ensures
            r == prover_key_from_bytes(b@),
    {
        let ws = match decode_words(b) {
            Some(ws) => ws,
            None => return None,
        };
        if ws.len() != 3 || ws[0] > usize::MAX as u64 || ws[1] > usize::MAX as u64 || ws[2]
            > usize::MAX as u64 {
            return None;
        }
        Some(ProverKey { num_cons: ws[0] as usize, num_vars: ws[1] as usize, num_io: ws[2] as usize })
    }
}

/// Decoding the bytes of a proof gives back its witness.
#[verifier::spinoff_prover]
pub proof fn lemma_proof_round_trip(p: DirectSNARK)
    ensures
        proof_from_bytes(words_bytes(proof_words(p.witness()))) == Some(p.witness()),
{
    let m = p.witness();
    let ws = proof_words(m);
    lemma_words_bytes_len(ws);
    lemma_bytes_words(ws);
    let n = m.w.len() as int;
    assert(p.w@.len() == p.w.len() && p.e@.len() == p.e.len());
    assert(ws[0] == m.w.len() as u64);
    assert(ws[n + 1] == m.e.len() as u64);
    assert(ws.subrange(1, n + 1) =~= m.w);
    assert(ws.subrange(n + 2, ws.len() as int) =~= m.e);
}

/// Decoding the bytes of a prover key gives back the same key.
pub proof fn lemma_prover_key_round_trip(pk: ProverKey)
    ensures
        prover_key_from_bytes(words_bytes(prover_key_words(pk))) == Some(pk),
{
    let ws = prover_key_words(pk);
    lemma_words_bytes_len(ws);
    lemma_bytes_words(ws);
}

/// The words of a sparse matrix: its rows, its columns and its values, each
/// prefixed by its length.
pub open spec fn entries_words(m: Seq<Entry>) -> Seq<u64> {
    len_prefixed(m.map_values(|e: Entry| e.0 as u64)) + len_prefixed(
        m.map_values(|e: Entry| e.1 as u64),
    ) + len_prefixed(m.map_values(|e: Entry| e.2))
}

/// The entries that parallel rows, columns and values describe.
pub open spec fn zip_entries(rows: Seq<u64>, cols: Seq<u64>, vals: Seq<u64>) -> Seq<Entry> {
    Seq::new(rows.len(), |i: int| (rows[i] as usize, cols[i] as usize, vals[i]))
}

/// Holds when every word of `s` fits in a `usize`.
pub open spec fn fits_usize(s: Seq<u64>) -> bool {
    forall|i: int| 0 <= i < s.len() ==> #[trigger] s[i] <= usize::MAX
}

/// The sparse matrix that starts at `pos`, and the position after it, if the
/// words hold one there.
pub open spec fn entries_at(ws: Seq<u64>, pos: int) -> Option<(Seq<Entry>, int)> {
    match prefixed_at(ws, pos) {
        Some((rows, p1)) => match prefixed_at(ws, p1) {
            Some((cols, p2)) => match prefixed_at(ws, p2) {
                Some((vals, p3)) => if cols.len() == rows.len() && vals.len() == rows.len()
                    && fits_usize(rows) && fits_usize(cols) {
                    Some((zip_entries(rows, cols, vals), p3))
                } else {
                    None
                },
                None => None,
            },
            None => None,
        },
        None => None,
    }
}

/// The words of a verifier key: the generators, the three dimensions of the
/// shape and its three matrices.
pub open spec fn verifier_key_words(ck: Seq<u64>, s: ShapeModel) -> Seq<u64> {
    len_prefixed(ck) + seq![s.num_cons as u64, s.num_vars as u64, s.num_io as u64] + entries_words(
        s.a,
    ) + entries_words(s.b) + entries_words(s.c)
}

/// The generators and shape that a word sequence spells, if it spells a
/// verifier key.
pub open spec fn words_verifier_key(ws: Seq<u64>) -> Option<(Seq<u64>, ShapeModel)> {
    match prefixed_at(ws, 0) {
        Some((ck, p1)) => if canonical(ck) && p1 + 3 <= ws.len() && ws[p1] <= usize::MAX && ws[p1
            + 1] <= usize::MAX && ws[p1 + 2] <= usize::MAX {
            match entries_at(ws, p1 + 3) {
                Some((a, p2)) => match entries_at(ws, p2) {
                    Some((b, p3)) => match entries_at(ws, p3) {
                        Some((c, p4)) => if p4 == ws.len() {
                            Some(
                                (
                                    ck,
                                    ShapeModel {
                                        num_cons: ws[p1] as nat,
                                        num_vars: ws[p1 + 1] as nat,
                                        num_io: ws[p1 + 2] as nat,
                                        a,
                                        b,
                                        c,
                                    },
                                ),
                            )
                        } else {
                            None
                        },
                        None => None,
                    },
                    None => None,
                },
                None => None,
            }
        } else {
            None
        },
        None => None,
    }
}

/// The generators and shape that a byte string spells, if it spells a
/// verifier key.
pub open spec fn verifier_key_from_bytes(b: Seq<u8>) -> Option<(Seq<u64>, ShapeModel)> {
    if b.len() % 8 == 0 {
        words_verifier_key(bytes_words(b))
    } else {
        None
    }
}

/// Appends the words of the matrix `m` to `out`.
fn push_entries(out: &mut Vec<u64>, m: &Vec<Entry>)
    ensures
        final(out)@ == old(out)@ + entries_words(m@),
{
    let mut rows: Vec<u64> = Vec::new();
    let mut cols: Vec<u64> = Vec::new();
    let mut vals: Vec<u64> = Vec::new();
    let mut i: usize = 0;
    while i < m.len()
        invariant
            i <= m@.len(),
            rows@ == m@.take(i as int).map_values(|e: Entry| e.0 as u64),
            cols@ == m@.take(i as int).map_values(|e: Entry| e.1 as u64),
            vals@ == m@.take(i as int).map_values(|e: Entry| e.2),
        decreases m@.len() - i,
    {
        let (r, c, v) = m[i];
        rows.push(r as u64);
        cols.push(c as u64);
        vals.push(v);
        assert(rows@ =~= m@.take(i as int + 1).map_values(|e: Entry| e.0 as u64));
        assert(cols@ =~= m@.take(i as int + 1).map_values(|e: Entry| e.1 as u64));
        assert(vals@ =~= m@.take(i as int + 1).map_values(|e: Entry| e.2));
        i = i + 1;
    }
    assert(m@.take(i as int) =~= m@);
    push_prefixed(out, &rows);
    push_prefixed(out, &cols);
    push_prefixed(out, &vals);
    assert(out@ =~= old(out)@ + entries_words(m@));
}

/// Reads the sparse matrix that starts at `pos`, and the position after it.
fn read_entries(ws: &Vec<u64>, pos: usize) -> (r: Option<(Vec<Entry>, usize)>)
    ensures
        match r {
            Some((m, next)) => entries_at(ws@, pos as int) == Some((m@, next as int)),
            None => entries_at(ws@, pos as int) is None,
        },
{
    let (rows, p1) = match read_prefixed(ws, pos) {
        Some(x) => x,
        None => return None,
    };
    let (cols, p2) = match read_prefixed(ws, p1) {
        Some(x) => x,
        None => return None,
    };
    let (vals, p3) = match read_prefixed(ws, p2) {
        Some(x) => x,
        None => return None,
    };
    if cols.len() != rows.len() || vals.len() != rows.len() {
        return None;
    }
    let mut out: Vec<Entry> = Vec::new();
    let mut i: usize = 0;
    while i < rows.len()
        invariant
            i <= rows@.len(),
            prefixed_at(ws@, pos as int) == Some((rows@, p1 as int)),
            prefixed_at(ws@, p1 as int) == Some((cols@, p2 as int)),
            prefixed_at(ws@, p2 as int) == Some((vals@, p3 as int)),
            cols@.len() == rows@.len(),
            vals@.len() == rows@.len(),
            fits_usize(rows@.take(i as int)),
            fits_usize(cols@.take(i as int)),
            out@ == zip_entries(rows@.take(i as int), cols@.take(i as int), vals@.take(i as int)),
        decreases rows@.len() - i,
    {
        if rows[i] > usize::MAX as u64 || cols[i] > usize::MAX as u64 {
            assert(!fits_usize(rows@) || !fits_usize(cols@)) by {
                assert(rows@[i as int] > usize::MAX || cols@[i as int] > usize::MAX);
            }
            return None;
        }
        out.push((rows[i] as usize, cols[i] as usize, vals[i]));
        assert(fits_usize(rows@.take(i as int + 1))) by {
            assert forall|j: int| 0 <= j < i + 1 implies #[trigger] rows@.take(i as int + 1)[j] <= usize::MAX by {
                if j < i {
                    assert(rows@.take(i as int)[j] <= usize::MAX);
                }
            }
        }
        assert(fits_usize(cols@.take(i as int + 1))) by {
            assert forall|j: int| 0 <= j < i + 1 implies #[trigger] cols@.take(i as int + 1)[j] <= usize::MAX by {
                if j < i {
                    assert(cols@.take(i as int)[j] <= usize::MAX);
                }
            }
        }
        assert(out@ =~= zip_entries(rows@.take(i as int + 1), cols@.take(i as int + 1), vals@.take(i as int + 1)));
        i = i + 1;
    }
    assert(rows@.take(i as int) =~= rows@);
    assert(cols@.take(i as int) =~= cols@);
    assert(vals@.take(i as int) =~= vals@);
    Some((out, p3))
}

/// Where the words from `pos` on start with the words of `m`, reading there
/// gives `m` back.
proof fn lemma_entries_at(ws: Seq<u64>, pos: int, m: Seq<Entry>)
    requires
        0 <= pos,
        pos + entries_words(m).len() <= ws.len(),
        m.len() <= u64::MAX,
        ws.subrange(pos, pos + entries_words(m).len()) == entries_words(m),
    ensures
        entries_at(ws, pos) == Some((m, pos + entries_words(m).len())),
{
    let rows = m.map_values(|e: Entry| e.0 as u64);
    let cols = m.map_values(|e: Entry| e.1 as u64);
    let vals = m.map_values(|e: Entry| e.2);
    let n = m.len() as int;
    let all = entries_words(m);
    assert(all.len() == 3 * n + 3);
    assert(ws.subrange(pos, pos + 1 + n) =~= all.subrange(0, 1 + n));
    assert(all.subrange(0, 1 + n) =~= len_prefixed(rows));
    lemma_prefixed_at(ws, pos, rows);
    assert(ws.subrange(pos + 1 + n, pos + 2 + 2 * n) =~= all.subrange(1 + n, 2 + 2 * n));
    assert(all.subrange(1 + n, 2 + 2 * n) =~= len_prefixed(cols));
    lemma_prefixed_at(ws, pos + 1 + n, cols);
    assert(ws.subrange(pos + 2 + 2 * n, pos + 3 + 3 * n) =~= all.subrange(2 + 2 * n, 3 + 3 * n));
    assert(all.subrange(2 + 2 * n, 3 + 3 * n) =~= len_prefixed(vals));
    lemma_prefixed_at(ws, pos + 2 + 2 * n, vals);
    assert(zip_entries(rows, cols, vals) =~= m);
}

impl VerifierKey {
    /// The bytes of the key.
    pub fn to_bytes(&self) -> (r: Vec<u8>)
        ensures
            r@ == words_bytes(verifier_key_words(self.ck@, self.shape@)),
            canonical(self.ck@),
    {
        let mut ws: Vec<u64> = Vec::new();
        push_prefixed(&mut ws, &self.ck.generators());
        ws.push(self.shape.num_cons as u64);
        ws.push(self.shape.num_vars as u64);
        ws.push(self.shape.num_io as u64);
        push_entries(&mut ws, &self.shape.a);
        push_entries(&mut ws, &self.shape.b);
        push_entries(&mut ws, &self.shape.c);
        assert(ws@ =~= verifier_key_words(self.ck@, self.shape@));
        encode_words(&ws)
    }

    /// Reads a key back from its bytes.
    pub fn from_bytes(b: &Vec<u8>) -> (r: Option<VerifierKey>)
        ensures
            match r {
                Some(vk) => verifier_key_from_bytes(b@) == Some((vk.ck@, vk.shape@)),
                None => verifier_key_from_bytes(b@) is None,
            },
    {
        let ws = match decode_words(b) {
            Some(ws) => ws,
            None => return None,
        };
        let (gens, p1) = match read_prefixed(&ws, 0) {
            Some(x) => x,
            None => return None,
        };
        if ws.len() - p1 < 3 {
            return None;
        }
        let (num_cons, num_vars, num_io) = (ws[p1], ws[p1 + 1], ws[p1 + 2]);
        if num_cons > usize::MAX as u64 || num_vars > usize::MAX as u64 || num_io > usize::MAX as u64 {
            return None;
        }
        let ck = match CommitmentKey::from_canonical(gens) {
            Some(k) => k,
            None => return None,
        };
        let (a, p2) = match read_entries(&ws, p1 + 3) {
            Some(x) => x,
            None => return None,
        };
        let (bm, p3) = match read_entries(&ws, p2) {
            Some(x) => x,
            None => return None,
        };
        let (c, p4) = match read_entries(&ws, p3) {
            Some(x) => x,
            None => return None,
        };
        if p4 != ws.len() {
            return None;
        }
        let shape = R1CSShape {
            num_cons: num_cons as usize,
            num_vars: num_vars as usize,
            num_io: num_io as usize,
            a,
            b: bm,
            c,
        };
        Some(VerifierKey { ck, shape })
    }
}

/// Decoding the bytes of a verifier key with canonical generators gives
/// back its generators and shape.
pub proof fn lemma_verifier_key_round_trip(vk: VerifierKey)
    requires
        canonical(vk.ck@),
    ensures
        verifier_key_from_bytes(words_bytes(verifier_key_words(vk.ck@, vk.shape@))) == Some(
            (vk.ck@, vk.shape@),
        ),
{
    let ck = vk.ck@;
    let s = vk.shape@;
    let ws = verifier_key_words(ck, s);
    lemma_words_bytes_len(ws);
    lemma_bytes_words(ws);
    vk.ck.lemma_len_bound();
    assert(vk.shape.a@.len() == vk.shape.a.len());
    assert(vk.shape.b@.len() == vk.shape.b.len());
    assert(vk.shape.c@.len() == vk.shape.c.len());
    let k = ck.len() as int;
    let ea = entries_words(s.a);
    let eb = entries_words(s.b);
    let ec = entries_words(s.c);
    let p2 = k + 4;
    let p3 = p2 + ea.len();
    let p4 = p3 + eb.len();
    assert(ws.subrange(0, 1 + k) =~= len_prefixed(ck));
    lemma_prefixed_at(ws, 0, ck);
    assert(ws[k + 1] == s.num_cons as u64);
    assert(ws[k + 2] == s.num_vars as u64);
    assert(ws[k + 3] == s.num_io as u64);
    assert(ws.subrange(p2, p3) =~= ea);
    lemma_entries_at(ws, p2, s.a);
    assert(ws.subrange(p3, p4) =~= eb);
    lemma_entries_at(ws, p3, s.b);
    assert(ws.subrange(p4, p4 + ec.len()) =~= ec);
    lemma_entries_at(ws, p4, s.c);
}

} // verus!
