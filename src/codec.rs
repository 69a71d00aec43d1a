//! A byte encoding: each value is a sequence of 64-bit words, and each word
//! is written as eight little-endian bytes.
use vstd::prelude::*;

verus! {

/// The eight little-endian bytes of `v`.
pub open spec fn u64_bytes(v: u64) -> Seq<u8> {
    seq![
        v as u8,
        (v >> 8u64) as u8,
        (v >> 16u64) as u8,
        (v >> 24u64) as u8,
        (v >> 32u64) as u8,
        (v >> 40u64) as u8,
        (v >> 48u64) as u8,
        (v >> 56u64) as u8,
    ]
}

/// The word that eight little-endian bytes spell.
pub open spec fn bytes_u64(b0: u8, b1: u8, b2: u8, b3: u8, b4: u8, b5: u8, b6: u8, b7: u8) -> u64 {
    (b0 as u64) | ((b1 as u64) << 8u64) | ((b2 as u64) << 16u64) | ((b3 as u64) << 24u64) | ((
    b4 as u64) << 32u64) | ((b5 as u64) << 40u64) | ((b6 as u64) << 48u64) | ((b7 as u64)
        << 56u64)
}

/// The bytes of a sequence of words, word after word.
pub open spec fn words_bytes(s: Seq<u64>) -> Seq<u8>
    decreases s.len(),
{
    if s.len() == 0 {
        Seq::empty()
    } else {
        words_bytes(s.drop_last()) + u64_bytes(s.last())
    }
}

proof fn lemma_u64_round_trip(v: u64)
    ensures
        bytes_u64(
            v as u8,
            (v >> 8u64) as u8,
            (v >> 16u64) as u8,
            (v >> 24u64) as u8,
            (v >> 32u64) as u8,
            (v >> 40u64) as u8,
            (v >> 48u64) as u8,
            (v >> 56u64) as u8,
        ) == v,
{
    assert(((v as u8) as u64) | ((((v >> 8u64) as u8) as u64) << 8u64) | ((((v >> 16u64) as u8)
        as u64) << 16u64) | ((((v >> 24u64) as u8) as u64) << 24u64) | ((((v >> 32u64) as u8)
        as u64) << 32u64) | ((((v >> 40u64) as u8) as u64) << 40u64) | ((((v >> 48u64) as u8)
        as u64) << 48u64) | ((((v >> 56u64) as u8) as u64) << 56u64) == v) by (bit_vector);
}

proof fn lemma_bytes_round_trip(b0: u8, b1: u8, b2: u8, b3: u8, b4: u8, b5: u8, b6: u8, b7: u8)
    ensures
        u64_bytes(bytes_u64(b0, b1, b2, b3, b4, b5, b6, b7)) == seq![b0, b1, b2, b3, b4, b5, b6, b7],
{
    let v = bytes_u64(b0, b1, b2, b3, b4, b5, b6, b7);
    assert(v == (b0 as u64) | ((b1 as u64) << 8u64) | ((b2 as u64) << 16u64) | ((b3 as u64)
        << 24u64) | ((b4 as u64) << 32u64) | ((b5 as u64) << 40u64) | ((b6 as u64) << 48u64) | ((
    b7 as u64) << 56u64));
    assert(v as u8 == b0 && (v >> 8u64) as u8 == b1 && (v >> 16u64) as u8 == b2 && (v >> 24u64)
        as u8 == b3) by (bit_vector)
        requires
            v == (b0 as u64) | ((b1 as u64) << 8u64) | ((b2 as u64) << 16u64) | ((b3 as u64)
                << 24u64) | ((b4 as u64) << 32u64) | ((b5 as u64) << 40u64) | ((b6 as u64)
                << 48u64) | ((b7 as u64) << 56u64),
    ;
    assert((v >> 32u64) as u8 == b4 && (v >> 40u64) as u8 == b5 && (v >> 48u64) as u8 == b6 && (v
        >> 56u64) as u8 == b7) by (bit_vector)
        requires
            v == (b0 as u64) | ((b1 as u64) << 8u64) | ((b2 as u64) << 16u64) | ((b3 as u64)
                << 24u64) | ((b4 as u64) << 32u64) | ((b5 as u64) << 40u64) | ((b6 as u64)
                << 48u64) | ((b7 as u64) << 56u64),
    ;
    assert(u64_bytes(v) =~= seq![b0, b1, b2, b3, b4, b5, b6, b7]);
}

pub proof fn lemma_words_bytes_len(s: Seq<u64>)
    ensures
        words_bytes(s).len() == 8 * s.len(),
    decreases s.len(),
{
    if s.len() > 0 {
        lemma_words_bytes_len(s.drop_last());
    }
}

/// Different word sequences have different bytes.
pub proof fn lemma_words_bytes_injective(s1: Seq<u64>, s2: Seq<u64>)
    requires
        words_bytes(s1) == words_bytes(s2),
    ensures
        s1 == s2,
    decreases s1.len(),
{
    lemma_words_bytes_len(s1);
    lemma_words_bytes_len(s2);
    if s1.len() > 0 {
        lemma_words_bytes_len(s1.drop_last());
        lemma_words_bytes_len(s2.drop_last());
        let n = words_bytes(s1.drop_last()).len();
        let b = words_bytes(s1);
        assert(b.subrange(0, n as int) =~= words_bytes(s1.drop_last()));
        assert(b.subrange(0, n as int) =~= words_bytes(s2.drop_last()));
        assert(b.subrange(n as int, b.len() as int) =~= u64_bytes(s1.last()));
        assert(b.subrange(n as int, b.len() as int) =~= u64_bytes(s2.last()));
        lemma_words_bytes_injective(s1.drop_last(), s2.drop_last());
        let u1 = u64_bytes(s1.last());
        lemma_u64_round_trip(s1.last());
        lemma_u64_round_trip(s2.last());
        assert(s1.last() == bytes_u64(u1[0], u1[1], u1[2], u1[3], u1[4], u1[5], u1[6], u1[7]));
        assert(s1 =~= s1.drop_last().push(s1.last()));
        assert(s2 =~= s2.drop_last().push(s2.last()));
    } else {
        assert(s2.len() == 0);
        assert(s1 =~= s2);
    }
}

/// The words that the bytes `b` spell, where some sequence of words does.
pub open spec fn bytes_words(b: Seq<u8>) -> Seq<u64> {
    choose|s: Seq<u64>| words_bytes(s) == b
}

/// Reading the bytes of a word sequence gives that sequence back.
pub proof fn lemma_bytes_words(s: Seq<u64>)
    ensures
        bytes_words(words_bytes(s)) == s,
{
    let b = words_bytes(s);
    assert(words_bytes(s) == b);
    let t = bytes_words(b);
    lemma_words_bytes_injective(t, s);
}

/// A word sequence prefixed by its length.
pub open spec fn len_prefixed(s: Seq<u64>) -> Seq<u64> {
    seq![s.len() as u64] + s
}

/// The length-prefixed word sequence that starts at `pos`, and the position
/// after it, if the words hold one there.
pub open spec fn prefixed_at(ws: Seq<u64>, pos: int) -> Option<(Seq<u64>, int)> {
    if 0 <= pos < ws.len() && pos + 1 + ws[pos] <= ws.len() {
        Some((ws.subrange(pos + 1, pos + 1 + ws[pos]), pos + 1 + ws[pos]))
    } else {
        None
    }
}

/// Where the words from `pos` on start with `s` prefixed by its length,
/// reading there gives `s` back.
pub proof fn lemma_prefixed_at(ws: Seq<u64>, pos: int, s: Seq<u64>)
    requires
        0 <= pos,
        pos + 1 + s.len() <= ws.len(),
        s.len() <= u64::MAX,
        ws.subrange(pos, pos + 1 + s.len()) == len_prefixed(s),
    ensures
        prefixed_at(ws, pos) == Some((s, pos + 1 + s.len())),
{
    assert(ws[pos] == ws.subrange(pos, pos + 1 + s.len())[0]);
    let n = s.len() as int;
    assert(ws.subrange(pos + 1, pos + 1 + n) =~= len_prefixed(s).subrange(1, 1 + n));
    assert(len_prefixed(s).subrange(1, 1 + n) =~= s);
}

/// Reads the length-prefixed word sequence that starts at `pos`, and the
/// position after it.
pub fn read_prefixed(words: &Vec<u64>, pos: usize) -> (r: Option<(Vec<u64>, usize)>)
    ensures
        r is Some <==> pos < words@.len() && pos + 1 + words@[pos as int] <= words@.len(),
        r matches Some((v, next)) ==> next == pos + 1 + words@[pos as int] && v@ == words@.subrange(
            pos + 1,
            next as int,
        ),
        match r {
            Some((v, next)) => prefixed_at(words@, pos as int) == Some((v@, next as int)),
            None => prefixed_at(words@, pos as int) is None,
        },
{
    if pos >= words.len() {
        return None;
    }
    let n = words[pos];
    if n > (words.len() - pos - 1) as u64 {
        return None;
    }
    let next = pos + 1 + n as usize;
    let mut out: Vec<u64> = Vec::new();
    let mut i: usize = pos + 1;
    while i < next
        invariant
            pos + 1 <= i <= next,
            next <= words@.len(),
            out@ == words@.subrange(pos + 1, i as int),
        decreases next - i,
    {
        out.push(words[i]);
        assert(words@.subrange(pos + 1, i + 1) =~= words@.subrange(pos + 1, i as int).push(words@[i as int]));
        i = i + 1;
    }
    Some((out, next))
}

/// Appends `s`, prefixed by its length, to `out`.
pub fn push_prefixed(out: &mut Vec<u64>, s: &Vec<u64>)
    ensures
        final(out)@ == old(out)@ + len_prefixed(s@),
{
    out.push(s.len() as u64);
    let ghost start = out@;
    let mut i: usize = 0;
    while i < s.len()
        invariant
            i <= s@.len(),
            out@ == start + s@.take(i as int),
        decreases s@.len() - i,
    {
        out.push(s[i]);
        assert(s@.take(i as int + 1) =~= s@.take(i as int).push(s@[i as int]));
        i = i + 1;
    }
    assert(s@.take(i as int) =~= s@);
    assert(out@ =~= old(out)@ + len_prefixed(s@));
}

/// Writes each word as eight little-endian bytes.
pub fn encode_words(s: &Vec<u64>) -> (r: Vec<u8>)
    ensures
        r@ == words_bytes(s@),
{
    let mut out: Vec<u8> = Vec::new();
    let mut i: usize = 0;
    while i < s.len()
        invariant
            i <= s@.len(),
            out@ == words_bytes(s@.take(i as int)),
        decreases s@.len() - i,
    {
        let v = s[i];
        out.push(v as u8);
        out.push((v >> 8u64) as u8);
        out.push((v >> 16u64) as u8);
        out.push((v >> 24u64) as u8);
        out.push((v >> 32u64) as u8);
        out.push((v >> 40u64) as u8);
        out.push((v >> 48u64) as u8);
        out.push((v >> 56u64) as u8);
        assert(s@.take(i as int + 1).drop_last() =~= s@.take(i as int));
        assert(out@ =~= words_bytes(s@.take(i as int + 1)));
        i = i + 1;
    }
    assert(s@.take(i as int) =~= s@);
    out
}

/// Reads bytes back as words; `None` when their count is not a multiple of eight.
pub fn decode_words(b: &Vec<u8>) -> (r: Option<Vec<u64>>)
    ensures
        r is Some <==> b@.len() % 8 == 0,
        r matches Some(s) ==> words_bytes(s@) == b@ && s@ == bytes_words(b@),
{
    if b.len() % 8 != 0 {
        proof {
            assert forall|s: Seq<u64>| words_bytes(s) != b@ by {
                lemma_words_bytes_len(s);
            }
        }
        return None;
    }
    let n = b.len() / 8;
    let mut out: Vec<u64> = Vec::new();
    let mut i: usize = 0;
    while i < n
        invariant
            n * 8 == b@.len(),
            i <= n,
            out@.len() == i,
            words_bytes(out@) == b@.take(8 * i as int),
        decreases n - i,
    {
        assert(8 * i + 8 <= n * 8) by (nonlinear_arith)
            requires
                i < n,
        ;
        assert(b@.len() == b.len());
        let k = 8 * i;
        let ghost prev = out@;
        let v = (b[k] as u64) | ((b[k + 1] as u64) << 8u64) | ((b[k + 2] as u64) << 16u64) | ((
        b[k + 3] as u64) << 24u64) | ((b[k + 4] as u64) << 32u64) | ((b[k + 5] as u64) << 40u64)
            | ((b[k + 6] as u64) << 48u64) | ((b[k + 7] as u64) << 56u64);
        proof {
            lemma_bytes_round_trip(b@[k as int], b@[k + 1], b@[k + 2], b@[k + 3], b@[k + 4], b@[k + 5], b@[k + 6], b@[k + 7]);
        }
        out.push(v);
        assert(out@.drop_last() =~= prev);
        assert(b@.take(8 * (i + 1) as int) =~= b@.take(8 * i as int) + u64_bytes(v));
        i = i + 1;
    }
    assert(b@.take(8 * i as int) =~= b@);
    proof {
        lemma_bytes_words(out@);
    }
    Some(out)
}

} // verus!
