//! Key files: sequences of 8-byte big-endian unsigned integers, their
//! encoding and decoding, and the synthetic sequential key sequence.
use crate::worker::{INIT_COUNT, TXN_COUNT};
use vstd::prelude::*;

verus! {

/// Byte `j` (0 is the most significant) of the big-endian form of `k`.
pub open spec fn be_byte(k: u64, j: int) -> u8 {
    ((k >> ((56 - 8 * j) as u64)) & 0xff) as u8
}

/// The eight big-endian bytes of `k`.
pub open spec fn be_bytes(k: u64) -> Seq<u8> {
    Seq::new(8, |j: int| be_byte(k, j))
}

/// The byte stream of a key file holding `keys` in order.
pub open spec fn encode_spec(keys: Seq<u64>) -> Seq<u8>
    decreases keys.len(),
{
    if keys.len() == 0 {
        Seq::empty()
    } else {
        encode_spec(keys.drop_last()) + be_bytes(keys.last())
    }
}

/// The unsigned integer that the bytes `b` spell, most significant first.
pub open spec fn be_value(b: Seq<u8>) -> int
    decreases b.len(),
{
    if b.len() == 0 {
        0
    } else {
        be_value(b.drop_last()) * 256 + b.last()
    }
}

/// The keys that a key file's bytes hold: one per full group of eight bytes;
/// trailing bytes that do not fill a group are ignored.
pub open spec fn decode_spec(b: Seq<u8>) -> Seq<u64>
    decreases b.len(),
{
    if b.len() < 8 {
        Seq::empty()
    } else {
        seq![be_value(b.take(8)) as u64] + decode_spec(b.skip(8))
    }
}

/// Appends the eight big-endian bytes of `k` to `out`.
pub fn push_be_bytes(out: &mut Vec<u8>, k: u64)
    ensures
        final(out)@ == old(out)@ + be_bytes(k),
{
    let mut j: u64 = 0;
    let ghost start = out@;
    while j < 8
        invariant
            j <= 8,
            out@ == start + be_bytes(k).take(j as int),
        decreases 8 - j,
    {
        let b = ((k >> (56 - 8 * j)) & 0xff) as u8;
        proof {
            assert(be_bytes(k).take(j + 1) =~= be_bytes(k).take(j as int).push(b));
        }
        out.push(b);
        j = j + 1;
    }
    assert(be_bytes(k).take(8) =~= be_bytes(k));
}

/// The key-file bytes of `keys`: eight big-endian bytes per key, in order.
pub fn encode_keys(keys: &Vec<u64>) -> (r: Vec<u8>)
    ensures
        r@ == encode_spec(keys@),
{
    let mut out: Vec<u8> = Vec::new();
    let mut i: usize = 0;
    assert(keys@.take(0) =~= Seq::<u64>::empty());
    while i < keys.len()
        invariant
            i <= keys@.len(),
            out@ == encode_spec(keys@.take(i as int)),
        decreases keys@.len() - i,
    {
        assert(keys@.take(i + 1).drop_last() =~= keys@.take(i as int));
        push_be_bytes(&mut out, keys[i]);
        i = i + 1;
    }
    assert(keys@.take(keys@.len() as int) =~= keys@);
    out
}

/// `256` to the power `n`.
pub open spec fn pow256(n: nat) -> int
    decreases n,
{
    if n == 0 {
        1
    } else {
        256 * pow256((n - 1) as nat)
    }
}

proof fn lemma_pow256_grows(i: nat, j: nat)
    requires
        i <= j,
    ensures
        0 < pow256(i) <= pow256(j),
    decreases j,
{
    if i < j {
        lemma_pow256_grows(i, (j - 1) as nat);
    } else if i > 0 {
        lemma_pow256_grows((i - 1) as nat, (i - 1) as nat);
    }
}

proof fn lemma_be_value_bound(b: Seq<u8>)
    ensures
        0 <= be_value(b),
        be_value(b) < pow256(b.len()),
    decreases b.len(),
{
    if b.len() > 0 {
        lemma_be_value_bound(b.drop_last());
        let v = be_value(b.drop_last());
        let p = pow256((b.len() - 1) as nat);
        let x = b.last() as int;
        assert(v * 256 + x < p * 256) by (nonlinear_arith)
            requires
                0 <= v < p,
                0 <= x < 256,
        ;
        assert(v * 256 + x >= 0) by (nonlinear_arith)
            requires
                0 <= v,
                0 <= x,
        ;
    }
}

/// Reads the big-endian key in `bytes[pos..pos + 8]`.
fn read_be_key(bytes: &Vec<u8>, pos: usize) -> (r: u64)
    requires
        pos + 8 <= bytes@.len(),
    ensures
        r == be_value(bytes@.subrange(pos as int, pos + 8)),
{
    let ghost whole = bytes@.subrange(pos as int, pos + 8);
    let _len = bytes.len();
    let mut v: u64 = 0;
    let mut j: usize = 0;
    assert(whole.take(0) =~= Seq::<u8>::empty());
    while j < 8
        invariant
            j <= 8,
            pos + 8 <= bytes@.len(),
            bytes@.len() <= usize::MAX,
            whole == bytes@.subrange(pos as int, pos + 8),
            v == be_value(whole.take(j as int)),
        decreases 8 - j,
    {
        let ghost pre = whole.take(j as int);
        proof {
            lemma_be_value_bound(pre);
            lemma_pow256_grows(j as nat, 7);
            reveal_with_fuel(pow256, 8);
            assert(pow256(7) == 72057594037927936);
            assert(whole.take(j + 1).drop_last() =~= pre);
        }
        let b = bytes[pos + j];
        v = v * 256 + b as u64;
        j = j + 1;
    }
    assert(whole.take(8) =~= whole);
    v
}

/// The keys that the key-file bytes `bytes` hold, in order; trailing bytes
/// that do not fill a group of eight are ignored.
pub fn decode_keys(bytes: &Vec<u8>) -> (r: Vec<u64>)
    ensures
        r@ == decode_spec(bytes@),
{
    let mut out: Vec<u64> = Vec::new();
    let mut pos: usize = 0;
    assert(bytes@.skip(0) =~= bytes@);
    while 8 <= bytes.len() - pos
        invariant
            pos <= bytes@.len(),
            out@ + decode_spec(bytes@.skip(pos as int)) == decode_spec(bytes@),
        decreases bytes@.len() - pos,
    {
        let k = read_be_key(bytes, pos);
        proof {
            let rest = bytes@.skip(pos as int);
            assert(rest.take(8) =~= bytes@.subrange(pos as int, pos + 8));
            assert(rest.skip(8) =~= bytes@.skip(pos + 8));
            assert(out@.push(k) + decode_spec(bytes@.skip(pos + 8)) =~= out@ + decode_spec(rest));
        }
        out.push(k);
        pos = pos + 8;
    }
    assert(decode_spec(bytes@.skip(pos as int)) =~= Seq::<u64>::empty());
    assert(out@ + Seq::<u64>::empty() =~= out@);
    out
}

proof fn lemma_shift_step(k: u64, s: u64)
    requires
        s <= 56,
    ensures
        (k >> s) as int == (k >> ((s + 8) as u64)) as int * 256 + ((k >> s) & 0xff) as int,
        ((k >> s) & 0xff) <= 0xff,
{
    let a = k >> ((s + 8) as u64);
    let b = (k >> s) & 0xff;
    let c = k >> s;
    assert(a <= 0xff_ffff_ffff_ffff && b <= 0xff && c == a * 256 + b) by (bit_vector)
        requires
            s <= 56,
            a == k >> ((s + 8) as u64),
            b == (k >> s) & 0xff,
            c == k >> s,
    ;
}

proof fn lemma_be_prefix(k: u64, j: nat)
    requires
        1 <= j <= 8,
    ensures
        be_value(be_bytes(k).take(j as int)) == (k >> ((64 - 8 * j) as u64)) as int,
    decreases j,
{
    let t = be_bytes(k).take(j as int);
    assert(t.drop_last() =~= be_bytes(k).take(j - 1));
    let s = (64 - 8 * j) as u64;
    lemma_shift_step(k, s);
    assert(t.last() == be_byte(k, j - 1));
    assert(((56 - 8 * (j - 1)) as u64) == s);
    assert(((s + 8) as u64) == ((64 - 8 * (j - 1)) as u64));
    assert(be_value(t) == be_value(t.drop_last()) * 256 + t.last());
    if j == 1 {
        assert(be_bytes(k).take(0) =~= Seq::<u8>::empty());
        assert((k >> 64u64) == 0) by (bit_vector);
    } else {
        lemma_be_prefix(k, (j - 1) as nat);
    }
}

proof fn lemma_be_value_of_bytes(k: u64)
    ensures
        be_value(be_bytes(k)) == k,
        decode_spec(be_bytes(k)) == seq![k],
{
    lemma_be_prefix(k, 8);
    assert(be_bytes(k).take(8) =~= be_bytes(k));
    assert((k >> 0u64) == k) by (bit_vector);
    assert(be_bytes(k).skip(8) =~= Seq::<u8>::empty());
    assert(decode_spec(be_bytes(k).skip(8)) =~= Seq::<u64>::empty());
    assert(decode_spec(be_bytes(k)) =~= seq![k]);
}

proof fn lemma_encode_len(keys: Seq<u64>)
    ensures
        encode_spec(keys).len() == 8 * keys.len(),
    decreases keys.len(),
{
    if keys.len() > 0 {
        lemma_encode_len(keys.drop_last());
    }
}

proof fn lemma_decode_append(a: Seq<u8>, b: Seq<u8>, groups: nat)
    requires
        a.len() == 8 * groups,
    ensures
        decode_spec(a + b) == decode_spec(a) + decode_spec(b),
    decreases groups,
{
    if groups == 0 {
        assert(a + b =~= b);
        assert(decode_spec(a) =~= Seq::<u64>::empty());
        assert(decode_spec(a) + decode_spec(b) =~= decode_spec(b));
    } else {
        assert((a + b).take(8) =~= a.take(8));
        assert((a + b).skip(8) =~= a.skip(8) + b);
        lemma_decode_append(a.skip(8), b, (groups - 1) as nat);
        assert(decode_spec(a + b) =~= decode_spec(a) + decode_spec(b));
    }
}

/// Decoding the bytes of an encoded key sequence gives the sequence back.
pub proof fn lemma_key_file_round_trip(keys: Seq<u64>)
    ensures
        decode_spec(encode_spec(keys)) == keys,
    decreases keys.len(),
{
    if keys.len() == 0 {
        assert(decode_spec(Seq::<u8>::empty()) =~= Seq::<u64>::empty());
    } else {
        let init = keys.drop_last();
        lemma_key_file_round_trip(init);
        lemma_encode_len(init);
        lemma_decode_append(encode_spec(init), be_bytes(keys.last()), init.len());
        lemma_be_value_of_bytes(keys.last());
        assert(init.push(keys.last()) =~= keys);
        assert(init + seq![keys.last()] =~= keys);
    }
}

/// Why a key file cannot be used.
#[derive(Clone, Copy, Debug, PartialEq, Eq, Structural)]
pub enum LoadError {
    /// The file holds `found` keys where the phase needs `expected`.
    WrongKeyCount { found: usize, expected: usize },
}

/// The keys of one phase from its key file's bytes: all of them when there
/// are exactly `expected`, else the count that was found.
pub fn load_keys(bytes: &Vec<u8>, expected: usize) -> (r: Result<Vec<u64>, LoadError>)
    ensures
        decode_spec(bytes@).len() == expected ==> r == Ok::<Vec<u64>, LoadError>(
            r.unwrap(),
        ) && r.unwrap()@ == decode_spec(bytes@),
        decode_spec(bytes@).len() != expected ==> r == Err::<Vec<u64>, LoadError>(
            LoadError::WrongKeyCount { found: decode_spec(bytes@).len() as usize, expected },
        ),
{
    let keys = decode_keys(bytes);
    if keys.len() != expected {
        Err(LoadError::WrongKeyCount { found: keys.len(), expected })
    } else {
        Ok(keys)
    }
}

/// The `i`-th key of the synthetic sequential workload: the population keys
/// in order, over and over.
pub fn sequential_key(i: usize) -> (r: u64)
    ensures
        r == i % INIT_COUNT,
{
    (i % INIT_COUNT) as u64
}

/// How many keys the synthetic sequential workload of phase `workload` holds:
/// `"load"` names the population phase and `"run"` the transaction phase;
/// any other name is no phase.
pub fn workload_key_count(workload: &str) -> (r: Option<usize>)
    ensures
        workload@ == "load"@ ==> r == Some(INIT_COUNT),
        workload@ == "run"@ ==> r == Some(TXN_COUNT),
        workload@ != "load"@ && workload@ != "run"@ ==> r is None,
{
    proof {
        reveal_strlit("load");
        reveal_strlit("run");
        assert("load"@.len() != "run"@.len());
    }
    let w = workload.to_owned();
    if w == "load".to_owned() {
        Some(INIT_COUNT)
    } else if w == "run".to_owned() {
        Some(TXN_COUNT)
    } else {
        None
    }
}

} // verus!
