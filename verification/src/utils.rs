//! Id generation: a short hex id derived from a SHA-256 digest over the
//! clock reading the caller supplies.

use vstd::prelude::*;
use vstd::string::*;
use sha2::Digest;
use crate::text::dec_digit;

verus! {

/// The lowercase hex digit for `d`.
pub open spec fn hex_digit(d: int) -> char {
    if d < 10 {
        dec_digit(d)
    } else if d == 10 {
        'a'
    } else if d == 11 {
        'b'
    } else if d == 12 {
        'c'
    } else if d == 13 {
        'd'
    } else if d == 14 {
        'e'
    } else {
        'f'
    }
}

/// The lowercase hex rendering of a byte string, two digits per byte.
pub open spec fn hex_of(bytes: Seq<u8>) -> Seq<char>
    decreases bytes.len(),
{
    if bytes.len() == 0 {
        Seq::empty()
    } else {
        hex_of(bytes.drop_last()) + seq![
            hex_digit(bytes.last() as int / 16),
            hex_digit(bytes.last() as int % 16),
        ]
    }
}

/// The first `count` bytes of the little-endian rendering of `n`.
pub open spec fn le_bytes(n: int, count: nat) -> Seq<u8>
    recommends
        n >= 0,
    decreases count,
{
    if count == 0 {
        Seq::empty()
    } else {
        seq![(n % 256) as u8] + le_bytes(n / 256, (count - 1) as nat)
    }
}

/// The SHA-256 digest of a byte string; a function of the bytes alone.
pub uninterp spec fn sha256_of(data: Seq<u8>) -> Seq<u8>;

/// Relies on `sha2::Sha256::digest`: the 32-byte SHA-256 digest of the
/// input, a function of the bytes alone.
#[verifier::external_body]
fn sha256_digest(data: &Vec<u8>) -> (r: Vec<u8>)
    ensures
        r@ == sha256_of(data@),
        r@.len() == 32,
{
    sha2::Sha256::digest(data.as_slice()).to_vec()
}

/// Relies on `hex::encode`: two lowercase hex digits per byte.
#[verifier::external_body]
fn hex_encode(bytes: &Vec<u8>) -> (r: String)
    ensures
        r@ == hex_of(bytes@),
{
    hex::encode(bytes.as_slice())
}

fn le_bytes_vec(n: u128, count: usize) -> (r: Vec<u8>)
    ensures
        r@ == le_bytes(n as int, count as nat),
{
    let ghost goal = le_bytes(n as int, count as nat);
    let mut out: Vec<u8> = Vec::new();
    let mut m = n;
    let mut i: usize = 0;
    proof {
        assert(out@ + le_bytes(n as int, count as nat) =~= goal);
    }
    while i < count
        invariant
            0 <= i <= count,
            goal == out@ + le_bytes(m as int, (count - i) as nat),
        decreases count - i,
    {
        let b = (m % 256) as u8;
        out.push(b);
        proof {
            assert(out@ =~= out@.drop_last().push(b));
            assert(out@.drop_last() + (seq![b] + le_bytes(m as int / 256, (count - i - 1) as nat))
                =~= out@ + le_bytes(m as int / 256, (count - i - 1) as nat));
        }
        m = m / 256;
        i += 1;
    }
    proof {
        assert(le_bytes(m as int, 0) =~= Seq::<u8>::empty());
        assert(out@ + Seq::<u8>::empty() =~= out@);
    }
    out
}

/// Extra entropy bytes mixed into an id: the first eight little-endian
/// bytes of the clock reading.
pub fn rand_bytes(now_nanos: u128) -> (r: Vec<u8>)
    ensures
        r@ == le_bytes(now_nanos as int, 8),
{
    le_bytes_vec(now_nanos, 8)
}

proof fn lemma_hex_of_len(bytes: Seq<u8>)
    ensures
        hex_of(bytes).len() == 2 * bytes.len(),
    decreases bytes.len(),
{
    if bytes.len() > 0 {
        lemma_hex_of_len(bytes.drop_last());
    }
}

/// A ten-digit hex id for a new file: the first five digest bytes of a
/// SHA-256 over the clock reading (as sixteen little-endian bytes)
/// followed by its first eight bytes again.  The caller supplies the
/// nanosecond reading.
pub fn generate_id(now_nanos: u128) -> (r: String)
    ensures
        r@ == hex_of(
            sha256_of(
                le_bytes(now_nanos as int, 16) + le_bytes(now_nanos as int, 8),
            ).take(5),
        ),
        r@.len() == 10,
{
    let mut data = le_bytes_vec(now_nanos, 16);
    let mut extra = rand_bytes(now_nanos);
    data.append(&mut extra);
    let digest = sha256_digest(&data);
    let mut head: Vec<u8> = Vec::new();
    let mut i: usize = 0;
    while i < 5
        invariant
            0 <= i <= 5,
            digest@.len() == 32,
            head@ == digest@.take(i as int),
        decreases 5 - i,
    {
        head.push(digest[i]);
        proof {
            assert(head@ =~= digest@.take(i + 1));
        }
        i += 1;
    }
    proof {
        lemma_hex_of_len(head@);
    }
    hex_encode(&head)
}

} // verus!
