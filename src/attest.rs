use vstd::prelude::*;

use crate::model::Contribution;
use crate::trusted::{base58, base58_of, sha3_256, sha3_256_of};

verus! {

/// The lower-case hex digit of a value under 16.
pub open spec fn hex_digit(v: u8) -> u8 {
    if v < 10 {
        (48 + v) as u8
    } else {
        (87 + v) as u8
    }
}

/// Two lower-case hex digits per byte, high nibble first.
pub open spec fn hex_of(s: Seq<u8>) -> Seq<u8>
    decreases s.len(),
{
    if s.len() == 0 {
        Seq::empty()
    } else {
        hex_of(s.drop_last()) + seq![hex_digit(s.last() / 16), hex_digit(s.last() % 16)]
    }
}

/// The decimal digits of a number, without leading zeros, as ASCII bytes.
pub open spec fn decimal_of(n: nat) -> Seq<u8>
    decreases n,
{
    if n < 10 {
        seq![(48 + n) as u8]
    } else {
        decimal_of(n / 10) + seq![(48 + n % 10) as u8]
    }
}

/// The unsigned integer whose little-endian bytes are the first eight of `n`.
pub open spec fn le_u64_value(n: Seq<u8>) -> nat {
    (n[0] + n[1] * 0x100 + n[2] * 0x1_0000 + n[3] * 0x100_0000 + n[4] * 0x1_0000_0000 + n[5]
        * 0x100_0000_0000 + n[6] * 0x1_0000_0000_0000 + n[7] * 0x100_0000_0000_0000) as nat
}

/// The line that commits to one contribution:
/// `"{member base58} {hex(d)} {le_u64(n)}\n"`.
pub open spec fn line_of(c: Contribution) -> Seq<u8> {
    base58_of(c.member@) + seq![32u8] + hex_of(c.solution.d@) + seq![32u8] + decimal_of(
        le_u64_value(c.solution.n@),
    ) + seq![10u8]
}

/// The lines of the contributions, in order.
pub open spec fn record_of(s: Seq<Contribution>) -> Seq<u8>
    decreases s.len(),
{
    if s.len() == 0 {
        Seq::empty()
    } else {
        record_of(s.drop_last()) + line_of(s.last())
    }
}

/// Reads a little-endian unsigned integer from eight bytes.
pub fn le_u64(n: &[u8; 8]) -> (r: u64)
    ensures
        r == le_u64_value(n@),
{
    n[0] as u64 + n[1] as u64 * 0x100 + n[2] as u64 * 0x1_0000 + n[3] as u64 * 0x100_0000
        + n[4] as u64 * 0x1_0000_0000 + n[5] as u64 * 0x100_0000_0000 + n[6] as u64
        * 0x1_0000_0000_0000 + n[7] as u64 * 0x100_0000_0000_0000
}

/// Appends the decimal digits of `n`.
pub fn push_decimal(out: &mut Vec<u8>, n: u64)
    ensures
        final(out)@ == old(out)@ + decimal_of(n as nat),
    decreases n,
{
    if n >= 10 {
        push_decimal(out, n / 10);
    }
    out.push((48 + n % 10) as u8);
    assert(final(out)@ =~= old(out)@ + decimal_of(n as nat));
}

/// Appends two lower-case hex digits per byte.
pub fn push_hex(out: &mut Vec<u8>, d: &[u8; 16])
    ensures
        final(out)@ == old(out)@ + hex_of(d@),
{
    let ghost start = out@;
    let mut i: usize = 0;
    while i < 16
        invariant
            i <= 16,
            d@.len() == 16,
            out@ == start + hex_of(d@.subrange(0, i as int)),
        decreases 16 - i,
    {
        let b = d[i];
        let hi: u8 = b / 16;
        let lo: u8 = b % 16;
        out.push(if hi < 10 { 48 + hi } else { 87 + hi });
        out.push(if lo < 10 { 48 + lo } else { 87 + lo });
        proof {
            let t = d@.subrange(0, i + 1);
            assert(t.drop_last() =~= d@.subrange(0, i as int));
            assert(out@ =~= start + hex_of(t));
        }
        i = i + 1;
    }
    assert(d@.subrange(0, 16) =~= d@);
}

/// Appends the line that commits to one contribution.
pub fn push_line(out: &mut Vec<u8>, c: &Contribution)
    ensures
        final(out)@ == old(out)@ + line_of(*c),
{
    let ghost start = out@;
    let mut key = base58(&c.member);
    out.append(&mut key);
    out.push(32u8);
    push_hex(out, &c.solution.d);
    out.push(32u8);
    push_decimal(out, le_u64(&c.solution.n));
    out.push(10u8);
    assert(out@ =~= start + line_of(*c));
}

/// The lines that commit to the contributions, in the order given.
pub fn attestation_record(cs: &Vec<Contribution>) -> (r: Vec<u8>)
    ensures
        r@ == record_of(cs@),
{
    let mut out: Vec<u8> = Vec::new();
    let mut i: usize = 0;
    while i < cs.len()
        invariant
            i <= cs@.len(),
            out@ == record_of(cs@.subrange(0, i as int)),
        decreases cs@.len() - i,
    {
        push_line(&mut out, &cs[i]);
        proof {
            let t = cs@.subrange(0, i + 1);
            assert(t.drop_last() =~= cs@.subrange(0, i as int));
        }
        i = i + 1;
    }
    assert(cs@.subrange(0, cs@.len() as int) =~= cs@);
    out
}

/// The SHA3-256 digest of the lines that commit to the contributions.
pub fn attestation_of(cs: &Vec<Contribution>) -> (r: [u8; 32])
    ensures
        r@ == sha3_256_of(record_of(cs@)),
{
    let record = attestation_record(cs);
    sha3_256(&record)
}

} // verus!
