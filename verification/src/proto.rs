//! The binary schema of the RPC echo payload: a message with one
//! length-delimited string field, field number 1. The decoder takes the
//! protocol's general wire form: a stream of records, each a varint key
//! (field number and wire type) and a payload; unknown fields are skipped by
//! wire type, varints may take up to ten bytes in any encoding of a 64-bit
//! value, and on repeated occurrences of field 1 the last one wins. An empty
//! encoding stands for the empty message. The encoder writes the canonical
//! single-record form.

use vstd::prelude::*;
use crate::bytes::append_bytes;
use crate::bytes::copy_range;

verus! {

/// The tag byte of field 1 with wire type 2 (length-delimited).
pub const FIELD_1_TAG: u8 = 10;

/// The largest length the encoder may write: the frame around the encoded
/// message carries a four-byte length.
pub const MAX_FIELD_LEN: u64 = 0xffff_ffff;

/// 128 to the power `k`.
pub open spec fn pow128(k: nat) -> nat
    decreases k,
{
    if k == 0 {
        1
    } else {
        128 * pow128((k - 1) as nat)
    }
}

/// The base-128 varint encoding of `n`, least significant group first.
pub open spec fn enc_varint(n: nat) -> Seq<u8>
    decreases n,
{
    if n < 128 {
        seq![n as u8]
    } else {
        seq![(128 + n % 128) as u8] + enc_varint(n / 128)
    }
}

/// Reads a varint at `i`, spending at most `fuel` bytes.
pub open spec fn dec_varint(s: Seq<u8>, i: int, fuel: nat) -> Option<(nat, int)>
    decreases fuel,
{
    if fuel == 0 || i < 0 || i >= s.len() {
        None
    } else if s[i] < 128 {
        Some((s[i] as nat, i + 1))
    } else {
        match dec_varint(s, i + 1, (fuel - 1) as nat) {
            None => None,
            Some(p) => Some((((s[i] - 128) + 128 * p.0) as nat, p.1)),
        }
    }
}

/// Reads a varint of at most `fuel` bytes whose value fits 64 bits.
pub open spec fn dec_varint_capped(s: Seq<u8>, i: int, fuel: nat) -> Option<(nat, int)> {
    match dec_varint(s, i, fuel) {
        None => None,
        Some(p) => if p.0 < 0x1_0000_0000_0000_0000 {
            Some(p)
        } else {
            None
        },
    }
}

/// Reads a 64-bit varint as the wire format has it: at most ten bytes, any
/// encoding, the value within 64 bits.
pub open spec fn dec_u64(s: Seq<u8>, i: int) -> Option<(nat, int)> {
    dec_varint_capped(s, i, 10)
}

/// How deep skipped groups may nest, after the reference decoder's
/// recursion limit.
pub const MAX_GROUP_DEPTH: u32 = 100;

/// Reads past the payload of a field with number `field` and wire type `wt`
/// starting at `j`: varints, 64-bit and 32-bit scalars, length-delimited
/// payloads, and balanced deprecated groups up to `depth` nestings.
pub open spec fn skip_field(s: Seq<u8>, j: int, field: nat, wt: nat, depth: nat) -> Option<int>
    decreases s.len() - j, 1int,
{
    if !(0 <= j <= s.len()) {
        None
    } else if wt == 0 {
        match dec_u64(s, j) {
            None => None,
            Some(p) => Some(p.1),
        }
    } else if wt == 1 {
        if j + 8 <= s.len() {
            Some(j + 8)
        } else {
            None
        }
    } else if wt == 2 {
        match dec_u64(s, j) {
            None => None,
            Some(p) => if p.1 + p.0 <= s.len() {
                Some(p.1 + p.0)
            } else {
                None
            },
        }
    } else if wt == 3 {
        if depth == 0 {
            None
        } else {
            skip_group(s, j, field, (depth - 1) as nat)
        }
    } else if wt == 5 {
        if j + 4 <= s.len() {
            Some(j + 4)
        } else {
            None
        }
    } else {
        None
    }
}

/// Reads past the records of a group opened for field `field`, up to and
/// including its closing key, which must name the same field.
pub open spec fn skip_group(s: Seq<u8>, j: int, field: nat, depth: nat) -> Option<int>
    decreases s.len() - j, 0int,
{
    match dec_u64(s, j) {
        None => None,
        Some(k) => if !(j < k.1 <= s.len()) {
            None
        } else if k.0 / 8 == 0 || k.0 > 0xffff_ffff {
            None
        } else if k.0 % 8 == 4 {
            if k.0 / 8 == field {
                Some(k.1)
            } else {
                None
            }
        } else {
            match skip_field(s, k.1, k.0 / 8, k.0 % 8, depth) {
                None => None,
                Some(nj) => if j < nj <= s.len() {
                    skip_group(s, nj, field, depth)
                } else {
                    None
                },
            }
        },
    }
}

/// The encoding of the echo message with string field `m`: empty when `m` is
/// empty (the field keeps its default), one record otherwise.
pub open spec fn enc_echo(m: Seq<u8>) -> Seq<u8> {
    if m.len() == 0 {
        Seq::empty()
    } else {
        seq![FIELD_1_TAG] + enc_varint(m.len()) + m
    }
}

/// Reads records from `i` on, `cur` being the field value seen so far. Each
/// record's key must name a field above 0 within the 32-bit key range; field
/// 1 must carry wire type 2 and replaces the value; any other field is
/// skipped by its wire type.
pub open spec fn dec_echo_from(s: Seq<u8>, i: int, cur: Seq<u8>) -> Option<Seq<u8>>
    decreases s.len() - i,
{
    if i < 0 || i > s.len() {
        None
    } else if i == s.len() {
        Some(cur)
    } else {
        match dec_u64(s, i) {
            None => None,
            Some(k) => if !(i < k.1 <= s.len()) {
                None
            } else if k.0 / 8 == 0 || k.0 > 0xffff_ffff {
                None
            } else if k.0 / 8 == 1 {
                if k.0 % 8 != 2 {
                    None
                } else {
                    match dec_u64(s, k.1) {
                        None => None,
                        Some(p) => if k.1 < p.1 && p.1 + p.0 <= s.len() {
                            dec_echo_from(s, p.1 + p.0, s.subrange(p.1, p.1 + p.0))
                        } else {
                            None
                        },
                    }
                }
            } else {
                match skip_field(s, k.1, k.0 / 8, k.0 % 8, MAX_GROUP_DEPTH as nat) {
                    None => None,
                    Some(nj) => if i < nj <= s.len() {
                        dec_echo_from(s, nj, cur)
                    } else {
                        None
                    },
                }
            },
        }
    }
}

/// Decodes a whole echo message.
pub open spec fn dec_echo(s: Seq<u8>) -> Option<Seq<u8>> {
    dec_echo_from(s, 0, Seq::empty())
}

/// The small powers of 128 by value.
pub proof fn lemma_pow128_values()
    ensures
        pow128(0) == 1,
        pow128(1) == 128,
        pow128(2) == 16384,
        pow128(3) == 2097152,
        pow128(4) == 268435456,
        pow128(5) == 34359738368,
{
    assert(pow128(0) == 1);
    assert(pow128(1) == 128);
    assert(pow128(2) == 16384);
    assert(pow128(3) == 2097152);
    assert(pow128(4) == 268435456);
    assert(pow128(5) == 34359738368);
}

/// A value below `pow128(k)` encodes in at most `k` bytes.
pub proof fn lemma_enc_varint_len(n: nat, k: nat)
    requires
        n < pow128(k),
        k >= 1,
    ensures
        1 <= enc_varint(n).len() <= k,
    decreases k,
{
    if n >= 128 {
        assert(pow128(0) == 1);
        assert(pow128(1) == 128);
        assert(k >= 2);
        assert(pow128(k) == 128 * pow128((k - 1) as nat));
        assert(n / 128 < pow128((k - 1) as nat));
        lemma_enc_varint_len(n / 128, (k - 1) as nat);
    }
}

/// Varint round trip with explicit fuel.
proof fn lemma_dec_of_enc(s: Seq<u8>, i: int, n: nat, fuel: nat)
    requires
        0 <= i,
        enc_varint(n).len() <= fuel,
        i + enc_varint(n).len() <= s.len(),
        s.subrange(i, i + enc_varint(n).len()) == enc_varint(n),
    ensures
        dec_varint(s, i, fuel) == Some((n, i + enc_varint(n).len())),
    decreases n,
{
    let e = enc_varint(n);
    let el = e.len() as int;
    assert(forall|t: int| 0 <= t < el ==> s[i + t] == #[trigger] e[t]) by {
        assert(forall|t: int| 0 <= t < el ==> #[trigger] e[t] == s.subrange(i, i + el)[t]);
    }
    if n < 128 {
        assert(s[i] == e[0]);
    } else {
        assert(s[i] == e[0]);
        assert(s[i] == (128 + n % 128) as u8);
        let rest = enc_varint(n / 128);
        let rl = rest.len() as int;
        assert(e == seq![(128 + n % 128) as u8] + rest);
        assert(forall|t: int| 0 <= t < rl ==> #[trigger] rest[t] == e[1 + t]);
        assert(s.subrange(i + 1, i + 1 + rl) =~= rest);
        lemma_dec_of_enc(s, i + 1, n / 128, (fuel - 1) as nat);
        assert((s[i] - 128) + 128 * (n / 128) == n % 128 + 128 * (n / 128));
        assert(n % 128 + 128 * (n / 128) == n);
    }
}

/// Round trip: a length written as a varint is read back exactly, and the
/// reader stops just past it.
pub proof fn lemma_varint_round_trip(s: Seq<u8>, i: int, n: nat)
    requires
        n <= MAX_FIELD_LEN,
        0 <= i,
        i + enc_varint(n).len() <= s.len(),
        s.subrange(i, i + enc_varint(n).len()) == enc_varint(n),
    ensures
        dec_u64(s, i) == Some((n, i + enc_varint(n).len())),
{
    lemma_pow128_values();
    lemma_enc_varint_len(n, 5);
    lemma_dec_of_enc(s, i, n, 10);
}

/// Round trip: decoding an encoded message yields the message.
pub proof fn lemma_echo_round_trip(m: Seq<u8>)
    requires
        m.len() <= MAX_FIELD_LEN,
    ensures
        dec_echo(enc_echo(m)) == Some(m),
{
    if m.len() == 0 {
        assert(enc_echo(m).len() == 0);
        assert(m =~= Seq::<u8>::empty());
    } else {
        let s = enc_echo(m);
        let v = enc_varint(m.len());
        let vl = v.len() as int;
        let ml = m.len() as int;
        assert(s.len() == 1 + vl + ml);
        assert(s[0] == FIELD_1_TAG);
        assert(forall|t: int| 0 <= t < vl ==> s[1 + t] == #[trigger] v[t]);
        assert(s.subrange(1, 1 + vl) =~= v);
        lemma_varint_round_trip(s, 1, m.len());
        assert(dec_u64(s, 1) == Some((m.len() as nat, 1 + vl)));
        assert(dec_u64(s, 0) == Some((FIELD_1_TAG as nat, 1int)));
        assert(s.subrange(1 + vl, 1 + vl + ml) =~= m);
        assert(dec_echo_from(s, 1 + vl + ml, s.subrange(1 + vl, 1 + vl + ml)) == Some(m));
    }
}

/// Appends the varint encoding of `n` to `out`.
pub fn push_varint(out: &mut Vec<u8>, n: u32)
    ensures
        final(out)@ == old(out)@ + enc_varint(n as nat),
{
    let mut x = n;
    while x >= 128
        invariant
            old(out)@ + enc_varint(n as nat) == out@ + enc_varint(x as nat),
        decreases x,
    {
        let b: u8 = 128 + (x % 128) as u8;
        proof {
            assert(enc_varint(x as nat) == seq![(128 + x as nat % 128) as u8] + enc_varint(
                x as nat / 128,
            ));
            assert(out@.push(b) + enc_varint(x as nat / 128) =~= out@ + enc_varint(x as nat));
        }
        out.push(b);
        x = x / 128;
    }
    proof {
        assert(enc_varint(x as nat) == seq![x as u8]);
        assert(out@.push(x as u8) =~= out@ + enc_varint(x as nat));
    }
    out.push(x as u8);
}

/// Encodes the echo message with string field `m`.
pub fn encode_echo(m: &Vec<u8>) -> (r: Vec<u8>)
    requires
        m@.len() <= MAX_FIELD_LEN,
    ensures
        r@ == enc_echo(m@),
{
    let mut out: Vec<u8> = Vec::new();
    if m.len() == 0 {
        proof {
            assert(out@ =~= enc_echo(m@));
        }
        return out;
    }
    out.push(FIELD_1_TAG);
    push_varint(&mut out, m.len() as u32);
    append_bytes(&mut out, m);
    proof {
        assert(out@ =~= enc_echo(m@));
    }
    out
}

/// Reads a varint of at most `fuel` bytes whose value fits 64 bits.
fn decode_varint_exec(s: &Vec<u8>, start: usize, fuel: u8) -> (r: Option<(u64, usize)>)
    ensures
        (match r {
            Some(p) => Some((p.0 as nat, p.1 as int)),
            None => None::<(nat, int)>,
        }) == dec_varint_capped(s@, start as int, fuel as nat),
        (match r {
            Some(p) => start < p.1 <= s@.len(),
            None => true,
        }),
    decreases fuel,
{
    if fuel == 0 || start >= s.len() {
        return None;
    }
    let b = s[start];
    if b < 128 {
        return Some((b as u64, start + 1));
    }
    match decode_varint_exec(s, start + 1, fuel - 1) {
        None => {
            proof {
                // a failed tail fails the whole read: a raw failure
                // propagates, and a too-large tail value only grows
                match dec_varint(s@, start as int + 1, (fuel - 1) as nat) {
                    Option::Some(q) => {
                        assert((s@[start as int] - 128) + 128 * q.0 >= q.0);
                    },
                    Option::None => {
                    },
                }
            }
            None
        },
        Some(p) => {
            let c: u64 = (b - 128) as u64;
            let rem: u64 = (u64::MAX - c) / 128;
            if p.0 > rem {
                proof {
                    assert(u64::MAX - c < 128 * (rem + 1));
                    assert(c + 128 * p.0 > u64::MAX);
                }
                None
            } else {
                proof {
                    assert(128 * p.0 <= 128 * rem <= u64::MAX - c);
                }
                Some((c + 128 * p.0, p.1))
            }
        },
    }
}

/// Reads a 64-bit varint: at most ten bytes, any encoding.
pub fn decode_u64(s: &Vec<u8>, start: usize) -> (r: Option<(u64, usize)>)
    ensures
        (match r {
            Some(p) => Some((p.0 as nat, p.1 as int)),
            None => None::<(nat, int)>,
        }) == dec_u64(s@, start as int),
        (match r {
            Some(p) => start < p.1 <= s@.len(),
            None => true,
        }),
{
    decode_varint_exec(s, start, 10)
}

/// Decodes an echo message, returning its string field, or `None` on any
/// byte sequence outside the wire format.
pub fn decode_echo(s: &Vec<u8>) -> (r: Option<Vec<u8>>)
    ensures
        (match r {
            Some(v) => Some(v@),
            None => None::<Seq<u8>>,
        }) == dec_echo(s@),
{
    let mut cur: Vec<u8> = Vec::new();
    let mut i: usize = 0;
    proof {
        assert(cur@ =~= Seq::<u8>::empty());
    }
    loop
        invariant
            i <= s@.len(),
            dec_echo(s@) == dec_echo_from(s@, i as int, cur@),
        decreases s@.len() - i,
    {
        if i == s.len() {
            return Some(cur);
        }
        let k = match decode_u64(s, i) {
            None => {
                return None;
            },
            Some(k) => k,
        };
        let field: u64 = k.0 / 8;
        let wt: u64 = k.0 % 8;
        if field == 0 || k.0 > 0xffff_ffff {
            return None;
        }
        if field == 1 {
            if wt != 2 {
                return None;
            }
            let p = match decode_u64(s, k.1) {
                None => {
                    return None;
                },
                Some(p) => p,
            };
            if p.0 > (s.len() - p.1) as u64 {
                return None;
            }
            let n = p.0 as usize;
            cur = copy_range(s, p.1, p.1 + n);
            i = p.1 + n;
        } else {
            let nj = match skip_field_exec(s, k.1, field, wt, MAX_GROUP_DEPTH) {
                None => {
                    return None;
                },
                Some(nj) => nj,
            };
            i = nj;
        }
    }
}

/// Reads past the payload of a field with number `field` and wire type `wt`.
fn skip_field_exec(s: &Vec<u8>, j: usize, field: u64, wt: u64, depth: u32) -> (r: Option<usize>)
    requires
        j <= s@.len(),
    ensures
        (match r {
            Some(nj) => Some(nj as int),
            None => None::<int>,
        }) == skip_field(s@, j as int, field as nat, wt as nat, depth as nat),
        (match r {
            Some(nj) => j <= nj <= s@.len(),
            None => true,
        }),
    decreases depth, 0int,
{
    if wt == 0 {
        match decode_u64(s, j) {
            None => None,
            Some(q) => Some(q.1),
        }
    } else if wt == 1 {
        if s.len() - j < 8 {
            None
        } else {
            Some(j + 8)
        }
    } else if wt == 2 {
        match decode_u64(s, j) {
            None => None,
            Some(q) => {
                if q.0 > (s.len() - q.1) as u64 {
                    None
                } else {
                    Some(q.1 + q.0 as usize)
                }
            },
        }
    } else if wt == 3 {
        if depth == 0 {
            None
        } else {
            skip_group_exec(s, j, field, depth - 1)
        }
    } else if wt == 5 {
        if s.len() - j < 4 {
            None
        } else {
            Some(j + 4)
        }
    } else {
        None
    }
}

/// Reads past the records of a group opened for field `field`, up to and
/// including its closing key.
fn skip_group_exec(s: &Vec<u8>, j0: usize, field: u64, depth: u32) -> (r: Option<usize>)
    requires
        j0 <= s@.len(),
    ensures
        (match r {
            Some(nj) => Some(nj as int),
            None => None::<int>,
        }) == skip_group(s@, j0 as int, field as nat, depth as nat),
        (match r {
            Some(nj) => j0 < nj <= s@.len(),
            None => true,
        }),
    decreases depth, 1int,
{
    let mut j: usize = j0;
    loop
        invariant
            j0 <= j <= s@.len(),
            skip_group(s@, j0 as int, field as nat, depth as nat) == skip_group(
                s@,
                j as int,
                field as nat,
                depth as nat,
            ),
        decreases s@.len() - j,
    {
        let k = match decode_u64(s, j) {
            None => {
                return None;
            },
            Some(k) => k,
        };
        let f2: u64 = k.0 / 8;
        let wt2: u64 = k.0 % 8;
        if f2 == 0 || k.0 > 0xffff_ffff {
            return None;
        }
        if wt2 == 4 {
            if f2 == field {
                return Some(k.1);
            }
            return None;
        }
        let nj = match skip_field_exec(s, k.1, f2, wt2, depth) {
            None => {
                return None;
            },
            Some(nj) => nj,
        };
        if !(j < nj) {
            return None;
        }
        j = nj;
    }
}

} // verus!
