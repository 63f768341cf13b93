//! The echo payload types and the greeting transform shared by both backends.

use vstd::prelude::*;

verus! {

/// A request to the echo endpoint: one string field, carried as UTF-8 bytes.
pub struct EchoRequest {
    pub message: Vec<u8>,
}

/// A response from the echo endpoint: one string field, carried as UTF-8 bytes.
pub struct EchoResponse {
    pub message: Vec<u8>,
}

/// The bytes of `"Hello, "`.
pub open spec fn greeting_prefix() -> Seq<u8> {
    seq![72u8, 101u8, 108u8, 108u8, 111u8, 44u8, 32u8]
}

/// The bytes of `"!"`.
pub open spec fn greeting_suffix() -> Seq<u8> {
    seq![33u8]
}

/// The greeting for message `m`: the bytes of `"Hello, " + m + "!"`.
pub open spec fn greeting_of(m: Seq<u8>) -> Seq<u8> {
    greeting_prefix() + m + greeting_suffix()
}

/// Builds the greeting for `m`.
pub fn greet(m: &Vec<u8>) -> (r: Vec<u8>)
    ensures
        r@ == greeting_of(m@),
{
    let mut out: Vec<u8> = Vec::new();
    out.push(72);
    out.push(101);
    out.push(108);
    out.push(108);
    out.push(111);
    out.push(44);
    out.push(32);
    proof {
        assert(out@ =~= greeting_prefix() + m@.take(0));
    }
    let mut i: usize = 0;
    while i < m.len()
        invariant
            i <= m.len(),
            out@ == greeting_prefix() + m@.take(i as int),
        decreases m.len() - i,
    {
        out.push(m[i]);
        proof {
            assert(m@.take(i + 1) =~= m@.take(i as int).push(m@[i as int]));
            assert(out@ =~= greeting_prefix() + m@.take(i + 1));
        }
        i = i + 1;
    }
    out.push(33);
    proof {
        assert(m@.take(m@.len() as int) =~= m@);
        assert(out@ =~= greeting_of(m@));
    }
    out
}

} // verus!
