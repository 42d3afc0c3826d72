//! Executable emission of the leaf JSON tokens, each proved to append to
//! the output sink exactly the bytes the specification names.

use vstd::prelude::*;
use crate::json::{
    dec_bytes, dec_digit, escaped_bytes, hex_digit, int_bytes, string_bytes,
};

verus! {

/// Appends every byte of `s` to `out`, unchanged. Serves the
/// pre-serialized fragment kind, which is inlined verbatim.
pub fn write_verbatim(out: &mut Vec<u8>, s: &Vec<u8>)
    ensures
        final(out)@ == old(out)@ + s@,
{
    let mut i: usize = 0;
    while i < s.len()
        invariant
            i <= s.len(),
            out@ == old(out)@ + s@.take(i as int),
        decreases s.len() - i,
    {
        out.push(s[i]);
        proof {
            assert(s@.take(i + 1 as int) =~= s@.take(i as int).push(s@[i as int]));
        }
        i = i + 1;
    }
    proof {
        assert(s@.take(s@.len() as int) =~= s@);
    }
}

/// Appends the four bytes of the JSON `null` literal.
pub fn write_null(out: &mut Vec<u8>)
    ensures
        final(out)@ == old(out)@ + seq![0x6eu8, 0x75u8, 0x6cu8, 0x6cu8],
{
    out.push(0x6e);
    out.push(0x75);
    out.push(0x6c);
    out.push(0x6c);
    proof {
        assert(out@ =~= old(out)@ + seq![0x6eu8, 0x75u8, 0x6cu8, 0x6cu8]);
    }
}

/// Appends the JSON `true` or `false` literal.
pub fn write_bool(out: &mut Vec<u8>, b: bool)
    ensures
        b ==> final(out)@ == old(out)@ + seq![0x74u8, 0x72u8, 0x75u8, 0x65u8],
        !b ==> final(out)@ == old(out)@ + seq![0x66u8, 0x61u8, 0x6cu8, 0x73u8, 0x65u8],
{
    if b {
        out.push(0x74);
        out.push(0x72);
        out.push(0x75);
        out.push(0x65);
        proof {
            assert(out@ =~= old(out)@ + seq![0x74u8, 0x72u8, 0x75u8, 0x65u8]);
        }
    } else {
        out.push(0x66);
        out.push(0x61);
        out.push(0x6c);
        out.push(0x73);
        out.push(0x65);
        proof {
            assert(out@ =~= old(out)@ + seq![0x66u8, 0x61u8, 0x6cu8, 0x73u8, 0x65u8]);
        }
    }
}

/// Appends the decimal digits of `n`, most significant first.
pub fn write_dec(out: &mut Vec<u8>, n: u64)
    ensures
        final(out)@ == old(out)@ + dec_bytes(n as nat),
    decreases n,
{
    if n >= 10 {
        write_dec(out, n / 10);
    }
    let d: u8 = (n % 10) as u8;
    out.push(0x30 + d);
    proof {
        assert(0x30 + d == dec_digit((n % 10) as nat));
        if n < 10 {
            assert(dec_bytes(n as nat) == seq![dec_digit(n as nat)]);
            assert(out@ =~= old(out)@ + dec_bytes(n as nat));
        } else {
            assert(dec_bytes(n as nat) == dec_bytes((n as nat) / 10) + seq![
                dec_digit((n % 10) as nat),
            ]);
            assert(out@ =~= old(out)@ + dec_bytes(n as nat));
        }
    }
}

/// Appends the decimal form of `i`, with a minus sign when negative.
pub fn write_int(out: &mut Vec<u8>, i: i64)
    ensures
        final(out)@ == old(out)@ + int_bytes(i as int),
{
    if i >= 0 {
        write_dec(out, i as u64);
    } else {
        out.push(0x2d);
        let mag: u64 = ((-(i + 1)) as u64) + 1;
        proof {
            assert(mag as int == -(i as int));
        }
        write_dec(out, mag);
        proof {
            assert(out@ =~= old(out)@ + int_bytes(i as int));
        }
    }
}

/// The lower-case ASCII hex digit of a value below sixteen.
fn hex_ascii(d: u8) -> (r: u8)
    requires
        d < 16,
    ensures
        r == hex_digit(d as nat),
{
    if d < 10 {
        0x30 + d
    } else {
        0x57 + d
    }
}

/// Appends the JSON string form of `s`: a quote, each byte escaped as the
/// specification says, a closing quote.
pub fn write_string(out: &mut Vec<u8>, s: &Vec<u8>)
    ensures
        final(out)@ == old(out)@ + string_bytes(s@),
{
    out.push(0x22);
    let mut i: usize = 0;
    while i < s.len()
        invariant
            i <= s.len(),
            out@ == old(out)@ + seq![0x22u8] + escaped_bytes(s@.take(i as int)),
        decreases s.len() - i,
    {
        let b = s[i];
        proof {
            crate::json::lemma_escaped_bytes_push(s@.take(i as int), b);
            assert(s@.take(i + 1 as int) =~= s@.take(i as int).push(b));
        }
        if b == 0x22 {
            out.push(0x5c);
            out.push(0x22);
        } else if b == 0x5c {
            out.push(0x5c);
            out.push(0x5c);
        } else if b < 0x20 {
            out.push(0x5c);
            out.push(0x75);
            out.push(0x30);
            out.push(0x30);
            out.push(hex_ascii(b / 16));
            out.push(hex_ascii(b % 16));
        } else {
            out.push(b);
        }
        proof {
            assert(out@ =~= old(out)@ + seq![0x22u8] + escaped_bytes(s@.take(i + 1 as int)));
        }
        i = i + 1;
    }
    out.push(0x22);
    proof {
        assert(s@.take(s@.len() as int) =~= s@);
        assert(out@ =~= old(out)@ + string_bytes(s@));
    }
}

} // verus!
