//! Range Fetcher support: rendering the range request header for one byte
//! interval, and tracking a fetcher's running write offset as the chunks of a
//! response body arrive.
//!
//! The transfer itself — sending the request, awaiting chunks, seeking and
//! writing the shared file — happens outside the library; each step's
//! arithmetic and the header bytes are decided here.

use vstd::prelude::*;
use crate::ByteInterval;

verus! {

/// The decimal digits of `n`, most significant first, as ASCII bytes.
pub open spec fn dec_digits(n: nat) -> Seq<u8>
    decreases n,
{
    if n < 10 {
        seq![(48 + n) as u8]
    } else {
        dec_digits(n / 10).push((48 + n % 10) as u8)
    }
}

/// The first byte position of an interval.
pub open spec fn interval_start(iv: ByteInterval) -> u64 {
    match iv {
        ByteInterval::Bounded { start, end: _ } => start,
        ByteInterval::OpenEnded { start } => start,
    }
}

/// The bytes of the range header value for an interval, per the wire range
/// syntax: `bytes=start-end` for a bounded interval, `bytes=start-` for an
/// open-ended one.
pub open spec fn range_header_bytes(iv: ByteInterval) -> Seq<u8> {
    match iv {
        ByteInterval::Bounded { start, end } => seq![98u8, 121u8, 116u8, 101u8, 115u8, 61u8]
            + dec_digits(start as nat) + seq![45u8] + dec_digits(end as nat),
        ByteInterval::OpenEnded { start } => seq![98u8, 121u8, 116u8, 101u8, 115u8, 61u8]
            + dec_digits(start as nat) + seq![45u8],
    }
}

/// Appends the decimal rendering of `n` to `out`.
fn push_decimal(out: &mut Vec<u8>, n: u64)
    ensures
        final(out)@ == old(out)@ + dec_digits(n as nat),
    decreases n,
{
    proof {
        vstd::arithmetic::div_mod::lemma_mod_bound(n as int, 10);
    }
    if n >= 10 {
        push_decimal(out, n / 10);
    } else {
        proof {
            vstd::arithmetic::div_mod::lemma_small_mod(n as nat, 10);
        }
    }
    let d: u8 = 48 + (n % 10) as u8;
    out.push(d);
    proof {
        if n < 10 {
            assert(out@ =~= old(out)@ + dec_digits(n as nat));
        } else {
            assert(out@ =~= old(out)@ + dec_digits(n as nat));
        }
    }
}

/// Renders the range header value for an interval as ASCII bytes.
pub fn range_header_value(iv: &ByteInterval) -> (r: Vec<u8>)
    ensures
        r@ == range_header_bytes(*iv),
{
    let mut out: Vec<u8> = Vec::new();
    out.push(98);
    out.push(121);
    out.push(116);
    out.push(101);
    out.push(115);
    out.push(61);
    match iv {
        ByteInterval::Bounded { start, end } => {
            push_decimal(&mut out, *start);
            out.push(45);
            push_decimal(&mut out, *end);
            proof {
                assert(out@ =~= range_header_bytes(*iv));
            }
        },
        ByteInterval::OpenEnded { start } => {
            push_decimal(&mut out, *start);
            out.push(45);
            proof {
                assert(out@ =~= range_header_bytes(*iv));
            }
        },
    }
    out
}

/// A fetcher's running write position within the shared output file.
///
/// It starts at the interval's first byte; each received chunk is written at
/// the current position, which then advances by the chunk's length.
pub struct FetchProgress {
    /// The offset at which the next chunk is to be written.
    pub offset: u64,
}

impl FetchProgress {
    /// The write position for the first chunk of the interval.
    pub fn start_at(iv: &ByteInterval) -> (r: FetchProgress)
        ensures
            r.offset == interval_start(*iv),
    {
        match iv {
            ByteInterval::Bounded { start, end: _ } => FetchProgress { offset: *start },
            ByteInterval::OpenEnded { start } => FetchProgress { offset: *start },
        }
    }

    /// Advances the write position past a chunk of `len` bytes that was just
    /// written at the current offset.
    pub fn record_chunk(&mut self, len: usize)
        requires
            old(self).offset + len <= u64::MAX,
        ensures
            final(self).offset == old(self).offset + len,
    {
        self.offset = self.offset + len as u64;
    }
}

} // verus!
