//! Capability Probe: reads a probe response's status and headers and decides
//! whether the server supports byte ranges and how long the resource is.
//!
//! The network request itself happens outside the library; this module is
//! handed the status flag and the raw header bytes and does the deciding.

use vstd::prelude::*;
use crate::errors::DownloadError;

verus! {

/// What the probe learned about the resource.
#[derive(Clone, Copy, Debug, PartialEq, Eq, Structural)]
pub struct CapabilityResult {
    /// Whether the server advertised byte-range support with the exact token
    /// `bytes`.
    pub supports_ranges: bool,
    /// The resource's length in bytes, as reported by the server.
    pub total_length: u64,
}

/// The ASCII bytes of the literal token `bytes`, the only accept-ranges value
/// that counts as range support.
pub open spec fn bytes_token() -> Seq<u8> {
    seq![98u8, 121u8, 116u8, 101u8, 115u8]
}

/// Whether `b` is an ASCII decimal digit.
pub open spec fn is_ascii_digit(b: u8) -> bool {
    48 <= b <= 57
}

/// The numeric value of the ASCII digit `b`.
pub open spec fn digit_value(b: u8) -> int {
    b - 48
}

/// Whether every byte of `s` is an ASCII decimal digit.
pub open spec fn all_digits(s: Seq<u8>) -> bool {
    forall|i: int| 0 <= i < s.len() ==> is_ascii_digit(s[i])
}

/// The value of the digit string `s`, read in base ten from the left.
pub open spec fn digits_value(s: Seq<u8>) -> int
    decreases s.len(),
{
    if s.len() == 0 {
        0
    } else {
        digits_value(s.drop_last()) * 10 + digit_value(s.last())
    }
}

/// How a content-length header value reads as a `u64`: an optional leading
/// `+`, then at least one decimal digit, and a value that fits in a `u64`;
/// anything else does not parse.
pub open spec fn parse_u64_spec(s: Seq<u8>) -> Option<u64> {
    let t = if s.len() > 0 && s[0] == 43 {
        s.drop_first()
    } else {
        s
    };
    if t.len() > 0 && all_digits(t) && digits_value(t) <= u64::MAX {
        Some(digits_value(t) as u64)
    } else {
        None
    }
}

proof fn lemma_digits_value_nonneg(s: Seq<u8>)
    requires
        all_digits(s),
    ensures
        digits_value(s) >= 0,
    decreases s.len(),
{
    if s.len() > 0 {
        assert(all_digits(s.drop_last()));
        lemma_digits_value_nonneg(s.drop_last());
    }
}

/// Reading more digits never shrinks the value: the value of a prefix is at
/// most the value of the whole digit string.
proof fn lemma_digits_value_take_le(s: Seq<u8>, j: int)
    requires
        all_digits(s),
        0 <= j <= s.len(),
    ensures
        digits_value(s.take(j)) <= digits_value(s),
    decreases s.len() - j,
{
    if j == s.len() {
        assert(s.take(j) =~= s);
    } else {
        assert(s.take(j + 1).drop_last() =~= s.take(j));
        assert(s.take(j + 1).last() == s[j]);
        assert(all_digits(s.take(j)));
        lemma_digits_value_nonneg(s.take(j));
        assert(digits_value(s.take(j)) <= digits_value(s.take(j + 1)));
        lemma_digits_value_take_le(s, j + 1);
    }
}

/// Parses a content-length header value as a non-negative integer.
///
/// Returns the value exactly when the bytes are an optional `+` followed by
/// one or more decimal digits whose value fits in a `u64`.
pub fn parse_content_length(s: &Vec<u8>) -> (r: Option<u64>)
    ensures
        r == parse_u64_spec(s@),
{
    let ghost t: Seq<u8> = if s@.len() > 0 && s@[0] == 43 {
        s@.drop_first()
    } else {
        s@
    };
    let off: usize = if s.len() > 0 && s[0] == 43 {
        1
    } else {
        0
    };
    if s.len() == off {
        return None;
    }
    let mut acc: u64 = 0;
    let mut i: usize = off;
    while i < s.len()
        invariant
            off <= 1,
            off == 1 ==> s@.len() > 0 && s@[0] == 43,
            off == 0 ==> !(s@.len() > 0 && s@[0] == 43),
            off == 0 ==> t == s@,
            off == 1 ==> t == s@.drop_first(),
            t.len() == s@.len() - off,
            forall|k: int| 0 <= k < t.len() ==> #[trigger] t[k] == s@[k + off],
            off <= i <= s@.len(),
            all_digits(t.take(i - off)),
            acc == digits_value(t.take(i - off)),
        decreases s@.len() - i,
    {
        let b: u8 = s[i];
        if b < 48 || b > 57 {
            proof {
                assert(t[i - off] == s@[i as int]);
                assert(!all_digits(t));
            }
            return None;
        }
        let d: u64 = (b - 48) as u64;
        proof {
            assert(t.take(i - off + 1).drop_last() =~= t.take(i - off));
            assert(t.take(i - off + 1).last() == t[i - off]);
            lemma_digits_value_nonneg(t.take(i - off));
            vstd::arithmetic::div_mod::lemma_fundamental_div_mod(
                u64::MAX - d,
                10,
            );
            vstd::arithmetic::div_mod::lemma_mod_bound(u64::MAX - d, 10);
        }
        if acc > (u64::MAX - d) / 10 {
            // the digits read so far already overflow a u64; any digits that
            // follow only grow the value, so the whole string cannot parse.
            proof {
                assert(digits_value(t.take(i - off + 1)) == acc * 10 + d > u64::MAX);
                if all_digits(t) {
                    lemma_digits_value_take_le(t, i - off + 1);
                }
            }
            return None;
        }
        acc = acc * 10 + d;
        i = i + 1;
    }
    proof {
        assert(t.take(i - off) =~= t);
    }
    Some(acc)
}

/// Whether a header value is exactly the token `bytes`.
fn header_is_bytes(v: &Vec<u8>) -> (r: bool)
    ensures
        r == (v@ == bytes_token()),
{
    if v.len() != 5 {
        assert(v@ != bytes_token());
        return false;
    }
    let r = v[0] == 98 && v[1] == 121 && v[2] == 116 && v[3] == 101 && v[4] == 115;
    proof {
        if r {
            assert(v@ =~= bytes_token());
        }
    }
    r
}

/// What the probe concludes from a response: `RequestFailed` on a non-success
/// status; otherwise `LengthUnavailable` unless a content-length header reads
/// as a non-negative integer; otherwise the capability, with range support
/// exactly when the accept-ranges header is present and is the token `bytes`.
pub open spec fn probe_spec(
    status_success: bool,
    accept_ranges: Option<Seq<u8>>,
    content_length: Option<Seq<u8>>,
) -> Result<CapabilityResult, DownloadError> {
    if !status_success {
        Err(DownloadError::RequestFailed)
    } else {
        match content_length {
            Option::None => Err(DownloadError::LengthUnavailable),
            Option::Some(cl) => match parse_u64_spec(cl) {
                Option::None => Err(DownloadError::LengthUnavailable),
                Option::Some(n) => Ok(
                    CapabilityResult {
                        supports_ranges: accept_ranges matches Option::Some(v) && v
                            == bytes_token(),
                        total_length: n,
                    },
                ),
            },
        }
    }
}

/// The bytes of an optional header value.
pub open spec fn opt_header_bytes(o: Option<Vec<u8>>) -> Option<Seq<u8>> {
    match o {
        Option::Some(v) => Option::Some(v@),
        Option::None => Option::None,
    }
}

/// Decides a probe's outcome from its status and the two relevant header
/// values, handed over as raw bytes (absent headers as `None`).
pub fn interpret_probe(
    status_success: bool,
    accept_ranges: Option<Vec<u8>>,
    content_length: Option<Vec<u8>>,
) -> (r: Result<CapabilityResult, DownloadError>)
    ensures
        r == probe_spec(
            status_success,
            opt_header_bytes(accept_ranges),
            opt_header_bytes(content_length),
        ),
{
    if !status_success {
        return Err(DownloadError::RequestFailed);
    }
    let supports_ranges: bool = match &accept_ranges {
        Option::Some(v) => header_is_bytes(v),
        Option::None => false,
    };
    match &content_length {
        Option::None => Err(DownloadError::LengthUnavailable),
        Option::Some(cl) => match parse_content_length(cl) {
            Option::None => Err(DownloadError::LengthUnavailable),
            Option::Some(n) => Ok(CapabilityResult { supports_ranges, total_length: n }),
        },
    }
}

} // verus!
