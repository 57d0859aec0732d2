//! Small rules of the surrounding orchestration: turning a child process's
//! captured stderr into one error message, and reading the release channel
//! out of a version string.

use vstd::prelude::*;

verus! {

/// What `String::from_utf8` decodes a byte sequence to, when it is valid
/// UTF-8; the result depends on the bytes alone.
pub uninterp spec fn utf8_decoded(bytes: Seq<u8>) -> Option<Seq<char>>;

/// Relies on `String::from_utf8`: returns the decoded string exactly when
/// the bytes are valid UTF-8.
#[verifier::external_body]
fn bytes_to_string(bytes: Vec<u8>) -> (r: Option<String>)
    ensures
        r matches Option::Some(s) ==> utf8_decoded(bytes@) == Option::Some(s@),
        r is None ==> utf8_decoded(bytes@) is None,
{
    match String::from_utf8(bytes) {
        Ok(s) => Some(s),
        Err(_) => None,
    }
}

/// The error message for a failed child process: its stderr when it wrote
/// any (and it decodes), else the fallback message.
pub fn wrap_stderr(stderr: Vec<u8>, err_else: String) -> (r: String)
    ensures
        stderr@.len() == 0 ==> r@ == err_else@,
        stderr@.len() > 0 ==> match utf8_decoded(stderr@) {
            Option::Some(s) => r@ == s,
            Option::None => r@ == err_else@,
        },
{
    if stderr.len() == 0 {
        err_else
    } else {
        match bytes_to_string(stderr) {
            Option::Some(s) => s,
            Option::None => err_else,
        }
    }
}

/// Whether `needle` occurs contiguously somewhere in `hay`.
pub open spec fn contains_seq(hay: Seq<u8>, needle: Seq<u8>) -> bool {
    exists|k: int|
        0 <= k <= hay.len() - needle.len() && #[trigger] hay.subrange(k, k + needle.len())
            == needle
}

/// Whether the byte string `needle` occurs contiguously in `hay`.
pub fn contains_bytes(hay: &Vec<u8>, needle: &Vec<u8>) -> (r: bool)
    ensures
        r == contains_seq(hay@, needle@),
{
    let n = needle.len();
    let h = hay.len();
    if n > h {
        return false;
    }
    if n == 0 {
        proof {
            assert(hay@.subrange(0, 0 + needle@.len() as int) =~= needle@);
        }
        return true;
    }
    let mut k: usize = 0;
    while k <= h - n
        invariant
            1 <= n <= h,
            h == hay@.len(),
            n == needle@.len(),
            0 <= k <= h - n + 1,
            forall|kk: int|
                0 <= kk < k ==> #[trigger] hay@.subrange(kk, kk + n) != needle@,
        decreases h - n + 1 - k,
    {
        let mut j: usize = 0;
        let mut ok = true;
        while j < n && ok
            invariant
                n <= h,
                h == hay@.len(),
                n == needle@.len(),
                0 <= k <= h - n,
                0 <= j <= n,
                ok ==> forall|jj: int| 0 <= jj < j ==> hay@[k + jj] == needle@[jj],
                !ok ==> hay@.subrange(k as int, k + n) != needle@,
            decreases n - j,
        {
            if hay[k + j] != needle[j] {
                proof {
                    assert(hay@.subrange(k as int, k + n)[j as int] == hay@[k + j]);
                }
                ok = false;
            }
            j = j + 1;
        }
        if ok {
            proof {
                assert(hay@.subrange(k as int, k + n) =~= needle@);
            }
            return true;
        }
        k = k + 1;
    }
    false
}

/// A release channel of the software distribution archive.
#[derive(Clone, Copy, Debug, PartialEq, Eq, Structural)]
pub enum Channel {
    Dev,
    Beta,
    Stable,
}

/// The ASCII bytes of `dev`.
pub open spec fn dev_token() -> Seq<u8> {
    seq![100u8, 101u8, 118u8]
}

/// The ASCII bytes of `beta`.
pub open spec fn beta_token() -> Seq<u8> {
    seq![98u8, 101u8, 116u8, 97u8]
}

/// The channel a version string names: `dev` if it mentions `dev`, else
/// `beta` if it mentions `beta`, else `stable`.
pub open spec fn channel_spec(version: Seq<u8>) -> Channel {
    if contains_seq(version, dev_token()) {
        Channel::Dev
    } else if contains_seq(version, beta_token()) {
        Channel::Beta
    } else {
        Channel::Stable
    }
}

impl Channel {
    /// The channel's name as it appears in the archive's URL.
    pub fn as_str(&self) -> (r: &'static str)
        ensures
            *self is Dev ==> r@ == "dev"@,
            *self is Beta ==> r@ == "beta"@,
            *self is Stable ==> r@ == "stable"@,
    {
        match self {
            Channel::Dev => "dev",
            Channel::Beta => "beta",
            Channel::Stable => "stable",
        }
    }
}

/// Reads the release channel out of a version string's bytes.
pub fn channel_of_version(version: &Vec<u8>) -> (r: Channel)
    ensures
        r == channel_spec(version@),
{
    let mut dev: Vec<u8> = Vec::new();
    dev.push(100);
    dev.push(101);
    dev.push(118);
    proof {
        assert(dev@ =~= dev_token());
    }
    if contains_bytes(version, &dev) {
        return Channel::Dev;
    }
    let mut beta: Vec<u8> = Vec::new();
    beta.push(98);
    beta.push(101);
    beta.push(116);
    beta.push(97);
    proof {
        assert(beta@ =~= beta_token());
    }
    if contains_bytes(version, &beta) {
        return Channel::Beta;
    }
    Channel::Stable
}

} // verus!
