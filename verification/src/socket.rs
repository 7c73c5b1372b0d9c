//! Normalization of the unix socket address a client is built with: a
//! caller may hand the filesystem path with a `unix://` scheme prefix, and
//! every such prefix is stripped before the path is dialled.

use vstd::prelude::*;

verus! {

/// The scheme prefix tolerated in front of a socket path.
pub open spec fn unix_scheme() -> Seq<char> {
    seq!['u', 'n', 'i', 'x', ':', '/', '/']
}

/// The path with every leading `unix://` removed.
pub open spec fn spec_strip_unix_scheme(s: Seq<char>) -> Seq<char>
    decreases s.len(),
{
    if s.len() >= 7 && s.subrange(0, 7) == unix_scheme() {
        spec_strip_unix_scheme(s.skip(7))
    } else {
        s
    }
}

/// Whether the path starts with the `unix://` scheme prefix.
fn has_unix_scheme(s: &str) -> (r: bool)
    ensures
        r == (s@.len() >= 7 && s@.subrange(0, 7) == unix_scheme()),
{
    let n = s.unicode_len();
    if n < 7 {
        return false;
    }
    let r = s.get_char(0) == 'u' && s.get_char(1) == 'n' && s.get_char(2) == 'i' && s.get_char(3)
        == 'x' && s.get_char(4) == ':' && s.get_char(5) == '/' && s.get_char(6) == '/';
    proof {
        if r {
            assert(s@.subrange(0, 7) =~= unix_scheme());
        } else {
            if s@.subrange(0, 7) == unix_scheme() {
                assert(s@[0] == 'u') by { assert(s@.subrange(0, 7)[0] == 'u') };
                assert(s@[1] == 'n') by { assert(s@.subrange(0, 7)[1] == 'n') };
                assert(s@[2] == 'i') by { assert(s@.subrange(0, 7)[2] == 'i') };
                assert(s@[3] == 'x') by { assert(s@.subrange(0, 7)[3] == 'x') };
                assert(s@[4] == ':') by { assert(s@.subrange(0, 7)[4] == ':') };
                assert(s@[5] == '/') by { assert(s@.subrange(0, 7)[5] == '/') };
                assert(s@[6] == '/') by { assert(s@.subrange(0, 7)[6] == '/') };
            }
        }
    }
    r
}

/// Strips every leading `unix://` scheme prefix from a socket address,
/// leaving the bare filesystem path to dial.
pub fn strip_unix_scheme<'a>(path: &'a str) -> (r: &'a str)
    ensures
        r@ == spec_strip_unix_scheme(path@),
{
    let mut s = path;
    loop
        invariant
            spec_strip_unix_scheme(s@) == spec_strip_unix_scheme(path@),
        decreases s@.len(),
    {
        if has_unix_scheme(s) {
            let n = s.unicode_len();
            proof {
                assert(s@.subrange(7, s@.len() as int) =~= s@.skip(7));
            }
            s = s.substring_char(7, n);
        } else {
            return s;
        }
    }
}

} // verus!
