//! Standard base64 with padding: opaque image bytes in, text out.

use vstd::prelude::*;

use crate::text::push_char;
use vstd::slice::slice_subrange;

verus! {

/// The base64 alphabet, in value order.
pub open spec fn b64_alpha() -> Seq<char> {
    "ABCDEFGHIJKLMNOPQRSTUVWXYZabcdefghijklmnopqrstuvwxyz0123456789+/"@
}

/// The base64 text of a byte sequence: full triples become four alphabet
/// characters; a final single or pair is padded with `=`.
pub open spec fn b64_of(b: Seq<u8>) -> Seq<char>
    decreases b.len(),
{
    if b.len() == 0 {
        Seq::empty()
    } else if b.len() == 1 {
        let x = b[0];
        seq![
            b64_alpha()[(x >> 2) as int],
            b64_alpha()[((x & 3) << 4) as int],
            '=',
            '=',
        ]
    } else if b.len() == 2 {
        let x = b[0];
        let y = b[1];
        seq![
            b64_alpha()[(x >> 2) as int],
            b64_alpha()[(((x & 3) << 4) | (y >> 4)) as int],
            b64_alpha()[((y & 15) << 2) as int],
            '=',
        ]
    } else {
        let x = b[0];
        let y = b[1];
        let z = b[2];
        seq![
            b64_alpha()[(x >> 2) as int],
            b64_alpha()[(((x & 3) << 4) | (y >> 4)) as int],
            b64_alpha()[(((y & 15) << 2) | (z >> 6)) as int],
            b64_alpha()[(z & 63) as int],
        ] + b64_of(b.skip(3))
    }
}

/// One alphabet character by its six-bit value.
fn b64_char(v: u8) -> (c: char)
    requires
        v < 64,
    ensures
        c == b64_alpha()[v as int],
{
    let alpha = "ABCDEFGHIJKLMNOPQRSTUVWXYZabcdefghijklmnopqrstuvwxyz0123456789+/";
    proof {
        reveal_strlit("ABCDEFGHIJKLMNOPQRSTUVWXYZabcdefghijklmnopqrstuvwxyz0123456789+/");
    }
    alpha.get_char(v as usize)
}

fn b64_slice(b: &[u8]) -> (s: String)
    ensures
        s@ == b64_of(b@),
    decreases b@.len(),
{
    let n = b.len();
    let mut s = String::new();
    if n == 0 {
        proof {
            assert(s@ =~= b64_of(b@));
        }
        s
    } else if n == 1 {
        let x = b[0];
        proof {
            assert(x >> 2 < 64) by (bit_vector);
            assert((x & 3) << 4 < 64) by (bit_vector);
        }
        push_char(&mut s, b64_char(x >> 2));
        push_char(&mut s, b64_char((x & 3) << 4));
        push_char(&mut s, '=');
        push_char(&mut s, '=');
        proof {
            assert(s@ =~= b64_of(b@));
        }
        s
    } else if n == 2 {
        let x = b[0];
        let y = b[1];
        proof {
            assert(x >> 2 < 64) by (bit_vector);
            assert(((x & 3) << 4) | (y >> 4) < 64) by (bit_vector);
            assert((y & 15) << 2 < 64) by (bit_vector);
        }
        push_char(&mut s, b64_char(x >> 2));
        push_char(&mut s, b64_char(((x & 3) << 4) | (y >> 4)));
        push_char(&mut s, b64_char((y & 15) << 2));
        push_char(&mut s, '=');
        proof {
            assert(s@ =~= b64_of(b@));
        }
        s
    } else {
        let x = b[0];
        let y = b[1];
        let z = b[2];
        proof {
            assert(x >> 2 < 64) by (bit_vector);
            assert(((x & 3) << 4) | (y >> 4) < 64) by (bit_vector);
            assert(((y & 15) << 2) | (z >> 6) < 64) by (bit_vector);
            assert(z & 63 < 64) by (bit_vector);
        }
        push_char(&mut s, b64_char(x >> 2));
        push_char(&mut s, b64_char(((x & 3) << 4) | (y >> 4)));
        push_char(&mut s, b64_char(((y & 15) << 2) | (z >> 6)));
        push_char(&mut s, b64_char(z & 63));
        let rest = b64_slice(slice_subrange(b, 3, n));
        s.append(rest.as_str());
        proof {
            assert(s@ =~= b64_of(b@));
        }
        s
    }
}

/// The base64 text of the given bytes.
pub fn b64_encode(b: &Vec<u8>) -> (s: String)
    ensures
        s@ == b64_of(b@),
{
    b64_slice(b.as_slice())
}

} // verus!
