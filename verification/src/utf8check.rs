//! An executable UTF-8 validity check for offline paths, proved against
//! vstd's `valid_utf8` specification.

use vstd::prelude::*;
use vstd::utf8::{
    codepoint_width_1, codepoint_width_2, codepoint_width_3, codepoint_width_4,
    decode_first_codepoint, is_leading_byte_width_1, length_of_first_codepoint,
    not_overlong_encoding, not_surrogate, pop_first_scalar, valid_first_scalar,
    valid_leading_and_continuation_bytes_first_codepoint, valid_utf8,
};

verus! {

/// Checks the first scalar of a non-empty suffix; on success hands back
/// its byte length.
fn check_first_scalar(bytes: &[u8], pos: usize) -> (r: Option<usize>)
    requires
        pos < bytes@.len(),
    ensures
        ({
            let s = bytes@.subrange(pos as int, bytes@.len() as int);
            match r {
                Some(w) => valid_first_scalar(s) && w == length_of_first_codepoint(s) && 1 <= w
                    <= 4 && pos + w <= bytes@.len(),
                None => !valid_first_scalar(s),
            }
        }),
{
    let ghost s = bytes@.subrange(pos as int, bytes@.len() as int);
    let n = bytes.len();
    let b0 = bytes[pos];
    proof {
        assert(s[0] == bytes@[pos as int]);
        assert(s.len() == n - pos);
    }
    if b0 <= 0x7f {
        proof {
            assert(is_leading_byte_width_1(s[0]));
            assert(decode_first_codepoint(s) == codepoint_width_1(s[0]));
            assert(codepoint_width_1(s[0]) == (s[0] & 0x7F) as u32);
            assert(b0 & 0x7F == b0) by (bit_vector)
                requires
                    b0 <= 0x7f,
            ;
            assert(not_surrogate(decode_first_codepoint(s)));
            assert(not_overlong_encoding(decode_first_codepoint(s), 1));
        }
        Some(1)
    } else if b0 < 0xc0 {
        // a continuation byte cannot lead a scalar
        proof {
            assert(!valid_leading_and_continuation_bytes_first_codepoint(s));
        }
        None
    } else if b0 <= 0xdf {
        if n - pos < 2 {
            proof {
                assert(s.len() < 2);
                assert(!valid_leading_and_continuation_bytes_first_codepoint(s));
            }
            return None;
        }
        let b1 = bytes[pos + 1];
        proof {
            assert(s[1] == bytes@[pos + 1]);
        }
        if !(0x80 <= b1 && b1 <= 0xbf) {
            proof {
                assert(!valid_leading_and_continuation_bytes_first_codepoint(s));
            }
            return None;
        }
        let cp: u32 = (((b0 & 0x1F) as u32) << 6) | ((b1 & 0x3f) as u32);
        proof {
            assert(cp == codepoint_width_2(s[0], s[1]));
            assert(decode_first_codepoint(s) == codepoint_width_2(s[0], s[1]));
            assert(length_of_first_codepoint(s) == 2);
            assert(cp <= 0x7ff) by (bit_vector)
                requires
                    cp == (((b0 & 0x1F) as u32) << 6) | ((b1 & 0x3f) as u32),
            ;
        }
        if cp < 0x80 {
            proof {
                assert(!not_overlong_encoding(decode_first_codepoint(s), 2));
            }
            return None;
        }
        Some(2)
    } else if b0 <= 0xef {
        if n - pos < 3 {
            proof {
                assert(!valid_leading_and_continuation_bytes_first_codepoint(s));
            }
            return None;
        }
        let b1 = bytes[pos + 1];
        let b2 = bytes[pos + 2];
        proof {
            assert(s[1] == bytes@[pos + 1]);
            assert(s[2] == bytes@[pos + 2]);
        }
        if !(0x80 <= b1 && b1 <= 0xbf) || !(0x80 <= b2 && b2 <= 0xbf) {
            proof {
                assert(!valid_leading_and_continuation_bytes_first_codepoint(s));
            }
            return None;
        }
        let cp: u32 = (((b0 & 0x0F) as u32) << 12) | ((((b1 & 0x3f) as u32)) << 6) | ((b2
            & 0x3f) as u32);
        proof {
            assert(cp == codepoint_width_3(s[0], s[1], s[2]));
            assert(decode_first_codepoint(s) == codepoint_width_3(s[0], s[1], s[2]));
            assert(length_of_first_codepoint(s) == 3);
        }
        if cp < 0x800 || (0xD800 <= cp && cp <= 0xDFFF) {
            return None;
        }
        Some(3)
    } else if b0 <= 0xf7 {
        if n - pos < 4 {
            proof {
                assert(!valid_leading_and_continuation_bytes_first_codepoint(s));
            }
            return None;
        }
        let b1 = bytes[pos + 1];
        let b2 = bytes[pos + 2];
        let b3 = bytes[pos + 3];
        proof {
            assert(s[1] == bytes@[pos + 1]);
            assert(s[2] == bytes@[pos + 2]);
            assert(s[3] == bytes@[pos + 3]);
        }
        if !(0x80 <= b1 && b1 <= 0xbf) || !(0x80 <= b2 && b2 <= 0xbf) || !(0x80 <= b3 && b3
            <= 0xbf) {
            proof {
                assert(!valid_leading_and_continuation_bytes_first_codepoint(s));
            }
            return None;
        }
        let cp: u32 = (((b0 & 0x07) as u32) << 18) | ((((b1 & 0x3f) as u32)) << 12) | ((((b2
            & 0x3f) as u32)) << 6) | ((b3 & 0x3f) as u32);
        proof {
            assert(cp == codepoint_width_4(s[0], s[1], s[2], s[3]));
            assert(decode_first_codepoint(s) == codepoint_width_4(s[0], s[1], s[2], s[3]));
            assert(length_of_first_codepoint(s) == 4);
        }
        if cp < 0x10000 || cp > 0x10FFFF {
            return None;
        }
        proof {
            assert(not_surrogate(cp));
        }
        Some(4)
    } else {
        proof {
            assert(!valid_leading_and_continuation_bytes_first_codepoint(s));
        }
        None
    }
}

/// True exactly when the bytes form a valid UTF-8 encoding.
pub fn check_utf8(bytes: &[u8]) -> (r: bool)
    ensures
        r == valid_utf8(bytes@),
{
    let n = bytes.len();
    let mut pos: usize = 0;
    proof {
        assert(bytes@.subrange(0, n as int) =~= bytes@);
    }
    while pos < n
        invariant
            pos <= n,
            n == bytes@.len(),
            valid_utf8(bytes@) <==> valid_utf8(bytes@.subrange(pos as int, n as int)),
        decreases n - pos,
    {
        let ghost s = bytes@.subrange(pos as int, n as int);
        match check_first_scalar(bytes, pos) {
            None => {
                proof {
                    assert(s.len() != 0);
                    assert(!valid_utf8(s));
                }
                return false;
            },
            Some(w) => {
                proof {
                    assert(pop_first_scalar(s) =~= bytes@.subrange((pos + w) as int, n as int));
                    assert(valid_utf8(s) <==> valid_utf8(
                        bytes@.subrange((pos + w) as int, n as int),
                    ));
                }
                pos = pos + w;
            },
        }
    }
    proof {
        assert(bytes@.subrange(n as int, n as int).len() == 0);
        assert(valid_utf8(bytes@.subrange(n as int, n as int)));
    }
    true
}

} // verus!
