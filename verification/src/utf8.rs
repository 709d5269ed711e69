//! Transport-encoding validation for request bodies.
//!
//! The form decoder refuses a body that is not well-formed UTF-8 before
//! it looks at any field. The validator here is proved against vstd's
//! `valid_utf8` model of the encoding, so "well-formed" means exactly
//! what the standard library means by it: no stray continuation bytes,
//! no overlong encodings, no surrogates, nothing above the last scalar.

use vstd::prelude::*;
use vstd::utf8::*;

verus! {

/// True when `s` holds a well-formed UTF-8 encoding of some text.
pub fn is_valid_utf8(s: &Vec<u8>) -> (r: bool)
    ensures
        r == valid_utf8(s@),
{
    let n = s.len();
    let mut i: usize = 0;
    proof {
        assert(s@.skip(0) =~= s@);
    }
    while i < n
        invariant
            i <= n,
            n == s@.len(),
            valid_utf8(s@) == valid_utf8(s@.skip(i as int)),
        decreases n - i,
    {
        let ghost t = s@.skip(i as int);
        proof {
            assert forall|k: int| 0 <= k < t.len() implies t[k] == s@[i + k] by {}
        }
        let b0 = s[i];
        if b0 < 0x80 {
            proof {
                assert(decode_first_codepoint(t) == (b0 & 0x7F) as u32);
                assert((b0 & 0x7F) as u32 == b0 as u32 && b0 as u32 <= 0x7f) by (bit_vector)
                    requires
                        b0 < 0x80,
                ;
                assert(valid_first_scalar(t));
                assert(pop_first_scalar(t) =~= s@.skip(i as int + 1));
            }
            i = i + 1;
        } else if 0xc0 <= b0 && b0 <= 0xdf {
            if i + 1 >= n {
                proof {
                    assert(!valid_first_scalar(t));
                }
                return false;
            }
            let b1 = s[i + 1];
            if !(0x80 <= b1 && b1 <= 0xbf) {
                proof {
                    assert(!valid_first_scalar(t));
                }
                return false;
            }
            let cp: u32 = (((b0 & 0x1F) as u32) << 6) | ((b1 & 0x3F) as u32);
            proof {
                assert(t[1] == s@[i + 1]);
                assert(decode_first_codepoint(t) == cp);
            }
            if cp < 0x80 {
                proof {
                    assert(!not_overlong_encoding(cp, 2));
                    assert(!valid_first_scalar(t));
                }
                return false;
            }
            proof {
                let c0 = b0;
                let c1 = b1;
                assert((((c0 & 0x1F) as u32) << 6) | ((c1 & 0x3F) as u32) <= 0x7ff)
                    by (bit_vector);
                assert(valid_first_scalar(t));
                assert(pop_first_scalar(t) =~= s@.skip(i as int + 2));
            }
            i = i + 2;
        } else if 0xe0 <= b0 && b0 <= 0xef {
            if n - i < 3 {
                proof {
                    assert(!valid_first_scalar(t));
                }
                return false;
            }
            let b1 = s[i + 1];
            let b2 = s[i + 2];
            if !(0x80 <= b1 && b1 <= 0xbf) || !(0x80 <= b2 && b2 <= 0xbf) {
                proof {
                    assert(!valid_first_scalar(t));
                }
                return false;
            }
            let cp: u32 = (((b0 & 0x0F) as u32) << 12) | (((b1 & 0x3F) as u32) << 6) | ((b2
                & 0x3F) as u32);
            proof {
                assert(t[1] == s@[i + 1] && t[2] == s@[i + 2]);
                assert(decode_first_codepoint(t) == cp);
            }
            if cp < 0x800 || (0xd800 <= cp && cp <= 0xdfff) {
                proof {
                    assert(!valid_first_scalar(t));
                }
                return false;
            }
            proof {
                assert(valid_first_scalar(t));
                assert(pop_first_scalar(t) =~= s@.skip(i as int + 3));
            }
            i = i + 3;
        } else if 0xf0 <= b0 && b0 <= 0xf7 {
            if n - i < 4 {
                proof {
                    assert(!valid_first_scalar(t));
                }
                return false;
            }
            let b1 = s[i + 1];
            let b2 = s[i + 2];
            let b3 = s[i + 3];
            if !(0x80 <= b1 && b1 <= 0xbf) || !(0x80 <= b2 && b2 <= 0xbf) || !(0x80 <= b3 && b3
                <= 0xbf) {
                proof {
                    assert(!valid_first_scalar(t));
                }
                return false;
            }
            let cp: u32 = (((b0 & 0x07) as u32) << 18) | (((b1 & 0x3F) as u32) << 12) | (((b2
                & 0x3F) as u32) << 6) | ((b3 & 0x3F) as u32);
            proof {
                assert(t[1] == s@[i + 1] && t[2] == s@[i + 2] && t[3] == s@[i + 3]);
                assert(decode_first_codepoint(t) == cp);
            }
            if cp < 0x10000 || cp > 0x10ffff {
                proof {
                    assert(!valid_first_scalar(t));
                }
                return false;
            }
            proof {
                assert(valid_first_scalar(t));
                assert(pop_first_scalar(t) =~= s@.skip(i as int + 4));
            }
            i = i + 4;
        } else {
            // a continuation byte (0x80..=0xbf) or an out-of-range leader (0xf8..)
            proof {
                assert(!valid_leading_and_continuation_bytes_first_codepoint(t));
            }
            return false;
        }
    }
    proof {
        assert(s@.skip(n as int) =~= Seq::<u8>::empty());
    }
    true
}

} // verus!
