//! UTF-8 well-formedness: the specification, a verified checker, and the
//! ASCII case fold that archived strings may apply in place.

use crate::codec::load_u8_at;
use vstd::prelude::*;

verus! {

/// A UTF-8 continuation byte.
pub open spec fn is_cont(b: u8) -> bool {
    0x80 <= b < 0xC0
}

/// Well-formed UTF-8: every code point shortest-form, no surrogates, no
/// code point beyond the last scalar value.
pub open spec fn spec_is_utf8(s: Seq<u8>) -> bool
    decreases s.len(),
{
    if s.len() == 0 {
        true
    } else {
        let b0 = s[0];
        if b0 < 0x80 {
            spec_is_utf8(s.skip(1))
        } else if b0 < 0xC2 {
            false
        } else if b0 <= 0xDF {
            s.len() >= 2 && is_cont(s[1]) && spec_is_utf8(s.skip(2))
        } else if b0 == 0xE0 {
            s.len() >= 3 && 0xA0 <= s[1] < 0xC0 && is_cont(s[2]) && spec_is_utf8(s.skip(3))
        } else if b0 == 0xED {
            s.len() >= 3 && 0x80 <= s[1] < 0xA0 && is_cont(s[2]) && spec_is_utf8(s.skip(3))
        } else if b0 <= 0xEF {
            s.len() >= 3 && is_cont(s[1]) && is_cont(s[2]) && spec_is_utf8(s.skip(3))
        } else if b0 == 0xF0 {
            s.len() >= 4 && 0x90 <= s[1] < 0xC0 && is_cont(s[2]) && is_cont(s[3]) && spec_is_utf8(
                s.skip(4),
            )
        } else if b0 <= 0xF3 {
            s.len() >= 4 && is_cont(s[1]) && is_cont(s[2]) && is_cont(s[3]) && spec_is_utf8(
                s.skip(4),
            )
        } else if b0 == 0xF4 {
            s.len() >= 4 && 0x80 <= s[1] < 0x90 && is_cont(s[2]) && is_cont(s[3]) && spec_is_utf8(
                s.skip(4),
            )
        } else {
            false
        }
    }
}

/// Checks the `n` bytes of `buf` starting at `start` for UTF-8
/// well-formedness, walking one code point at a time.
pub fn check_utf8_range(buf: &Vec<u8>, start: usize, n: usize) -> (ok: bool)
    requires
        start + n <= buf@.len(),
    ensures
        ok == spec_is_utf8(buf@.subrange(start as int, start + n)),
{
    let blen = buf.len();
    let ghost s = buf@.subrange(start as int, start + n);
    proof {
        assert(s.len() == n);
        assert(forall|j: int| 0 <= j < n ==> s[j] == buf@[start + j]);
    }
    let mut i: usize = 0;
    proof {
        assert(s.skip(0) =~= s);
    }
    while i < n
        invariant
            start + n <= buf@.len(),
            start + n <= blen,
            blen == buf@.len(),
            i <= n,
            s == buf@.subrange(start as int, start + n),
            s.len() == n,
            forall|j: int| 0 <= j < n ==> s[j] == buf@[start + j],
            spec_is_utf8(s) == spec_is_utf8(s.skip(i as int)),
        decreases n - i,
    {
        let ghost t = s.skip(i as int);
        proof {
            assert(t.len() == n - i);
            assert(forall|j: int| 0 <= j < t.len() ==> t[j] == s[i + j]);
        }
        let b0 = load_u8_at(buf, start + i);
        proof {
            assert(t[0] == b0);
        }
        let step: usize;
        if b0 < 0x80 {
            step = 1;
        } else if b0 < 0xC2 {
            proof {
                assert(!spec_is_utf8(t));
            }
            return false;
        } else if b0 <= 0xDF {
            if n - i < 2 {
                proof {
                    assert(!spec_is_utf8(t));
                }
                return false;
            }
            let b1 = load_u8_at(buf, start + i + 1);
            proof {
                assert(t[1] == b1);
            }
            if !(0x80 <= b1 && b1 < 0xC0) {
                proof {
                    assert(!spec_is_utf8(t));
                }
                return false;
            }
            step = 2;
        } else if b0 <= 0xEF {
            if n - i < 3 {
                proof {
                    assert(!spec_is_utf8(t));
                }
                return false;
            }
            let b1 = load_u8_at(buf, start + i + 1);
            let b2 = load_u8_at(buf, start + i + 2);
            proof {
                assert(t[1] == b1);
                assert(t[2] == b2);
            }
            let lo: u8 = if b0 == 0xE0 {
                0xA0
            } else {
                0x80
            };
            let hi: u8 = if b0 == 0xED {
                0xA0
            } else {
                0xC0
            };
            if !(lo <= b1 && b1 < hi) {
                proof {
                    assert(!spec_is_utf8(t));
                }
                return false;
            }
            if !(0x80 <= b2 && b2 < 0xC0) {
                proof {
                    assert(!spec_is_utf8(t));
                }
                return false;
            }
            step = 3;
        } else if b0 <= 0xF4 {
            if n - i < 4 {
                proof {
                    assert(!spec_is_utf8(t));
                }
                return false;
            }
            let b1 = load_u8_at(buf, start + i + 1);
            let b2 = load_u8_at(buf, start + i + 2);
            let b3 = load_u8_at(buf, start + i + 3);
            proof {
                assert(t[1] == b1);
                assert(t[2] == b2);
                assert(t[3] == b3);
            }
            let lo: u8 = if b0 == 0xF0 {
                0x90
            } else {
                0x80
            };
            let hi: u8 = if b0 == 0xF4 {
                0x90
            } else {
                0xC0
            };
            if !(lo <= b1 && b1 < hi) {
                proof {
                    assert(!spec_is_utf8(t));
                }
                return false;
            }
            if !(0x80 <= b2 && b2 < 0xC0) || !(0x80 <= b3 && b3 < 0xC0) {
                proof {
                    assert(!spec_is_utf8(t));
                }
                return false;
            }
            step = 4;
        } else {
            proof {
                assert(!spec_is_utf8(t));
            }
            return false;
        }
        proof {
            assert(t.skip(step as int) =~= s.skip(i + step));
            assert(spec_is_utf8(t) == spec_is_utf8(s.skip(i + step)));
        }
        i += step;
    }
    proof {
        assert(s.skip(n as int).len() == 0);
        assert(spec_is_utf8(s.skip(n as int)));
    }
    true
}

/// The ASCII upper-casing of one byte: lower-case letters move down by
/// 0x20, every other byte stays.
pub open spec fn spec_upper(b: u8) -> u8 {
    if 0x61 <= b <= 0x7A {
        (b - 0x20) as u8
    } else {
        b
    }
}

/// The ASCII upper-casing of a byte string.
pub open spec fn spec_upper_seq(s: Seq<u8>) -> Seq<u8> {
    Seq::new(s.len(), |j: int| spec_upper(s[j]))
}

/// ASCII case folding preserves UTF-8 well-formedness: it touches only
/// bytes below 0x80 and keeps them below 0x80, so every code point keeps
/// its shape and its length.
pub proof fn lemma_upper_preserves_utf8(s: Seq<u8>)
    requires
        spec_is_utf8(s),
    ensures
        spec_is_utf8(spec_upper_seq(s)),
    decreases s.len(),
{
    let t = spec_upper_seq(s);
    if s.len() > 0 {
        let b0 = s[0];
        assert(t[0] == spec_upper(b0));
        if b0 < 0x80 {
            lemma_upper_preserves_utf8(s.skip(1));
            assert(spec_upper_seq(s.skip(1)) =~= t.skip(1));
        } else if b0 <= 0xDF {
            lemma_upper_preserves_utf8(s.skip(2));
            assert(spec_upper_seq(s.skip(2)) =~= t.skip(2));
        } else if b0 <= 0xEF {
            lemma_upper_preserves_utf8(s.skip(3));
            assert(spec_upper_seq(s.skip(3)) =~= t.skip(3));
        } else {
            lemma_upper_preserves_utf8(s.skip(4));
            assert(spec_upper_seq(s.skip(4)) =~= t.skip(4));
        }
    }
}

/// Upper-cases the `n` bytes of `buf` starting at `start` in place: a
/// length-preserving fold, so nothing else in the buffer moves.
pub fn ascii_uppercase_range(buf: &mut Vec<u8>, start: usize, n: usize)
    requires
        start + n <= old(buf)@.len(),
    ensures
        final(buf)@.len() == old(buf)@.len(),
        final(buf)@.subrange(start as int, start + n) == spec_upper_seq(
            old(buf)@.subrange(start as int, start + n),
        ),
        forall|i: int|
            0 <= i < old(buf)@.len() && !(start <= i < start + n) ==> final(buf)@[i] == old(
                buf,
            )@[i],
{
    let blen = buf.len();
    let mut k: usize = 0;
    while k < n
        invariant
            start + n <= buf@.len(),
            start + n <= blen,
            blen == buf@.len(),
            buf@.len() == old(buf)@.len(),
            k <= n,
            forall|j: int|
                0 <= j < old(buf)@.len() && !(start <= j < start + k) ==> buf@[j] == old(buf)@[j],
            forall|j: int| 0 <= j < k ==> buf@[start + j] == spec_upper(#[trigger] old(buf)@[start + j]),
        decreases n - k,
    {
        let b = buf[start + k];
        if 0x61 <= b && b <= 0x7A {
            buf[start + k] = b - 0x20;
        }
        k += 1;
    }
    proof {
        let o = old(buf)@.subrange(start as int, start + n);
        assert(forall|j: int| 0 <= j < n ==> o[j] == old(buf)@[start + j]);
        assert(buf@.subrange(start as int, start + n) =~= spec_upper_seq(o));
    }
}

} // verus!
