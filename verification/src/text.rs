//! Attribute text handling: decimal numbers, hex digits, and decoding of
//! match values (literal, `0x…` hex, or backslash-escaped).

use vstd::prelude::*;
use vstd::string::StringSliceAdditionalSpecFns;
use crate::rule::CompileError;

verus! {

/// The byte is an ASCII decimal digit.
pub open spec fn is_digit(b: u8) -> bool {
    0x30 <= b <= 0x39
}

pub open spec fn all_digits(s: Seq<u8>) -> bool {
    forall|i: int| 0 <= i < s.len() ==> is_digit(#[trigger] s[i])
}

/// The value of a sequence of decimal digits, most significant first.
pub open spec fn digits_val(s: Seq<u8>) -> nat
    decreases s.len(),
{
    if s.len() == 0 {
        0
    } else {
        digits_val(s.drop_last()) * 10 + ((s.last() - 0x30) as nat)
    }
}

/// A digit string parses as a `u32`: non-empty, all digits, in range.
pub open spec fn parses_as_u32(s: Seq<u8>) -> bool {
    &&& s.len() > 0
    &&& all_digits(s)
    &&& digits_val(s) <= u32::MAX
}

/// The value of a prefix never exceeds the value of the whole digit string.
proof fn lemma_digits_take_le(s: Seq<u8>, i: int)
    requires
        0 <= i <= s.len(),
    ensures
        digits_val(s.take(i)) <= digits_val(s),
    decreases s.len() - i,
{
    if i == s.len() {
        assert(s.take(i) =~= s);
    } else {
        assert(s.take(i + 1).drop_last() =~= s.take(i));
        lemma_digits_take_le(s, i + 1);
    }
}

/// Parse the decimal digits of `s[lo..hi]` as a `u32`; a malformed or
/// out-of-range number is a schema error.
pub fn parse_u32_range(s: &[u8], lo: usize, hi: usize) -> (r: Result<u32, CompileError>)
    requires
        lo <= hi <= s@.len(),
    ensures
        ({
            let part = s@.subrange(lo as int, hi as int);
            match r {
                Ok(v) => parses_as_u32(part) && v as nat == digits_val(part),
                Err(e) => e == CompileError::Schema && !parses_as_u32(part),
            }
        }),
{
    let ghost part = s@.subrange(lo as int, hi as int);
    if lo == hi {
        return Err(CompileError::Schema);
    }
    let mut acc: u64 = 0;
    let mut i = lo;
    while i < hi
        invariant
            lo <= i <= hi <= s@.len(),
            part == s@.subrange(lo as int, hi as int),
            all_digits(part.take(i - lo)),
            acc as nat == digits_val(part.take(i - lo)),
            acc <= u32::MAX as u64,
        decreases hi - i,
    {
        let b = s[i];
        proof {
            assert(part[i - lo] == s@[i as int]);
            assert(part.take(i - lo + 1).drop_last() =~= part.take(i - lo));
            assert(part.take(i - lo + 1).last() == part[i - lo]);
        }
        if b < 0x30 || b > 0x39 {
            return Err(CompileError::Schema);
        }
        acc = acc * 10 + (b - 0x30) as u64;
        if acc > u32::MAX as u64 {
            proof {
                lemma_digits_take_le(part, i - lo + 1);
            }
            return Err(CompileError::Schema);
        }
        i += 1;
    }
    proof {
        assert(part.take(hi - lo) =~= part);
    }
    Ok(acc as u32)
}

/// The value of an ASCII hex digit, upper or lower case.
pub open spec fn hex_val(b: u8) -> Option<u8> {
    if 0x30 <= b <= 0x39 {
        Some((b - 0x30) as u8)
    } else if 0x61 <= b <= 0x66 {
        Some((b - 0x61 + 10) as u8)
    } else if 0x41 <= b <= 0x46 {
        Some((b - 0x41 + 10) as u8)
    } else {
        None
    }
}

fn hex_digit(b: u8) -> (r: Option<u8>)
    ensures
        r == hex_val(b),
{
    if 0x30 <= b && b <= 0x39 {
        Some(b - 0x30)
    } else if 0x61 <= b && b <= 0x66 {
        Some(b - 0x61 + 10)
    } else if 0x41 <= b && b <= 0x46 {
        Some(b - 0x41 + 10)
    } else {
        None
    }
}

pub const BACKSLASH: u8 = 0x5C;

pub const LOWER_X: u8 = 0x78;

pub const DIGIT_ZERO: u8 = 0x30;

/// Decode contiguous hex pairs, two digits to a byte; an uneven length or a
/// bad digit decodes to nothing.
pub open spec fn decode_hex(s: Seq<u8>) -> Option<Seq<u8>>
    decreases s.len(),
{
    if s.len() == 0 {
        Some(Seq::empty())
    } else if s.len() == 1 {
        None
    } else {
        match (hex_val(s[0]), hex_val(s[1])) {
            (Some(h), Some(l)) => match decode_hex(s.skip(2)) {
                Some(rest) => Some(seq![(h * 16 + l) as u8] + rest),
                None => None,
            },
            _ => None,
        }
    }
}

/// Decode a backslash-escaped value: `\\` is one backslash, `\xNN` is the
/// byte NN; any other escape drops the backslash and the follower stands
/// for itself; all other bytes stand for themselves. A trailing backslash
/// or a bad hex escape decodes to nothing.
pub open spec fn decode_escaped(s: Seq<u8>) -> Option<Seq<u8>>
    decreases s.len(),
{
    if s.len() == 0 {
        Some(Seq::empty())
    } else if s[0] == BACKSLASH {
        if s.len() == 1 {
            None
        } else if s[1] == BACKSLASH {
            match decode_escaped(s.skip(2)) {
                Some(rest) => Some(seq![BACKSLASH] + rest),
                None => None,
            }
        } else if s[1] == LOWER_X {
            if s.len() < 4 {
                None
            } else {
                match (hex_val(s[2]), hex_val(s[3])) {
                    (Some(h), Some(l)) => match decode_escaped(s.skip(4)) {
                        Some(rest) => Some(seq![(h * 16 + l) as u8] + rest),
                        None => None,
                    },
                    _ => None,
                }
            }
        } else {
            decode_escaped(s.skip(1))
        }
    } else {
        match decode_escaped(s.skip(1)) {
            Some(rest) => Some(seq![s[0]] + rest),
            None => None,
        }
    }
}

/// The decoded bytes of a match value: a `0x` prefix selects hex decoding
/// of the remainder, anything else is escape decoding.
pub open spec fn decoded_value(s: Seq<u8>) -> Option<Seq<u8>> {
    if s.len() >= 2 && s[0] == DIGIT_ZERO && s[1] == LOWER_X {
        decode_hex(s.skip(2))
    } else {
        decode_escaped(s)
    }
}

/// Decode the hex pairs of `s[base..]`.
fn decode_hex_exec(s: &[u8], base: usize) -> (r: Result<Vec<u8>, CompileError>)
    requires
        base <= s@.len(),
    ensures
        ({
            let t = s@.skip(base as int);
            match r {
                Ok(b) => decode_hex(t) == Some(b@),
                Err(e) => e == CompileError::Decode && decode_hex(t) is None,
            }
        }),
{
    let ghost t = s@.skip(base as int);
    let n = s.len();
    let mut out: Vec<u8> = Vec::new();
    let mut i = base;
    proof {
        assert(t.skip(0) =~= t);
        if decode_hex(t) is Some {
            assert(Seq::<u8>::empty() + decode_hex(t).unwrap() =~= decode_hex(t).unwrap());
        }
    }
    while i < n
        invariant
            base <= i <= n,
            n == s@.len(),
            t == s@.skip(base as int),
            match decode_hex(t.skip(i - base)) {
                Some(rest) => decode_hex(t) == Some(out@ + rest),
                None => decode_hex(t) is None,
            },
        decreases n - i,
    {
        proof {
            assert(t.skip(i - base)[0] == s@[i as int]);
            if i + 1 < n {
                assert(t.skip(i - base)[1] == s@[i + 1]);
                assert(t.skip(i - base).skip(2) =~= t.skip(i - base + 2));
            }
        }
        if n - i == 1 {
            return Err(CompileError::Decode);
        }
        let h = hex_digit(s[i]);
        let l = hex_digit(s[i + 1]);
        match (h, l) {
            (Some(hv), Some(lv)) => {
                out.push(hv * 16 + lv);
                proof {
                    let stepped = decode_hex(t.skip(i - base + 2));
                    if stepped is Some {
                        assert(decode_hex(t.skip(i - base)) == Some(
                            seq![(hv * 16 + lv) as u8] + stepped.unwrap(),
                        ));
                        assert(out@ + stepped.unwrap() =~= out@.drop_last() + (seq![
                            (hv * 16 + lv) as u8,
                        ] + stepped.unwrap()));
                    }
                }
                i += 2;
            },
            _ => {
                return Err(CompileError::Decode);
            },
        }
    }
    proof {
        assert(t.skip(n - base) =~= Seq::<u8>::empty());
        assert(out@ + Seq::<u8>::empty() =~= out@);
    }
    Ok(out)
}

/// Decode the escaped bytes of `s`.
fn decode_escaped_exec(s: &[u8]) -> (r: Result<Vec<u8>, CompileError>)
    ensures
        match r {
            Ok(b) => decode_escaped(s@) == Some(b@),
            Err(e) => e == CompileError::Decode && decode_escaped(s@) is None,
        },
{
    let n = s.len();
    let mut out: Vec<u8> = Vec::new();
    let mut i: usize = 0;
    proof {
        assert(s@.skip(0) =~= s@);
        if decode_escaped(s@) is Some {
            assert(Seq::<u8>::empty() + decode_escaped(s@).unwrap() =~= decode_escaped(
                s@,
            ).unwrap());
        }
    }
    while i < n
        invariant
            i <= n,
            n == s@.len(),
            match decode_escaped(s@.skip(i as int)) {
                Some(rest) => decode_escaped(s@) == Some(out@ + rest),
                None => decode_escaped(s@) is None,
            },
        decreases n - i,
    {
        let ghost cur = s@.skip(i as int);
        proof {
            assert(cur[0] == s@[i as int]);
            if i + 1 < n {
                assert(cur[1] == s@[i + 1]);
            }
            if i + 3 < n {
                assert(cur[2] == s@[i + 2]);
                assert(cur[3] == s@[i + 3]);
            }
        }
        let b = s[i];
        if b == BACKSLASH {
            if i + 1 >= n {
                return Err(CompileError::Decode);
            }
            let next = s[i + 1];
            if next == BACKSLASH {
                out.push(BACKSLASH);
                proof {
                    assert(cur.skip(2) =~= s@.skip(i + 2));
                    let stepped = decode_escaped(s@.skip(i + 2));
                    if stepped is Some {
                        assert(out@ + stepped.unwrap() =~= out@.drop_last() + (seq![BACKSLASH]
                            + stepped.unwrap()));
                    }
                }
                i += 2;
            } else if next == LOWER_X {
                if n - i < 4 {
                    proof {
                        assert(cur.len() < 4);
                    }
                    return Err(CompileError::Decode);
                }
                let h = hex_digit(s[i + 2]);
                let l = hex_digit(s[i + 3]);
                match (h, l) {
                    (Some(hv), Some(lv)) => {
                        out.push(hv * 16 + lv);
                        proof {
                            assert(cur.skip(4) =~= s@.skip(i + 4));
                            let stepped = decode_escaped(s@.skip(i + 4));
                            if stepped is Some {
                                assert(out@ + stepped.unwrap() =~= out@.drop_last() + (seq![
                                    (hv * 16 + lv) as u8,
                                ] + stepped.unwrap()));
                            }
                        }
                        i += 4;
                    },
                    _ => {
                        return Err(CompileError::Decode);
                    },
                }
            } else {
                proof {
                    assert(cur.skip(1) =~= s@.skip(i + 1));
                }
                i += 1;
            }
        } else {
            out.push(b);
            proof {
                assert(cur.skip(1) =~= s@.skip(i + 1));
                let stepped = decode_escaped(s@.skip(i + 1));
                if stepped is Some {
                    assert(out@ + stepped.unwrap() =~= out@.drop_last() + (seq![s@[i as int]]
                        + stepped.unwrap()));
                }
            }
            i += 1;
        }
    }
    proof {
        assert(s@.skip(n as int) =~= Seq::<u8>::empty());
        assert(out@ + Seq::<u8>::empty() =~= out@);
    }
    Ok(out)
}

/// Decode a match value attribute into the magic bytes it stands for.
pub fn decode_value(value: &str) -> (r: Result<Vec<u8>, CompileError>)
    ensures
        match r {
            Ok(b) => decoded_value(value.spec_bytes()) == Some(b@),
            Err(e) => e == CompileError::Decode && decoded_value(value.spec_bytes()) is None,
        },
{
    let bytes = value.as_bytes();
    if bytes.len() >= 2 && bytes[0] == DIGIT_ZERO && bytes[1] == LOWER_X {
        decode_hex_exec(bytes, 2)
    } else {
        decode_escaped_exec(bytes)
    }
}

} // verus!
