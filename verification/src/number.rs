//! Integers: the ranges of the eight integer kinds, and decimal literals.

use vstd::prelude::*;
use vstd::string::*;
use crate::document::TokenKind;
use crate::error::{decoded_view, DecodeError, DecodeErrorView, Number, NumberView};
use crate::types::Kind;
use crate::val::{Val, ValView};

verus! {

/// Whether `kind` is one of the eight integer kinds.
pub open spec fn is_integer(kind: Kind) -> bool {
    is_unsigned(kind) || is_signed(kind)
}

/// Whether `kind` is an unsigned integer kind.
pub open spec fn is_unsigned(kind: Kind) -> bool {
    kind == Kind::U8 || kind == Kind::U16 || kind == Kind::U32 || kind == Kind::U64
}

/// Whether `kind` is a signed integer kind.
pub open spec fn is_signed(kind: Kind) -> bool {
    kind == Kind::S8 || kind == Kind::S16 || kind == Kind::S32 || kind == Kind::S64
}

/// The least number that an integer kind holds.
pub open spec fn least(kind: Kind) -> int {
    match kind {
        Kind::S8 => -0x80,
        Kind::S16 => -0x8000,
        Kind::S32 => -0x8000_0000,
        Kind::S64 => -0x8000_0000_0000_0000,
        _ => 0,
    }
}

/// The greatest number that an integer kind holds.
pub open spec fn greatest(kind: Kind) -> int {
    match kind {
        Kind::S8 => 0x7f,
        Kind::U8 => 0xff,
        Kind::S16 => 0x7fff,
        Kind::U16 => 0xffff,
        Kind::S32 => 0x7fff_ffff,
        Kind::U32 => 0xffff_ffff,
        Kind::S64 => 0x7fff_ffff_ffff_ffff,
        Kind::U64 => 0xffff_ffff_ffff_ffff,
        _ => 0,
    }
}

/// Whether the number `n` fits the kind: it lies in the range of an
/// integer kind, and no number fits a kind that is no integer kind.
pub open spec fn fits(kind: Kind, n: int) -> bool {
    is_integer(kind) && least(kind) <= n <= greatest(kind)
}

/// The value of an integer kind that holds the number `n`.
pub open spec fn integer_val(kind: Kind, n: int) -> ValView
    recommends
        is_integer(kind),
        fits(kind, n),
{
    match kind {
        Kind::S8 => ValView::S8(n as i8),
        Kind::U8 => ValView::U8(n as u8),
        Kind::S16 => ValView::S16(n as i16),
        Kind::U16 => ValView::U16(n as u16),
        Kind::S32 => ValView::S32(n as i32),
        Kind::U32 => ValView::U32(n as u32),
        Kind::S64 => ValView::S64(n as i64),
        _ => ValView::U64(n as u64),
    }
}

/// The value of the kind that holds the number `n`, where it fits.
pub open spec fn integer_of(kind: Kind, n: int) -> Option<ValView> {
    if fits(kind, n) {
        Some(integer_val(kind, n))
    } else {
        None
    }
}

/// A number against a kind: the value that holds it where it fits, and a
/// range error with the number as the document gave it where it does not.
pub open spec fn checked(kind: Kind, n: int, value: NumberView) -> Result<
    ValView,
    DecodeErrorView,
> {
    match integer_of(kind, n) {
        Some(v) => Ok(v),
        None => Err(DecodeErrorView::RangeError { expected: kind, value }),
    }
}

/// Whether `c` is a decimal digit.
pub open spec fn is_digit(c: char) -> bool {
    '0' <= c <= '9'
}

/// The number that a decimal digit writes.
pub open spec fn digit_of(c: char) -> nat {
    if is_digit(c) {
        (c as nat - '0' as nat) as nat
    } else {
        0
    }
}

/// Whether `s` is one or more decimal digits.
pub open spec fn is_digits(s: Seq<char>) -> bool {
    s.len() > 0 && forall|i: int| 0 <= i < s.len() ==> is_digit(#[trigger] s[i])
}

/// The number that a sequence of decimal digits writes.
pub open spec fn digits_value(s: Seq<char>) -> nat
    decreases s.len(),
{
    if s.len() == 0 {
        0
    } else {
        digits_value(s.drop_last()) * 10 + digit_of(s.last())
    }
}

/// Whether `s` starts with a sign.
pub open spec fn has_sign(s: Seq<char>) -> bool {
    s.len() > 0 && (s[0] == '+' || s[0] == '-')
}

/// Whether `s` starts with a minus sign.
pub open spec fn is_negative(s: Seq<char>) -> bool {
    s.len() > 0 && s[0] == '-'
}

/// What follows the sign, if there is one.
pub open spec fn unsigned_part(s: Seq<char>) -> Seq<char> {
    if has_sign(s) {
        s.subrange(1, s.len() as int)
    } else {
        s
    }
}

/// Whether `s` is a decimal literal: an optional sign, then one or more
/// digits, and nothing else.
pub open spec fn is_literal(s: Seq<char>) -> bool {
    is_digits(unsigned_part(s))
}

/// The number that a decimal literal writes.
pub open spec fn literal_value(s: Seq<char>) -> int
    recommends
        is_literal(s),
{
    if is_negative(s) {
        -(digits_value(unsigned_part(s)) as int)
    } else {
        digits_value(unsigned_part(s)) as int
    }
}

/// Text against an integer kind. Text that is no decimal literal is a shape
/// mismatch. A literal with a minus sign is out of range for an unsigned
/// kind, whatever its digits; any other literal is held to the kind's range.
pub open spec fn checked_text(kind: Kind, s: Seq<char>) -> Result<ValView, DecodeErrorView> {
    if !is_literal(s) {
        Err(DecodeErrorView::ShapeMismatch { expected: kind, found: TokenKind::String })
    } else if is_negative(s) && is_unsigned(kind) {
        Err(DecodeErrorView::RangeError { expected: kind, value: NumberView::Text(s) })
    } else {
        checked(kind, literal_value(s), NumberView::Text(s))
    }
}

/// A decimal literal, read: its sign, and its digits' number where that is
/// below 2^64.
pub struct Literal {
    pub negative: bool,
    pub magnitude: Option<u64>,
}

/// Appending a digit multiplies by ten and adds the digit.
proof fn lemma_digits_value_push(s: Seq<char>, k: int)
    requires
        0 <= k < s.len(),
    ensures
        digits_value(s.take(k + 1)) == digits_value(s.take(k)) * 10 + digit_of(s[k]),
{
    assert(s.take(k + 1).drop_last() =~= s.take(k));
}

/// Reads a decimal literal.
///
/// Returns `None` exactly when `s` is no decimal literal.
#[verifier::rlimit(50)]
pub fn parse_literal(s: &str) -> (r: Option<Literal>)
    ensures
        r is Some <==> is_literal(s@),
        match r {
            Some(lit) => {
                &&& lit.negative == is_negative(s@)
                &&& match lit.magnitude {
                    Some(m) => m == digits_value(unsigned_part(s@)),
                    None => digits_value(unsigned_part(s@)) > u64::MAX,
                }
            },
            None => true,
        },
{
    broadcast use is_ascii_spec_bytes;

    if !s.is_ascii() {
        proof {
            let i = choose|i: int| 0 <= i < s@.len() && !('\0' <= #[trigger] s@[i] <= '\u{7f}');
            if has_sign(s@) {
                assert(i >= 1);
                assert(unsigned_part(s@)[i - 1] == s@[i]);
            }
        }
        return None;
    }
    let bytes = s.as_bytes();
    let n = bytes.len();
    assert(bytes@.len() == s@.len());
    assert(forall|i: int| 0 <= i < n ==> bytes@[i] == s@[i] as u8);
    if n == 0 {
        return None;
    }
    let first: u8 = bytes[0];
    let start: usize = if first == 43 || first == 45 {
        1
    } else {
        0
    };
    assert(has_sign(s@) <==> start == 1);
    let ghost digits = unsigned_part(s@);
    assert(digits.len() == n - start);
    assert(forall|i: int| 0 <= i < n - start ==> digits[i] == s@[i + start]);
    if start == n {
        return None;
    }
    let mut acc: u64 = 0;
    let mut overflow = false;
    let mut i: usize = start;
    while i < n
        invariant
            start <= i <= n,
            n == bytes@.len(),
            n == s@.len(),
            digits == unsigned_part(s@),
            digits.len() == n - start,
            forall|j: int| 0 <= j < n - start ==> digits[j] == s@[j + start],
            forall|j: int| 0 <= j < n ==> bytes@[j] == s@[j] as u8,
            forall|j: int| 0 <= j < n ==> '\0' <= #[trigger] s@[j] <= '\u{7f}',
            forall|j: int| 0 <= j < i - start ==> is_digit(#[trigger] digits[j]),
            !overflow ==> acc == digits_value(digits.take(i - start)),
            overflow ==> digits_value(digits.take(i - start)) > u64::MAX,
        decreases n - i,
    {
        let b: u8 = bytes[i];
        proof {
            assert(b == s@[i as int] as u8);
            assert(digits[i - start] == s@[i as int]);
            lemma_digits_value_push(digits, i - start);
        }
        if b < 48 || b > 57 {
            proof {
                assert(!is_digit(digits[i - start]));
            }
            return None;
        }
        let d: u64 = (b - 48) as u64;
        assert(d == digit_of(digits[i - start]));
        if !overflow {
            if acc > (u64::MAX - d) / 10 {
                overflow = true;
            } else {
                acc = acc * 10 + d;
            }
        }
        i += 1;
    }
    assert(digits.take(n - start) =~= digits);
    Some(Literal { negative: first == 45, magnitude: if overflow { None } else { Some(acc) } })
}

/// The model of an optional value.
pub open spec fn found_view(r: Option<Val>) -> Option<ValView> {
    match r {
        Some(v) => Some(v@),
        None => None,
    }
}

/// The value of an integer kind that holds a number, or `None` where the
/// number does not fit the kind.
pub fn checked_integer(kind: Kind, n: i128) -> (r: Option<Val>)
    ensures
        found_view(r) == integer_of(kind, n as int),
{
    match kind {
        Kind::S8 => if -0x80 <= n && n <= 0x7f {
            Some(Val::S8(n as i8))
        } else {
            None
        },
        Kind::U8 => if 0 <= n && n <= 0xff {
            Some(Val::U8(n as u8))
        } else {
            None
        },
        Kind::S16 => if -0x8000 <= n && n <= 0x7fff {
            Some(Val::S16(n as i16))
        } else {
            None
        },
        Kind::U16 => if 0 <= n && n <= 0xffff {
            Some(Val::U16(n as u16))
        } else {
            None
        },
        Kind::S32 => if -0x8000_0000 <= n && n <= 0x7fff_ffff {
            Some(Val::S32(n as i32))
        } else {
            None
        },
        Kind::U32 => if 0 <= n && n <= 0xffff_ffff {
            Some(Val::U32(n as u32))
        } else {
            None
        },
        Kind::S64 => if -0x8000_0000_0000_0000 <= n && n <= 0x7fff_ffff_ffff_ffff {
            Some(Val::S64(n as i64))
        } else {
            None
        },
        Kind::U64 => if 0 <= n && n <= 0xffff_ffff_ffff_ffff {
            Some(Val::U64(n as u64))
        } else {
            None
        },
        _ => None,
    }
}

/// The value of an integer kind for text that writes a number.
///
/// Text that is no decimal literal is a shape mismatch; a literal that
/// does not fit the kind is a range error that holds the text.
pub fn checked_integer_text(kind: Kind, s: &str) -> (r: Result<Val, DecodeError>)
    ensures
        decoded_view(r) == checked_text(kind, s@),
{
    match parse_literal(s) {
        None => Err(DecodeError::ShapeMismatch { expected: kind, found: TokenKind::String }),
        Some(lit) => {
            let unsigned = match kind {
                Kind::U8 | Kind::U16 | Kind::U32 | Kind::U64 => true,
                _ => false,
            };
            let fitting = if lit.negative && unsigned {
                None
            } else {
                match lit.magnitude {
                    None => None,
                    Some(m) => {
                        let n: i128 = if lit.negative {
                            -(m as i128)
                        } else {
                            m as i128
                        };
                        checked_integer(kind, n)
                    },
                }
            };
            match fitting {
                Some(v) => Ok(v),
                None => Err(
                    DecodeError::RangeError { expected: kind, value: Number::Text(s.to_owned()) },
                ),
            }
        },
    }
}

} // verus!
