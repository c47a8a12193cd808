//! The partition-filter grammar, stated over the UTF-8 bytes of the input.
//!
//! Every position is a byte index. Each matcher is given as the position where
//! its token ends, or `None` where the token does not start at the given
//! position. All bytes that any matcher accepts are ASCII, so a matched token is
//! always a whole run of characters of the input.
use vstd::prelude::*;

verus! {

// The bytes that the grammar names.
pub const TAB: u8 = 0x09;
pub const SPACE: u8 = 0x20;
pub const BANG: u8 = 0x21;
pub const QUOTE: u8 = 0x27;
pub const PLUS: u8 = 0x2b;
pub const MINUS: u8 = 0x2d;
pub const DOT: u8 = 0x2e;
pub const LESS: u8 = 0x3c;
pub const EQUALS: u8 = 0x3d;
pub const GREATER: u8 = 0x3e;
pub const UPPER_E: u8 = 0x45;
pub const UNDERSCORE: u8 = 0x5f;
pub const LOWER_E: u8 = 0x65;
pub const LOWER_I: u8 = 0x69;
pub const LOWER_N: u8 = 0x6e;
pub const LOWER_O: u8 = 0x6f;
pub const LOWER_T: u8 = 0x74;

/// The classes of bytes that the tokens of the grammar are runs of.
#[derive(Clone, Copy)]
pub enum ByteClass {
    /// A space or a tab.
    Space,
    /// An ASCII decimal digit.
    Digit,
    /// A byte that may continue a column name: letter, digit or underscore.
    Ident,
    /// A byte allowed between the quotes of a string literal: letter, digit,
    /// underscore, hyphen or dot.
    Quoted,
}

pub open spec fn is_alpha(c: u8) -> bool {
    (0x41 <= c <= 0x5a) || (0x61 <= c <= 0x7a)
}

pub open spec fn is_digit(c: u8) -> bool {
    0x30 <= c <= 0x39
}

pub open spec fn is_sign(c: u8) -> bool {
    c == PLUS || c == MINUS
}

pub open spec fn in_class(class: ByteClass, c: u8) -> bool {
    match class {
        ByteClass::Space => c == SPACE || c == TAB,
        ByteClass::Digit => is_digit(c),
        ByteClass::Ident => is_alpha(c) || is_digit(c) || c == UNDERSCORE,
        ByteClass::Quoted => is_alpha(c) || is_digit(c) || c == UNDERSCORE || c == MINUS || c == DOT,
    }
}

/// The end of the longest run of bytes of `class` that starts at `i`.
pub open spec fn span(b: Seq<u8>, i: int, class: ByteClass) -> int
    decreases b.len() - i,
{
    if 0 <= i < b.len() && in_class(class, b[i]) {
        span(b, i + 1, class)
    } else {
        i
    }
}

/// A column name: a letter or underscore, then letters, digits and underscores.
pub open spec fn column_end(b: Seq<u8>, i: int) -> Option<int> {
    if 0 <= i < b.len() && (is_alpha(b[i]) || b[i] == UNDERSCORE) {
        Some(span(b, i + 1, ByteClass::Ident))
    } else {
        None
    }
}

/// The number of operator tokens.
pub const OPERATOR_COUNT: usize = 8;

/// The operator tokens, in the order in which they are tried.
pub open spec fn operator_token(k: int) -> Seq<u8> {
    if k == 0 {
        seq![EQUALS]
    } else if k == 1 {
        seq![BANG, EQUALS]
    } else if k == 2 {
        seq![GREATER, EQUALS]
    } else if k == 3 {
        seq![GREATER]
    } else if k == 4 {
        seq![LESS, EQUALS]
    } else if k == 5 {
        seq![LESS]
    } else if k == 6 {
        seq![LOWER_I, LOWER_N]
    } else {
        seq![LOWER_N, LOWER_O, LOWER_T, SPACE, LOWER_I, LOWER_N]
    }
}

/// The keyword operators (`in`, `not in`) match without regard to ASCII case.
pub open spec fn operator_ignores_case(k: int) -> bool {
    k >= 6
}

/// `c` with an ASCII upper-case letter turned to lower case.
pub open spec fn to_lower(c: u8) -> u8 {
    if 0x41 <= c <= 0x5a {
        (c + 0x20) as u8
    } else {
        c
    }
}

/// `b` holds the operator token `k` at position `i`.
pub open spec fn operator_at(b: Seq<u8>, i: int, k: int) -> bool {
    let t = operator_token(k);
    &&& 0 <= i
    &&& i + t.len() <= b.len()
    &&& forall|n: int|
        0 <= n < t.len() ==> if operator_ignores_case(k) {
            to_lower(#[trigger] b[i + n]) == t[n]
        } else {
            b[i + n] == t[n]
        }
}

/// The first of the operator tokens `k`, `k + 1`, ... that `b` holds at `i`.
pub open spec fn operator_from(b: Seq<u8>, i: int, k: int) -> Option<int>
    decreases OPERATOR_COUNT - k,
{
    if k < 0 || k >= OPERATOR_COUNT {
        None
    } else if operator_at(b, i, k) {
        Some(i + operator_token(k).len())
    } else {
        operator_from(b, i, k + 1)
    }
}

/// An operator: the first token, in order, that `b` holds at `i`.
pub open spec fn operator_end(b: Seq<u8>, i: int) -> Option<int> {
    operator_from(b, i, 0)
}

/// The position after an optional `+` or `-` at `i`.
pub open spec fn sign_end(b: Seq<u8>, i: int) -> int {
    if 0 <= i < b.len() && is_sign(b[i]) {
        i + 1
    } else {
        i
    }
}

/// The mantissa of a floating-point literal, with its optional sign: digits
/// with an optional `.` and further digits, or a `.` and at least one digit.
pub open spec fn mantissa_end(b: Seq<u8>, i: int) -> Option<int> {
    let j = sign_end(b, i);
    if 0 <= j < b.len() && is_digit(b[j]) {
        let k = span(b, j, ByteClass::Digit);
        if k < b.len() && b[k] == DOT {
            Some(span(b, k + 1, ByteClass::Digit))
        } else {
            Some(k)
        }
    } else if 0 <= j && j + 1 < b.len() && b[j] == DOT && is_digit(b[j + 1]) {
        Some(span(b, j + 1, ByteClass::Digit))
    } else {
        None
    }
}

/// An optional exponent after a mantissa ending at `m`: `e` or `E`, an
/// optional sign, and at least one digit. Once the `e` is there the digits are
/// owed: without them there is no literal at all.
pub open spec fn exponent_end(b: Seq<u8>, m: int) -> Option<int> {
    if 0 <= m < b.len() && (b[m] == LOWER_E || b[m] == UPPER_E) {
        let q = sign_end(b, m + 1);
        if q < b.len() && is_digit(b[q]) {
            Some(span(b, q, ByteClass::Digit))
        } else {
            None
        }
    } else {
        Some(m)
    }
}

/// A quoted string literal, quotes included: `'`, at least one allowed byte,
/// then `'`.
pub open spec fn quoted_end(b: Seq<u8>, i: int) -> Option<int> {
    if 0 <= i && i + 1 < b.len() && b[i] == QUOTE && in_class(ByteClass::Quoted, b[i + 1]) {
        let k = span(b, i + 1, ByteClass::Quoted);
        if k < b.len() && b[k] == QUOTE {
            Some(k + 1)
        } else {
            None
        }
    } else {
        None
    }
}

/// A literal: a floating-point number, else an integer, else a quoted string.
pub open spec fn literal_end(b: Seq<u8>, i: int) -> Option<int> {
    match mantissa_end(b, i) {
        Some(m) => exponent_end(b, m),
        None => if 0 <= i < b.len() && is_digit(b[i]) {
            Some(span(b, i, ByteClass::Digit))
        } else {
            quoted_end(b, i)
        },
    }
}

/// What the entry parser makes of `b`: column name, operator and literal, each
/// preceded by any number of spaces and tabs. Input after the literal is not
/// looked at.
pub open spec fn condition(b: Seq<u8>) -> Option<(Seq<u8>, Seq<u8>, Seq<u8>)> {
    let c0 = span(b, 0, ByteClass::Space);
    match column_end(b, c0) {
        None => None,
        Some(c1) => {
            let o0 = span(b, c1, ByteClass::Space);
            match operator_end(b, o0) {
                None => None,
                Some(o1) => {
                    let l0 = span(b, o1, ByteClass::Space);
                    match literal_end(b, l0) {
                        None => None,
                        Some(l1) => Some(
                            (b.subrange(c0, c1), b.subrange(o0, o1), b.subrange(l0, l1)),
                        ),
                    }
                },
            }
        },
    }
}

} // verus!
