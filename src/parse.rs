//! The partition-filter parser: `<column> <operator> <literal>`.
//!
//! Each matcher walks the bytes of the input and is proved to end where the
//! grammar of [`crate::grammar`] says its token ends.
use vstd::prelude::*;
use vstd::string::StringExecFns;
use vstd::string::StringSliceAdditionalSpecFns;

use crate::grammar::{
    column_end, condition, exponent_end, in_class, literal_end, mantissa_end, operator_at,
    operator_end, operator_from, operator_ignores_case, operator_token, quoted_end, sign_end, span,
    to_lower, ByteClass, BANG, DOT, EQUALS, GREATER, LESS, LOWER_E, LOWER_I, LOWER_N, LOWER_O,
    LOWER_T, MINUS, OPERATOR_COUNT, PLUS, QUOTE, SPACE, TAB, UNDERSCORE, UPPER_E,
};
use crate::text::{ascii_before, ascii_rest, ascii_slice};

verus! {

/// `r` is the executable form of the grammar's answer `s`.
pub open spec fn same_end(r: Option<usize>, s: Option<int>) -> bool {
    match (r, s) {
        (Some(e), Some(f)) => e == f,
        (None, None) => true,
        _ => false,
    }
}

/// Every byte of `b` from `i` up to `e` is ASCII.
pub open spec fn ascii_between(b: Seq<u8>, i: int, e: int) -> bool {
    forall|j: int| i <= j < e ==> #[trigger] b[j] < 0x80
}

/// A matcher's answer that ends, if anywhere, within `b` and after `i`, with
/// only ASCII bytes from `i` to its end.
pub open spec fn ascii_token(b: Seq<u8>, i: int, r: Option<usize>) -> bool {
    match r {
        Some(e) => i <= e <= b.len() && ascii_between(b, i, e as int),
        None => true,
    }
}

fn class_has(class: ByteClass, c: u8) -> (r: bool)
    ensures
        r == in_class(class, c),
{
    let alpha = (0x41 <= c && c <= 0x5a) || (0x61 <= c && c <= 0x7a);
    let digit = 0x30 <= c && c <= 0x39;
    match class {
        ByteClass::Space => c == SPACE || c == TAB,
        ByteClass::Digit => digit,
        ByteClass::Ident => alpha || digit || c == UNDERSCORE,
        ByteClass::Quoted => alpha || digit || c == UNDERSCORE || c == MINUS || c == DOT,
    }
}

/// The end of the run of bytes of `class` that starts at `i`.
fn scan(b: &[u8], i: usize, class: ByteClass) -> (r: usize)
    requires
        i <= b@.len(),
    ensures
        r == span(b@, i as int, class),
        i <= r <= b@.len(),
        forall|j: int| i <= j < r ==> in_class(class, #[trigger] b@[j]),
        ascii_between(b@, i as int, r as int),
{
    let mut j: usize = i;
    while j < b.len() && class_has(class, b[j])
        invariant
            i <= j <= b@.len(),
            span(b@, i as int, class) == span(b@, j as int, class),
            forall|k: int| i <= k < j ==> in_class(class, #[trigger] b@[k]),
            ascii_between(b@, i as int, j as int),
        decreases b@.len() - j,
    {
        j = j + 1;
    }
    j
}

fn match_column(b: &[u8], i: usize) -> (r: Option<usize>)
    requires
        i <= b@.len(),
    ensures
        same_end(r, column_end(b@, i as int)),
        ascii_token(b@, i as int, r),
{
    if i < b.len() && ((0x41 <= b[i] && b[i] <= 0x5a) || (0x61 <= b[i] && b[i] <= 0x7a) || b[i]
        == UNDERSCORE) {
        Some(scan(b, i + 1, ByteClass::Ident))
    } else {
        None
    }
}

fn operator_token_len(k: usize) -> (r: usize)
    requires
        k < OPERATOR_COUNT,
    ensures
        r == operator_token(k as int).len(),
{
    if k == 0 || k == 3 || k == 5 {
        1
    } else if k == 7 {
        6
    } else {
        2
    }
}

fn operator_token_byte(k: usize, n: usize) -> (r: u8)
    requires
        k < OPERATOR_COUNT,
        n < operator_token(k as int).len(),
    ensures
        r == operator_token(k as int)[n as int],
{
    if k == 0 {
        EQUALS
    } else if k == 1 {
        if n == 0 { BANG } else { EQUALS }
    } else if k == 2 {
        if n == 0 { GREATER } else { EQUALS }
    } else if k == 3 {
        GREATER
    } else if k == 4 {
        if n == 0 { LESS } else { EQUALS }
    } else if k == 5 {
        LESS
    } else if k == 6 {
        if n == 0 { LOWER_I } else { LOWER_N }
    } else {
        if n == 0 {
            LOWER_N
        } else if n == 1 {
            LOWER_O
        } else if n == 2 {
            LOWER_T
        } else if n == 3 {
            SPACE
        } else if n == 4 {
            LOWER_I
        } else {
            LOWER_N
        }
    }
}

fn lower_byte(c: u8) -> (r: u8)
    ensures
        r == to_lower(c),
{
    if 0x41 <= c && c <= 0x5a {
        c + 0x20
    } else {
        c
    }
}

fn match_operator_token(b: &[u8], i: usize, k: usize) -> (r: bool)
    requires
        i <= b@.len(),
        k < OPERATOR_COUNT,
    ensures
        r == operator_at(b@, i as int, k as int),
{
    let len = operator_token_len(k);
    if len > b.len() - i {
        return false;
    }
    let mut n: usize = 0;
    while n < len
        invariant
            len == operator_token(k as int).len(),
            i + len <= b.len(),
            n <= len,
            k < OPERATOR_COUNT,
            forall|m: int|
                0 <= m < n ==> if operator_ignores_case(k as int) {
                    to_lower(#[trigger] b@[i + m]) == operator_token(k as int)[m]
                } else {
                    b@[i + m] == operator_token(k as int)[m]
                },
        decreases len - n,
    {
        let c = if k >= 6 {
            lower_byte(b[i + n])
        } else {
            b[i + n]
        };
        if c != operator_token_byte(k, n) {
            return false;
        }
        n = n + 1;
    }
    true
}

/// The operator tokens of the grammar hold ASCII bytes only.
proof fn lemma_operator_ascii(b: Seq<u8>, i: int, k: int)
    requires
        0 <= k < OPERATOR_COUNT,
        operator_at(b, i, k),
    ensures
        ascii_between(b, i, i + operator_token(k).len()),
{
    let t = operator_token(k);
    assert forall|j: int| i <= j < i + t.len() implies #[trigger] b[j] < 0x80 by {
        let n = j - i;
        if operator_ignores_case(k) {
            assert(to_lower(b[i + n]) == t[n]);
        } else {
            assert(b[i + n] == t[n]);
        }
    }
}

fn match_operator(b: &[u8], i: usize) -> (r: Option<usize>)
    requires
        i <= b@.len(),
    ensures
        same_end(r, operator_end(b@, i as int)),
        ascii_token(b@, i as int, r),
{
    let total = b.len();
    let mut k: usize = 0;
    while k < OPERATOR_COUNT
        invariant
            k <= OPERATOR_COUNT,
            i <= b@.len(),
            total == b@.len(),
            operator_end(b@, i as int) == operator_from(b@, i as int, k as int),
        decreases OPERATOR_COUNT - k,
    {
        if match_operator_token(b, i, k) {
            proof {
                lemma_operator_ascii(b@, i as int, k as int);
            }
            return Some(i + operator_token_len(k));
        }
        k = k + 1;
    }
    None
}

fn match_sign(b: &[u8], i: usize) -> (r: usize)
    requires
        i <= b@.len(),
    ensures
        r == sign_end(b@, i as int),
        i <= r <= b@.len(),
        ascii_between(b@, i as int, r as int),
{
    if i < b.len() && (b[i] == PLUS || b[i] == MINUS) {
        i + 1
    } else {
        i
    }
}

fn match_mantissa(b: &[u8], i: usize) -> (r: Option<usize>)
    requires
        i <= b@.len(),
    ensures
        same_end(r, mantissa_end(b@, i as int)),
        ascii_token(b@, i as int, r),
{
    let j = match_sign(b, i);
    if j < b.len() && 0x30 <= b[j] && b[j] <= 0x39 {
        let k = scan(b, j, ByteClass::Digit);
        if k < b.len() && b[k] == DOT {
            Some(scan(b, k + 1, ByteClass::Digit))
        } else {
            Some(k)
        }
    } else if j < b.len() && b.len() - j > 1 && b[j] == DOT && 0x30 <= b[j + 1] && b[j + 1]
        <= 0x39 {
        Some(scan(b, j + 1, ByteClass::Digit))
    } else {
        None
    }
}

fn match_exponent(b: &[u8], m: usize) -> (r: Option<usize>)
    requires
        m <= b@.len(),
    ensures
        same_end(r, exponent_end(b@, m as int)),
        ascii_token(b@, m as int, r),
{
    if m < b.len() && (b[m] == LOWER_E || b[m] == UPPER_E) {
        let q = match_sign(b, m + 1);
        if q < b.len() && 0x30 <= b[q] && b[q] <= 0x39 {
            Some(scan(b, q, ByteClass::Digit))
        } else {
            None
        }
    } else {
        Some(m)
    }
}

fn match_quoted(b: &[u8], i: usize) -> (r: Option<usize>)
    requires
        i <= b@.len(),
    ensures
        same_end(r, quoted_end(b@, i as int)),
        ascii_token(b@, i as int, r),
{
    if i < b.len() && b.len() - i > 1 && b[i] == QUOTE && class_has(ByteClass::Quoted, b[i + 1]) {
        let k = scan(b, i + 1, ByteClass::Quoted);
        if k < b.len() && b[k] == QUOTE {
            Some(k + 1)
        } else {
            None
        }
    } else {
        None
    }
}

fn match_literal(b: &[u8], i: usize) -> (r: Option<usize>)
    requires
        i <= b@.len(),
    ensures
        same_end(r, literal_end(b@, i as int)),
        ascii_token(b@, i as int, r),
{
    match match_mantissa(b, i) {
        Some(m) => match_exponent(b, m),
        None => if i < b.len() && 0x30 <= b[i] && b[i] <= 0x39 {
            Some(scan(b, i, ByteClass::Digit))
        } else {
            match_quoted(b, i)
        },
    }
}

/// The error of [`filter_condition`]: the input does not read as
/// `<column> <operator> <literal>`. It carries the whole input, and nothing
/// about where the reading stopped.
#[derive(Debug, PartialEq, Eq)]
pub enum FilterError {
    InvalidFilterSyntax(String),
}

impl FilterError {
    /// The input that could not be read.
    pub open spec fn input(&self) -> Seq<char> {
        match self {
            FilterError::InvalidFilterSyntax(s) => s@,
        }
    }

    /// The message shown to a user: `invalid partition filter: <input>`.
    pub fn message(&self) -> (r: String)
        ensures
            r@ == "invalid partition filter: "@ + self.input(),
    {
        match self {
            FilterError::InvalidFilterSyntax(s) => String::from_str("invalid partition filter: ").concat(
                s.as_str(),
            ),
        }
    }
}

/// A column name at the very start of `input` (no spaces are skipped).
/// Returns the rest of the input and the name.
pub fn column_name<'a>(input: &'a str) -> (r: Option<(&'a str, &'a str)>)
    ensures
        ({
            let b = input.spec_bytes();
            match (r, column_end(b, 0)) {
                (Some((rest, name)), Some(e)) => name.spec_bytes() == b.subrange(0, e)
                    && rest.spec_bytes() == b.subrange(e, b.len() as int),
                (None, None) => true,
                _ => false,
            }
        }),
{
    let b = input.as_bytes();
    match match_column(b, 0) {
        Some(e) => Some((ascii_rest(input, e), ascii_slice(input, 0, e))),
        None => None,
    }
}

/// An operator after any spaces and tabs, which are skipped, as are those that
/// follow it. Returns the rest of the input and the operator, as written.
pub fn filter_operator<'a>(input: &'a str) -> (r: Option<(&'a str, &'a str)>)
    ensures
        ({
            let b = input.spec_bytes();
            let o0 = span(b, 0, ByteClass::Space);
            match (r, operator_end(b, o0)) {
                (Some((rest, op)), Some(o1)) => op.spec_bytes() == b.subrange(o0, o1)
                    && rest.spec_bytes() == b.subrange(
                    span(b, o1, ByteClass::Space),
                    b.len() as int,
                ),
                (None, None) => true,
                _ => false,
            }
        }),
{
    let b = input.as_bytes();
    let o0 = scan(b, 0, ByteClass::Space);
    match match_operator(b, o0) {
        Some(o1) => {
            let o2 = scan(b, o1, ByteClass::Space);
            Some((ascii_rest(input, o2), ascii_slice(input, o0, o1)))
        },
        None => None,
    }
}

/// A literal at the very start of `input`: a floating-point number, an integer
/// or a quoted string, tried in that order. A quoted string keeps its quotes.
/// Returns the rest of the input and the literal.
pub fn filter_field<'a>(input: &'a str) -> (r: Option<(&'a str, &'a str)>)
    ensures
        ({
            let b = input.spec_bytes();
            match (r, literal_end(b, 0)) {
                (Some((rest, lit)), Some(e)) => lit.spec_bytes() == b.subrange(0, e)
                    && rest.spec_bytes() == b.subrange(e, b.len() as int),
                (None, None) => true,
                _ => false,
            }
        }),
{
    let b = input.as_bytes();
    match match_literal(b, 0) {
        Some(e) => Some((ascii_rest(input, e), ascii_slice(input, 0, e))),
        None => None,
    }
}

/// Reads a partition filter `<column> <operator> <literal>`, with any spaces
/// and tabs before each part. Text after the literal is not looked at.
pub fn filter_condition<'a>(input: &'a str) -> (r: Result<(&'a str, &'a str, &'a str), FilterError>)
    ensures
        match r {
            Ok((column, op, lit)) => condition(input.spec_bytes()) == Some(
                (column.spec_bytes(), op.spec_bytes(), lit.spec_bytes()),
            ),
            Err(e) => condition(input.spec_bytes()) is None && e.input() == input@,
        },
{
    let b = input.as_bytes();
    let c0 = scan(b, 0, ByteClass::Space);
    if let Some(c1) = match_column(b, c0) {
        let o0 = scan(b, c1, ByteClass::Space);
        if let Some(o1) = match_operator(b, o0) {
            let l0 = scan(b, o1, ByteClass::Space);
            if let Some(l1) = match_literal(b, l0) {
                proof {
                    assert(ascii_before(b@, l1 as int)) by {
                        assert forall|j: int| 0 <= j < l1 implies #[trigger] b@[j] < 0x80 by {
                            if j < c0 {
                            } else if j < c1 {
                            } else if j < o0 {
                            } else if j < o1 {
                            } else if j < l0 {
                            } else {
                            }
                        }
                    }
                }
                return Ok(
                    (
                        ascii_slice(input, c0, c1),
                        ascii_slice(input, o0, o1),
                        ascii_slice(input, l0, l1),
                    ),
                );
            }
        }
    }
    Err(FilterError::InvalidFilterSyntax(input.to_owned()))
}

} // verus!
