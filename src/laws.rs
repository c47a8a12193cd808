//! Laws of the filter grammar: what reads as what, proved over the grammar of
//! [`crate::grammar`], which the parser's contracts are stated in.
use vstd::prelude::*;

use crate::grammar::{
    column_end, condition, exponent_end, in_class, is_alpha, is_digit, is_sign, literal_end,
    mantissa_end, operator_at, operator_end, operator_from, operator_token, quoted_end, sign_end,
    span, to_lower, operator_ignores_case, ByteClass, DOT, LOWER_E, OPERATOR_COUNT, QUOTE, SPACE, UNDERSCORE, UPPER_E,
};

verus! {

/// Every byte of `s` is of `class`.
pub open spec fn all_in(s: Seq<u8>, class: ByteClass) -> bool {
    forall|k: int| 0 <= k < s.len() ==> in_class(class, #[trigger] s[k])
}

/// `c` is a column name: a letter or underscore, then letters, digits and
/// underscores.
pub open spec fn is_column_name(c: Seq<u8>) -> bool {
    &&& c.len() > 0
    &&& (is_alpha(c[0]) || c[0] == UNDERSCORE)
    &&& forall|k: int| 1 <= k < c.len() ==> in_class(ByteClass::Ident, #[trigger] c[k])
}

/// `o` is one of the operator tokens, the keywords in any case.
pub open spec fn is_operator(o: Seq<u8>) -> bool {
    exists|k: int|
        0 <= k < OPERATOR_COUNT && o.len() == operator_token(k).len() && #[trigger] operator_at(
            o,
            0,
            k,
        )
}

/// `d` is one or more digits.
pub open spec fn is_digits(d: Seq<u8>) -> bool {
    d.len() > 0 && all_in(d, ByteClass::Digit)
}

/// `s` is empty or a single `+` or `-`.
pub open spec fn is_opt_sign(s: Seq<u8>) -> bool {
    s.len() == 0 || (s.len() == 1 && is_sign(s[0]))
}

/// `m` is a mantissa: digits and at most one `.`, with at least one digit.
pub open spec fn is_mantissa(m: Seq<u8>) -> bool {
    &&& forall|k: int| 0 <= k < m.len() ==> is_digit(#[trigger] m[k]) || m[k] == DOT
    &&& forall|j: int, k: int|
        0 <= j < m.len() && 0 <= k < m.len() && #[trigger] m[j] == DOT && #[trigger] m[k] == DOT
            ==> j == k
    &&& exists|k: int| 0 <= k < m.len() && is_digit(#[trigger] m[k])
}

/// `x` is an exponent: `e` or `E`, an optional sign, and one or more digits.
pub open spec fn is_exponent(x: Seq<u8>) -> bool {
    &&& x.len() >= 2
    &&& (x[0] == LOWER_E || x[0] == UPPER_E)
    &&& (is_digits(x.subrange(1, x.len() as int)) || (is_sign(x[1]) && is_digits(
        x.subrange(2, x.len() as int),
    )))
}

/// `l` is a floating-point literal: an optional sign, a mantissa and an
/// optional exponent.
pub open spec fn is_float_literal(l: Seq<u8>) -> bool {
    exists|i: int, j: int|
        0 <= i <= j <= l.len() && is_opt_sign(#[trigger] l.subrange(0, i)) && is_mantissa(
            #[trigger] l.subrange(i, j),
        ) && (j == l.len() || is_exponent(l.subrange(j, l.len() as int)))
}

/// `l` is an integer literal: one or more digits.
pub open spec fn is_integer_literal(l: Seq<u8>) -> bool {
    is_digits(l)
}

/// `l` is a quoted string literal, quotes included.
pub open spec fn is_quoted_literal(l: Seq<u8>) -> bool {
    &&& l.len() >= 3
    &&& l[0] == QUOTE
    &&& l[l.len() - 1] == QUOTE
    &&& all_in(l.subrange(1, l.len() - 1), ByteClass::Quoted)
}

/// `l` has one of the three literal shapes.
pub open spec fn is_literal(l: Seq<u8>) -> bool {
    is_float_literal(l) || is_integer_literal(l) || is_quoted_literal(l)
}

/// A run of `class` from `i` that stops before a byte outside it ends there.
proof fn lemma_span_exact(b: Seq<u8>, i: int, e: int, class: ByteClass)
    requires
        0 <= i <= e <= b.len(),
        forall|k: int| i <= k < e ==> in_class(class, #[trigger] b[k]),
        e == b.len() || !in_class(class, b[e]),
    ensures
        span(b, i, class) == e,
    decreases e - i,
{
    if i < e {
        lemma_span_exact(b, i + 1, e, class);
    }
}

/// What a run of `class` is made of, and where it stops.
proof fn lemma_span_facts(b: Seq<u8>, i: int, class: ByteClass)
    requires
        0 <= i <= b.len(),
    ensures
        i <= span(b, i, class) <= b.len(),
        forall|k: int| i <= k < span(b, i, class) ==> in_class(class, #[trigger] b[k]),
        span(b, i, class) == b.len() || !in_class(class, b[span(b, i, class)]),
    decreases b.len() - i,
{
    if i < b.len() && in_class(class, b[i]) {
        lemma_span_facts(b, i + 1, class);
    }
}

/// A mantissa from `i` to `j`, that neither a digit nor a dot follows, is read
/// up to its end.
proof fn lemma_mantissa_at(b: Seq<u8>, i: int, j: int)
    requires
        0 <= i <= j <= b.len(),
        is_mantissa(b.subrange(i, j)),
        j == b.len() || !(is_digit(b[j]) || b[j] == DOT),
    ensures
        i < j,
        !is_sign(b[i]),
        mantissa_end(b, i) == Some(j),
{
    let m = b.subrange(i, j);
    assert forall|k: int| 0 <= k < m.len() implies #[trigger] m[k] == b[i + k] by {}
    let d = choose|k: int| 0 <= k < m.len() && is_digit(#[trigger] m[k]);
    assert(m[0] == b[i]);
    assert(sign_end(b, i) == i);
    if is_digit(b[i]) {
        if exists|p: int| 0 <= p < m.len() && #[trigger] m[p] == DOT {
            let p = choose|p: int| 0 <= p < m.len() && #[trigger] m[p] == DOT;
            assert forall|k: int| i <= k < i + p implies in_class(
                ByteClass::Digit,
                #[trigger] b[k],
            ) by {
                assert(m[k - i] == b[k]);
                assert(m[k - i] != DOT);
            }
            assert(b[i + p] == m[p]);
            lemma_span_exact(b, i, i + p, ByteClass::Digit);
            assert forall|k: int| i + p + 1 <= k < j implies in_class(
                ByteClass::Digit,
                #[trigger] b[k],
            ) by {
                assert(m[k - i] == b[k]);
                assert(m[k - i] != DOT);
            }
            lemma_span_exact(b, i + p + 1, j, ByteClass::Digit);
        } else {
            assert forall|k: int| i <= k < j implies in_class(ByteClass::Digit, #[trigger] b[k]) by {
                assert(m[k - i] == b[k]);
            }
            lemma_span_exact(b, i, j, ByteClass::Digit);
        }
    } else {
        assert(m[0] == DOT);
        assert(d != 0) by {
            assert(m[d] != DOT);
        }
        assert(m[1] == b[i + 1]);
        assert(m[1] != DOT);
        assert forall|k: int| i + 1 <= k < j implies in_class(ByteClass::Digit, #[trigger] b[k]) by {
            assert(m[k - i] == b[k]);
            assert(m[k - i] != DOT);
        }
        lemma_span_exact(b, i + 1, j, ByteClass::Digit);
    }
}

/// An exponent from `j` to `e`, followed by the end of the input or by a
/// space, is read up to its end.
proof fn lemma_exponent_at(b: Seq<u8>, j: int, e: int)
    requires
        0 <= j <= e <= b.len(),
        is_exponent(b.subrange(j, e)),
        e == b.len() || in_class(ByteClass::Space, b[e]),
    ensures
        exponent_end(b, j) == Some(e),
{
    let x = b.subrange(j, e);
    assert(x[0] == b[j]);
    assert(x[1] == b[j + 1]);
    if is_digits(x.subrange(1, x.len() as int)) {
        let ds = x.subrange(1, x.len() as int);
        assert(ds[0] == b[j + 1]);
        assert forall|k: int| j + 1 <= k < e implies in_class(ByteClass::Digit, #[trigger] b[k]) by {
            assert(ds[k - j - 1] == b[k]);
        }
        lemma_span_exact(b, j + 1, e, ByteClass::Digit);
    } else {
        let ds = x.subrange(2, x.len() as int);
        assert(ds[0] == b[j + 2]);
        assert forall|k: int| j + 2 <= k < e implies in_class(ByteClass::Digit, #[trigger] b[k]) by {
            assert(ds[k - j - 2] == b[k]);
        }
        lemma_span_exact(b, j + 2, e, ByteClass::Digit);
    }
}

/// A floating-point literal at `o`, followed by the end of the input or by a
/// space, is read up to its end.
proof fn lemma_float_at(b: Seq<u8>, o: int, e: int)
    requires
        0 <= o <= e <= b.len(),
        is_float_literal(b.subrange(o, e)),
        e == b.len() || in_class(ByteClass::Space, b[e]),
    ensures
        literal_end(b, o) == Some(e),
{
    let l = b.subrange(o, e);
    let (i, j) = choose|i: int, j: int|
        0 <= i <= j <= l.len() && is_opt_sign(#[trigger] l.subrange(0, i)) && is_mantissa(
            #[trigger] l.subrange(i, j),
        ) && (j == l.len() || is_exponent(l.subrange(j, l.len() as int)));
    assert(l.subrange(i, j) =~= b.subrange(o + i, o + j));
    assert(o + j == b.len() || !(is_digit(b[o + j]) || b[o + j] == DOT)) by {
        if o + j < b.len() && j < l.len() {
            let x = l.subrange(j, l.len() as int);
            assert(x[0] == b[o + j]);
        }
    }
    lemma_mantissa_at(b, o + i, o + j);
    if i == 1 {
        assert(l.subrange(0, i)[0] == b[o]);
    }
    assert(sign_end(b, o) == o + i);
    assert(mantissa_end(b, o) == Some(o + j));
    if j < l.len() {
        assert(l.subrange(j, l.len() as int) =~= b.subrange(o + j, e));
        lemma_exponent_at(b, o + j, e);
    }
}

/// A quoted literal at `o` is read up to its closing quote.
proof fn lemma_quoted_at(b: Seq<u8>, o: int, e: int)
    requires
        0 <= o <= e <= b.len(),
        is_quoted_literal(b.subrange(o, e)),
    ensures
        literal_end(b, o) == Some(e),
{
    let l = b.subrange(o, e);
    let inner = l.subrange(1, l.len() - 1);
    assert(l[0] == b[o]);
    assert(l[l.len() - 1] == b[e - 1]);
    assert(inner[0] == b[o + 1]);
    assert forall|k: int| o + 1 <= k < e - 1 implies in_class(ByteClass::Quoted, #[trigger] b[k]) by {
        assert(inner[k - o - 1] == b[k]);
    }
    lemma_span_exact(b, o + 1, e - 1, ByteClass::Quoted);
    assert(mantissa_end(b, o) is None);
    assert(quoted_end(b, o) == Some(e));
}

/// Digits alone have the shape of a floating-point literal.
proof fn lemma_integer_is_float(l: Seq<u8>)
    requires
        is_integer_literal(l),
    ensures
        is_float_literal(l),
{
    let m = l.subrange(0, l.len() as int);
    assert(m =~= l);
    assert(l.subrange(0, 0) =~= Seq::<u8>::empty());
    assert(is_digit(m[0]));
    assert(is_mantissa(m));
}

/// A literal at `o`, followed by the end of the input or by a space, is read
/// up to its end.
proof fn lemma_literal_at(b: Seq<u8>, o: int, e: int)
    requires
        0 <= o <= e <= b.len(),
        is_literal(b.subrange(o, e)),
        e == b.len() || in_class(ByteClass::Space, b[e]),
    ensures
        literal_end(b, o) == Some(e),
{
    if is_quoted_literal(b.subrange(o, e)) {
        lemma_quoted_at(b, o, e);
    } else {
        if is_integer_literal(b.subrange(o, e)) {
            lemma_integer_is_float(b.subrange(o, e));
        }
        lemma_float_at(b, o, e);
    }
}

/// A literal starts with a sign, a digit, a dot or a quote.
proof fn lemma_literal_first(l: Seq<u8>)
    requires
        is_literal(l),
    ensures
        l.len() > 0,
        is_sign(l[0]) || is_digit(l[0]) || l[0] == DOT || l[0] == QUOTE,
{
    if is_integer_literal(l) {
        lemma_integer_is_float(l);
    }
    if is_float_literal(l) && !is_quoted_literal(l) {
        let (i, j) = choose|i: int, j: int|
            0 <= i <= j <= l.len() && is_opt_sign(#[trigger] l.subrange(0, i)) && is_mantissa(
                #[trigger] l.subrange(i, j),
            ) && (j == l.len() || is_exponent(l.subrange(j, l.len() as int)));
        let m = l.subrange(i, j);
        let d = choose|k: int| 0 <= k < m.len() && is_digit(#[trigger] m[k]);
        if i == 1 {
            assert(l.subrange(0, i)[0] == l[0]);
        } else {
            assert(m[0] == l[0]);
        }
    }
}

/// The operator `k` is read at `i` when `b` holds it there and the byte after
/// it does not lengthen a token tried before it.
proof fn lemma_operator_at(b: Seq<u8>, i: int, k: int)
    requires
        0 <= k < OPERATOR_COUNT,
        operator_at(b, i, k),
        i + operator_token(k).len() < b.len(),
        b[i + operator_token(k).len()] != 0x3d,
    ensures
        operator_end(b, i) == Some(i + operator_token(k).len()),
{
    reveal_with_fuel(operator_from, 9);
    assert(operator_token(0) == seq![0x3du8]);
    let t = operator_token(k);
    assert(t.len() >= 1);
    assert(if operator_ignores_case(k) {
        to_lower(b[i + 0]) == t[0]
    } else {
        b[i + 0] == t[0]
    });
    assert(b[i + 0] != 0x3d || k == 0);
    if k >= 1 {
        assert(!operator_at(b, i, 0));
    }
    if k >= 2 {
        assert(!operator_at(b, i, 1));
    }
    if k >= 3 {
        assert(!operator_at(b, i, 2)) by {
            if k == 3 {
                assert(b[i + 1] != 0x3d);
            }
        }
    }
    if k >= 4 {
        assert(!operator_at(b, i, 3));
    }
    if k >= 5 {
        assert(!operator_at(b, i, 4)) by {
            if k == 5 {
                assert(b[i + 1] != 0x3d);
            }
        }
    }
    if k >= 6 {
        assert(!operator_at(b, i, 5));
    }
    if k >= 7 {
        assert(!operator_at(b, i, 6));
    }
}

/// The first byte of an operator token: a symbol, or a letter for the
/// keywords.
proof fn lemma_operator_first(o: Seq<u8>, k: int)
    requires
        0 <= k < OPERATOR_COUNT,
        o.len() == operator_token(k).len(),
        operator_at(o, 0, k),
    ensures
        o.len() > 0,
        k < 6 ==> o[0] == 0x3d || o[0] == 0x21 || o[0] == 0x3e || o[0] == 0x3c,
        k >= 6 ==> is_alpha(o[0]),
{
    let t = operator_token(k);
    assert(t.len() >= 1);
    assert(if operator_ignores_case(k) {
        to_lower(o[0int + 0]) == t[0]
    } else {
        o[0int + 0] == t[0]
    });
}

/// A column name, an operator token and a literal, with any run of spaces and
/// tabs between them (none included), read back as exactly those three parts.
/// Left out is a keyword operator (`in`, `not in`) written right after the
/// column with nothing between: it then reads as more of the column name.
pub proof fn law_parts_read_back(
    col: Seq<u8>,
    gap1: Seq<u8>,
    op: Seq<u8>,
    gap2: Seq<u8>,
    lit: Seq<u8>,
)
    requires
        is_column_name(col),
        all_in(gap1, ByteClass::Space),
        is_operator(op),
        all_in(gap2, ByteClass::Space),
        is_literal(lit),
        gap1.len() > 0 || !is_alpha(op[0]),
    ensures
        condition(col + gap1 + op + gap2 + lit) == Some((col, op, lit)),
{
    let b = col + gap1 + op + gap2 + lit;
    let n1 = col.len() as int;
    let n2 = n1 + gap1.len();
    let n3 = n2 + op.len();
    let n4 = n3 + gap2.len();
    assert(b.len() == n4 + lit.len());
    assert forall|k: int| 0 <= k < n1 implies #[trigger] b[k] == col[k] by {}
    assert forall|k: int| n1 <= k < n2 implies #[trigger] b[k] == gap1[k - n1] by {}
    assert forall|k: int| n2 <= k < n3 implies #[trigger] b[k] == op[k - n2] by {}
    assert forall|k: int| n3 <= k < n4 implies #[trigger] b[k] == gap2[k - n3] by {}
    assert forall|k: int| n4 <= k < b.len() implies #[trigger] b[k] == lit[k - n4] by {}
    lemma_literal_first(lit);
    let k = choose|k: int|
        0 <= k < OPERATOR_COUNT && op.len() == operator_token(k).len() && #[trigger] operator_at(
            op,
            0,
            k,
        );
    lemma_operator_first(op, k);
    assert(b[0] == col[0]);
    assert(span(b, 0, ByteClass::Space) == 0);
    // The column name.
    assert(n1 == b.len() || !in_class(ByteClass::Ident, b[n1])) by {
        if gap1.len() > 0 {
            assert(b[n1] == gap1[0]);
        } else {
            assert(b[n1] == op[0]);
        }
    }
    assert forall|j: int| 1 <= j < n1 implies in_class(ByteClass::Ident, #[trigger] b[j]) by {
        assert(b[j] == col[j]);
    }
    lemma_span_exact(b, 1, n1, ByteClass::Ident);
    assert(column_end(b, 0) == Some(n1));
    // The spaces before the operator.
    assert forall|j: int| n1 <= j < n2 implies in_class(ByteClass::Space, #[trigger] b[j]) by {
        assert(b[j] == gap1[j - n1]);
    }
    assert(b[n2] == op[0]);
    lemma_span_exact(b, n1, n2, ByteClass::Space);
    // The operator.
    assert(operator_at(b, n2, k)) by {
        let t = operator_token(k);
        assert forall|n: int| 0 <= n < t.len() implies if operator_ignores_case(k) {
            to_lower(#[trigger] b[n2 + n]) == t[n]
        } else {
            b[n2 + n] == t[n]
        } by {
            assert(b[n2 + n] == op[0 + n]);
        }
    }
    assert(b[n3] != 0x3d) by {
        if gap2.len() > 0 {
            assert(b[n3] == gap2[0]);
        } else {
            assert(b[n3] == lit[0]);
        }
    }
    lemma_operator_at(b, n2, k);
    // The spaces before the literal.
    assert forall|j: int| n3 <= j < n4 implies in_class(ByteClass::Space, #[trigger] b[j]) by {
        assert(b[j] == gap2[j - n3]);
    }
    assert(b[n4] == lit[0]);
    lemma_span_exact(b, n3, n4, ByteClass::Space);
    // The literal.
    assert(b.subrange(n4, b.len() as int) =~= lit);
    lemma_literal_at(b, n4, b.len() as int);
    assert(b.subrange(0, n1) =~= col);
    assert(b.subrange(n2, n3) =~= op);
}

/// A literal with the shape of a floating-point number is read whole, its dot
/// and exponent included, and not cut after its leading digits, when the
/// input ends after it or a space follows.
pub proof fn law_float_read_whole(l: Seq<u8>, rest: Seq<u8>)
    requires
        is_float_literal(l),
        rest.len() == 0 || in_class(ByteClass::Space, rest[0]),
    ensures
        literal_end(l + rest, 0) == Some(l.len() as int),
{
    let b = l + rest;
    assert(b.subrange(0, l.len() as int) =~= l);
    if rest.len() > 0 {
        assert(b[l.len() as int] == rest[0]);
    }
    lemma_float_at(b, 0, l.len() as int);
}

/// What the literal matcher reads has one of the literal shapes.
proof fn lemma_literal_shape(b: Seq<u8>, o: int)
    requires
        0 <= o <= b.len(),
        literal_end(b, o) is Some,
    ensures
        o <= literal_end(b, o).unwrap() <= b.len(),
        is_literal(b.subrange(o, literal_end(b, o).unwrap())),
{
    let e = literal_end(b, o).unwrap();
    let j0 = sign_end(b, o);
    match mantissa_end(b, o) {
        Some(m) => {
            // The mantissa, from `j0` to `m`.
            let mut dot: int = -1;
            if is_digit(b[j0]) {
                let k = span(b, j0, ByteClass::Digit);
                lemma_span_facts(b, j0, ByteClass::Digit);
                if k < b.len() && b[k] == DOT {
                    lemma_span_facts(b, k + 1, ByteClass::Digit);
                    dot = k;
                }
            } else {
                lemma_span_facts(b, j0 + 1, ByteClass::Digit);
                dot = j0;
            }
            assert(j0 < m);
            assert forall|x: int| j0 <= x < m implies is_digit(#[trigger] b[x]) || b[x] == DOT by {}
            assert forall|x: int| j0 <= x < m && #[trigger] b[x] == DOT implies x == dot by {}
            // The exponent, from `m` to `e`.
            if m < b.len() && (b[m] == LOWER_E || b[m] == UPPER_E) {
                let q = sign_end(b, m + 1);
                lemma_span_facts(b, q, ByteClass::Digit);
            }
            let l = b.subrange(o, e);
            let i = j0 - o;
            let j = m - o;
            let mant = l.subrange(i, j);
            assert forall|x: int| 0 <= x < mant.len() implies #[trigger] mant[x] == b[j0 + x] by {}
            assert(is_mantissa(mant)) by {
                assert forall|x: int| 0 <= x < mant.len() implies is_digit(#[trigger] mant[x])
                    || mant[x] == DOT by {
                    assert(mant[x] == b[j0 + x]);
                }
                assert forall|x: int, y: int|
                    0 <= x < mant.len() && 0 <= y < mant.len() && #[trigger] mant[x] == DOT
                        && #[trigger] mant[y] == DOT implies x == y by {
                    assert(mant[x] == b[j0 + x]);
                    assert(mant[y] == b[j0 + y]);
                }
                if is_digit(b[j0]) {
                    assert(is_digit(mant[0]));
                } else {
                    assert(is_digit(mant[1]));
                }
            }
            assert(is_opt_sign(l.subrange(0, i))) by {
                if i == 1 {
                    assert(l.subrange(0, i)[0] == b[o]);
                }
            }
            if j < l.len() {
                let x = l.subrange(j, l.len() as int);
                assert forall|y: int| 0 <= y < x.len() implies #[trigger] x[y] == b[m + y] by {}
                let q = sign_end(b, m + 1);
                let ds = x.subrange(q - m, x.len() as int);
                assert forall|y: int| 0 <= y < ds.len() implies in_class(
                    ByteClass::Digit,
                    #[trigger] ds[y],
                ) by {
                    assert(ds[y] == b[q + y]);
                }
                assert(ds[0] == b[q]);
                assert(is_exponent(x)) by {
                    if q == m + 2 {
                        assert(x[1] == b[m + 1]);
                    }
                }
            }
            assert(is_float_literal(l));
        },
        None => {
            let q = quoted_end(b, o);
            lemma_span_facts(b, o + 1, ByteClass::Quoted);
            let l = b.subrange(o, e);
            let inner = l.subrange(1, l.len() - 1);
            assert forall|y: int| 0 <= y < inner.len() implies in_class(
                ByteClass::Quoted,
                #[trigger] inner[y],
            ) by {
                assert(inner[y] == b[o + 1 + y]);
            }
            assert(is_quoted_literal(l));
        },
    }
}

/// The operator matcher, when it reads, reads one of the operator tokens.
proof fn lemma_operator_found(b: Seq<u8>, i: int, k: int)
    requires
        operator_from(b, i, k) is Some,
    ensures
        exists|k2: int|
            0 <= k2 < OPERATOR_COUNT && #[trigger] operator_at(b, i, k2) && operator_from(b, i, k)
                == Some(i + operator_token(k2).len()),
    decreases OPERATOR_COUNT - k,
{
    if !operator_at(b, i, k) {
        lemma_operator_found(b, i, k + 1);
    }
}

/// What the entry parser reads has the three shapes: a column name, an
/// operator token and a literal.
proof fn lemma_condition_shapes(b: Seq<u8>)
    requires
        condition(b) is Some,
    ensures
        is_column_name(condition(b).unwrap().0),
        is_operator(condition(b).unwrap().1),
        is_literal(condition(b).unwrap().2),
{
    let c0 = span(b, 0, ByteClass::Space);
    lemma_span_facts(b, 0, ByteClass::Space);
    let c1 = column_end(b, c0).unwrap();
    lemma_span_facts(b, c0 + 1, ByteClass::Ident);
    let o0 = span(b, c1, ByteClass::Space);
    lemma_span_facts(b, c1, ByteClass::Space);
    lemma_operator_found(b, o0, 0);
    let k = choose|k2: int|
        0 <= k2 < OPERATOR_COUNT && #[trigger] operator_at(b, o0, k2) && operator_from(b, o0, 0)
            == Some(o0 + operator_token(k2).len());
    let o1 = o0 + operator_token(k).len();
    let l0 = span(b, o1, ByteClass::Space);
    lemma_span_facts(b, o1, ByteClass::Space);
    lemma_literal_shape(b, l0);
    let col = b.subrange(c0, c1);
    assert forall|y: int| 1 <= y < col.len() implies in_class(ByteClass::Ident, #[trigger] col[y]) by {
        assert(col[y] == b[c0 + y]);
    }
    assert(col[0] == b[c0]);
    let op = b.subrange(o0, o1);
    assert(operator_at(op, 0, k)) by {
        let t = operator_token(k);
        assert forall|n: int| 0 <= n < t.len() implies if operator_ignores_case(k) {
            to_lower(#[trigger] op[0 + n]) == t[n]
        } else {
            op[0 + n] == t[n]
        } by {
            assert(op[0 + n] == b[o0 + n]);
        }
    }
}

/// Whatever the entry parser reads has one of the operator tokens as its
/// operator.
pub proof fn law_read_operator_is_token(input: Seq<u8>)
    ensures
        condition(input) matches Some((_, op, _)) ==> is_operator(op),
{
    if condition(input) is Some {
        lemma_condition_shapes(input);
    }
}

/// After a column name and its spaces, text that starts with none of the
/// operator tokens is refused, whatever follows.
pub proof fn law_other_operator_refused(col: Seq<u8>, gap: Seq<u8>, rest: Seq<u8>)
    requires
        is_column_name(col),
        all_in(gap, ByteClass::Space),
        rest.len() == 0 || !in_class(ByteClass::Space, rest[0]),
        rest.len() == 0 || gap.len() > 0 || !in_class(ByteClass::Ident, rest[0]),
        forall|k: int| 0 <= k < OPERATOR_COUNT ==> !operator_at(rest, 0, k),
    ensures
        condition(col + gap + rest) is None,
{
    let b = col + gap + rest;
    let n1 = col.len() as int;
    let n2 = n1 + gap.len();
    assert forall|j: int| 1 <= j < n1 implies in_class(ByteClass::Ident, #[trigger] b[j]) by {
        assert(b[j] == col[j]);
    }
    assert(n1 == b.len() || !in_class(ByteClass::Ident, b[n1])) by {
        if gap.len() > 0 {
            assert(b[n1] == gap[0]);
        } else if rest.len() > 0 {
            assert(b[n1] == rest[0]);
        }
    }
    assert(b[0] == col[0]);
    lemma_span_exact(b, 1, n1, ByteClass::Ident);
    assert forall|j: int| n1 <= j < n2 implies in_class(ByteClass::Space, #[trigger] b[j]) by {
        assert(b[j] == gap[j - n1]);
    }
    if rest.len() > 0 {
        assert(b[n2] == rest[0]);
    }
    lemma_span_exact(b, n1, n2, ByteClass::Space);
    assert forall|k: int| 0 <= k < OPERATOR_COUNT implies !#[trigger] operator_at(b, n2, k) by {
        if operator_at(b, n2, k) {
            let t = operator_token(k);
            assert forall|n: int| 0 <= n < t.len() implies if operator_ignores_case(k) {
                to_lower(#[trigger] rest[0 + n]) == t[n]
            } else {
                rest[0 + n] == t[n]
            } by {
                assert(rest[0 + n] == b[n2 + n]);
            }
            assert(operator_at(rest, 0, k));
        }
    }
    reveal_with_fuel(operator_from, 9);
    assert(operator_end(b, n2) is None);
}

/// A condition that was read, written back as `<column> <operator> <literal>`
/// with single spaces, reads as the same condition.
pub proof fn law_reformat_reads_same(input: Seq<u8>, col: Seq<u8>, op: Seq<u8>, lit: Seq<u8>)
    requires
        condition(input) == Some((col, op, lit)),
    ensures
        condition(col + seq![SPACE] + op + seq![SPACE] + lit) == Some((col, op, lit)),
{
    lemma_condition_shapes(input);
    let gap = seq![SPACE];
    assert(all_in(gap, ByteClass::Space));
    law_parts_read_back(col, gap, op, gap, lit);
}

} // verus!
