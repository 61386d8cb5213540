//! The structured-data side: a model of the comment-tolerant parser's value,
//! number classification, and conversion to a host value.

use vstd::prelude::*;
use vstd::string::StrSliceExecFns;
use crate::bridge::{ConvError, ErrView};
use crate::value::{HostValue, HostView};

verus! {

/// A parsed structured-data value. A number stays textual until conversion
/// classifies it as integer or float.
#[derive(Debug, PartialEq)]
pub enum JsonNode {
    Null,
    Bool(bool),
    Num(String),
    Str(String),
    Arr(Vec<JsonNode>),
    Obj(Vec<(String, JsonNode)>),
}

/// Mathematical shadow of `JsonNode`.
pub enum JsonView {
    Null,
    Bool(bool),
    Num(Seq<char>),
    Str(Seq<char>),
    Arr(Seq<JsonView>),
    Obj(Seq<(Seq<char>, JsonView)>),
}

/// The mathematical shadow of a parsed structured-data value.
pub open spec fn json_view(v: JsonNode) -> JsonView
    decreases v,
{
    match v {
        JsonNode::Null => JsonView::Null,
        JsonNode::Bool(b) => JsonView::Bool(b),
        JsonNode::Num(n) => JsonView::Num(n@),
        JsonNode::Str(s) => JsonView::Str(s@),
        JsonNode::Arr(l) => JsonView::Arr(
            Seq::new(l@.len(), |i: int| if 0 <= i < l@.len() {
                json_view(l[i])
            } else {
                JsonView::Null
            }),
        ),
        JsonNode::Obj(entries) => JsonView::Obj(
            Seq::new(entries@.len(), |i: int| if 0 <= i < entries@.len() {
                (entries[i].0@, json_view(entries[i].1))
            } else {
                (Seq::empty(), JsonView::Null)
            }),
        ),
    }
}

impl View for JsonNode {
    type V = JsonView;

    open spec fn view(&self) -> JsonView {
        json_view(*self)
    }
}

/// An ASCII decimal digit.
pub open spec fn is_digit(c: char) -> bool {
    48 <= (c as u32) <= 57
}

/// The value of an ASCII decimal digit.
pub open spec fn digit_val(c: char) -> int {
    (c as u32) - 48
}

/// Every character is an ASCII decimal digit.
pub open spec fn all_digits(s: Seq<char>) -> bool {
    forall|i: int| 0 <= i < s.len() ==> is_digit(#[trigger] s[i])
}

/// The numeric value of a digit string, most significant digit first.
pub open spec fn digits_value(s: Seq<char>) -> int
    decreases s.len(),
{
    if s.len() == 0 {
        0
    } else {
        digits_value(s.drop_last()) * 10 + digit_val(s.last())
    }
}

/// The value of an optionally signed decimal integer literal — an optional
/// leading `+` or `-`, then one or more ASCII digits, nothing else — or
/// `None` where the text is not one.
pub open spec fn int_literal_value(s: Seq<char>) -> Option<int> {
    let negative = s.len() > 0 && s[0] == '-';
    let digits = if s.len() > 0 && (s[0] == '+' || s[0] == '-') {
        s.skip(1)
    } else {
        s
    };
    if digits.len() == 0 || !all_digits(digits) {
        None
    } else if negative {
        Some(-digits_value(digits))
    } else {
        Some(digits_value(digits))
    }
}

/// Whether the text is an integer literal whose value fits a 64-bit signed
/// integer.
pub open spec fn int_fits(s: Seq<char>) -> bool {
    match int_literal_value(s) {
        Some(v) => i64::MIN <= v <= i64::MAX,
        None => false,
    }
}

/// The value of a fitting integer literal.
pub open spec fn int_value(s: Seq<char>) -> int {
    match int_literal_value(s) {
        Some(v) => v,
        None => 0,
    }
}

/// A mantissa: digits, optionally with one decimal point, with at least one
/// digit on one of its sides.
pub open spec fn mantissa_ok(m: Seq<char>) -> bool {
    (m.len() > 0 && all_digits(m)) || (m.len() > 1 && exists|p: int|
        0 <= p < m.len() && #[trigger] m[p] == '.' && all_digits(m.take(p)) && all_digits(
            m.skip(p + 1),
        ))
}

/// An exponent part: `e` or `E`, an optional sign, one or more digits.
pub open spec fn exp_ok(e: Seq<char>) -> bool {
    e.len() >= 2 && (e[0] == 'e' || e[0] == 'E') && {
        let digits = if e[1] == '+' || e[1] == '-' {
            e.skip(2)
        } else {
            e.skip(1)
        };
        digits.len() > 0 && all_digits(digits)
    }
}

/// A split of the text at position `q` into a mantissa and an exponent part.
pub open spec fn split_float_ok(body: Seq<char>, q: int) -> bool {
    0 <= q < body.len() && (body[q] == 'e' || body[q] == 'E') && mantissa_ok(body.take(q))
        && exp_ok(body.skip(q))
}

/// The character is the given lowercase letter, in either case.
pub open spec fn eq_ci(c: char, l: char) -> bool {
    (c as u32) == (l as u32) || (c as u32) + 32 == (l as u32)
}

/// The text equals the given lowercase word, letter for letter, in any mix
/// of cases.
pub open spec fn word_ci(s: Seq<char>, w: Seq<char>) -> bool {
    s.len() == w.len() && forall|i: int| 0 <= i < s.len() ==> eq_ci(#[trigger] s[i], w[i])
}

/// A non-finite float word: `inf`, `infinity` or `nan`, in any mix of cases.
pub open spec fn non_finite_ok(body: Seq<char>) -> bool {
    word_ci(body, "inf"@) || word_ci(body, "infinity"@) || word_ci(body, "nan"@)
}

/// A non-finite word, or a mantissa with an optional exponent part.
pub open spec fn float_body_ok(body: Seq<char>) -> bool {
    non_finite_ok(body) || mantissa_ok(body) || exists|q: int| #[trigger] split_float_ok(body, q)
}

/// A float literal: an optional sign, then a non-finite word (`inf`,
/// `infinity` or `nan` in any mix of cases) or a mantissa with an optional
/// exponent. This is the syntax of the double-precision parse, and the
/// syntax the library accepts for the floating-point fallback of number
/// classification.
pub open spec fn float_literal_ok(s: Seq<char>) -> bool {
    float_body_ok(
        if s.len() > 0 && (s[0] == '+' || s[0] == '-') {
            s.skip(1)
        } else {
            s
        },
    )
}

/// How a number literal is classified: as a 64-bit integer when it is an
/// integer literal in range, else as a float when it has float syntax, else
/// as a failure carrying the literal.
pub open spec fn spec_classify_number(t: Seq<char>) -> Result<HostView, ErrView> {
    if int_fits(t) {
        Ok(HostView::Int(int_value(t)))
    } else if float_literal_ok(t) {
        Ok(HostView::Float(t))
    } else {
        Err(ErrView::BadNumber(t))
    }
}

/// Law: number classification — an integer literal within the 64-bit signed
/// range becomes an integer; any other float-syntax literal becomes a float;
/// everything else is rejected, carrying the literal.
pub proof fn lemma_number_classification(t: Seq<char>)
    ensures
        int_fits(t) ==> spec_classify_number(t) == Ok::<HostView, ErrView>(
            HostView::Int(int_value(t)),
        ),
        !int_fits(t) && float_literal_ok(t) ==> spec_classify_number(t) == Ok::<
            HostView,
            ErrView,
        >(HostView::Float(t)),
        !int_fits(t) && !float_literal_ok(t) ==> spec_classify_number(t) == Err::<
            HostView,
            ErrView,
        >(ErrView::BadNumber(t)),
{
}

/// The characters of a string slice, in order.
fn str_chars(s: &str) -> (r: Vec<char>)
    ensures
        r@ == s@,
{
    let n = s.unicode_len();
    let mut r: Vec<char> = Vec::new();
    let mut i: usize = 0;
    while i < n
        invariant
            i <= n,
            n == s@.len(),
            r@ == s@.take(i as int),
        decreases n - i,
    {
        let c = s.get_char(i);
        proof {
            assert(s@.take(i as int + 1).drop_last() =~= s@.take(i as int));
            assert(s@.take(i as int + 1) =~= s@.take(i as int).push(s@[i as int]));
        }
        r.push(c);
        i = i + 1;
    }
    proof {
        assert(s@.take(n as int) =~= s@);
    }
    r
}

/// Whether every character in `[from, to)` is an ASCII digit.
fn all_digits_range(v: &Vec<char>, from: usize, to: usize) -> (b: bool)
    requires
        from <= to <= v@.len(),
    ensures
        b == all_digits(v@.subrange(from as int, to as int)),
{
    let mut i: usize = from;
    while i < to
        invariant
            from <= i <= to <= v@.len(),
            forall|k: int| from <= k < i ==> is_digit(#[trigger] v@[k]),
        decreases to - i,
    {
        let c = v[i];
        if !(48 <= (c as u32) && (c as u32) <= 57) {
            proof {
                assert(v@.subrange(from as int, to as int)[i - from] == v@[i as int]);
            }
            return false;
        }
        i = i + 1;
    }
    proof {
        assert forall|k: int| 0 <= k < to - from implies is_digit(
            #[trigger] v@.subrange(from as int, to as int)[k],
        ) by {
            assert(v@.subrange(from as int, to as int)[k] == v@[from + k]);
        }
    }
    true
}

proof fn lemma_digits_nonneg(s: Seq<char>)
    requires
        all_digits(s),
    ensures
        digits_value(s) >= 0,
    decreases s.len(),
{
    if s.len() > 0 {
        assert forall|i: int| 0 <= i < s.drop_last().len() implies is_digit(
            #[trigger] s.drop_last()[i],
        ) by {
            assert(s.drop_last()[i] == s[i]);
        }
        lemma_digits_nonneg(s.drop_last());
    }
}

/// Appending digits never shrinks a digit string's value.
proof fn lemma_digits_prefix(s: Seq<char>, j: int)
    requires
        all_digits(s),
        0 <= j <= s.len(),
    ensures
        digits_value(s.take(j)) <= digits_value(s),
    decreases s.len() - j,
{
    if j < s.len() {
        assert forall|i: int| 0 <= i < s.take(j).len() implies is_digit(
            #[trigger] s.take(j)[i],
        ) by {
            assert(s.take(j)[i] == s[i]);
        }
        lemma_digits_nonneg(s.take(j));
        assert(s.take(j + 1).drop_last() =~= s.take(j));
        assert(s.take(j + 1).last() == s[j]);
        assert(digits_value(s.take(j + 1)) == digits_value(s.take(j)) * 10 + digit_val(s[j]));
        lemma_digits_prefix(s, j + 1);
    } else {
        assert(s.take(j) =~= s);
    }
}

/// Parses an optionally signed decimal integer literal into a 64-bit signed
/// integer, returning `None` where the text is not such a literal or its
/// value does not fit.
pub fn parse_int64(t: &str) -> (r: Option<i64>)
    ensures
        (r is Some) == int_fits(t@),
        r matches Some(v) ==> v as int == int_value(t@),
{
    let v = str_chars(t);
    let n = v.len();
    let negative = n > 0 && v[0] == '-';
    let start: usize = if n > 0 && (v[0] == '+' || v[0] == '-') {
        1
    } else {
        0
    };
    let ghost digits = t@.skip(start as int);
    proof {
        if start == 0 {
            assert(digits =~= t@);
        }
    }
    if n == start {
        return None;
    }
    let limit: u64 = if negative {
        9223372036854775808
    } else {
        9223372036854775807
    };
    let mut acc: u64 = 0;
    let mut j: usize = start;
    proof {
        assert(digits.take(0) =~= Seq::<char>::empty());
    }
    while j < n
        invariant
            start <= j <= n,
            n == t@.len(),
            n == v@.len(),
            v@ == t@,
            start == 0 || start == 1,
            start == 1 ==> n > 0 && (t@[0] == '+' || t@[0] == '-'),
            start == 0 ==> n == 0 || !(t@[0] == '+' || t@[0] == '-'),
            negative == (n > 0 && t@[0] == '-'),
            digits == t@.skip(start as int),
            limit == if negative {
                9223372036854775808u64
            } else {
                9223372036854775807u64
            },
            all_digits(digits.take(j - start)),
            acc == digits_value(digits.take(j - start)),
            acc <= limit,
        decreases n - j,
    {
        let c = v[j];
        if !(48 <= (c as u32) && (c as u32) <= 57) {
            proof {
                if start == 0 {
                    assert(digits =~= t@);
                }
                assert(digits[j - start] == t@[j as int]);
                assert(!is_digit(digits[j - start]));
            }
            return None;
        }
        let d: u64 = ((c as u32) - 48) as u64;
        if acc > (limit - d) / 10 {
            proof {
                if start == 0 {
                    assert(digits =~= t@);
                }
                assert(acc * 10 + d > limit) by (nonlinear_arith)
                    requires
                        acc > (limit - d) / 10,
                        d <= 9,
                        d <= limit,
                ;
                assert(digits.take(j - start + 1).drop_last() =~= digits.take(j - start));
                assert(digits.take(j - start + 1).last() == digits[j - start]);
                assert(digits[j - start] == t@[j as int]);
                assert(digits_value(digits.take(j - start + 1)) == acc * 10 + d);
                assert(digits.len() > 0);
                if all_digits(digits) {
                    lemma_digits_prefix(digits, j - start + 1);
                    assert(digits_value(digits) > limit);
                    if negative {
                        assert(int_literal_value(t@) == Some(-digits_value(digits)));
                        assert(-digits_value(digits) < i64::MIN);
                    } else {
                        assert(int_literal_value(t@) == Some(digits_value(digits)));
                        assert(digits_value(digits) > i64::MAX);
                    }
                } else {
                    assert(int_literal_value(t@) is None);
                }
            }
            return None;
        }
        proof {
            assert(acc * 10 + d <= limit) by (nonlinear_arith)
                requires
                    acc <= (limit - d) / 10,
                    d <= limit,
            ;
            assert(digits.take(j - start + 1).drop_last() =~= digits.take(j - start));
            assert(digits.take(j - start + 1).last() == digits[j - start]);
            assert(digits[j - start] == t@[j as int]);
            assert forall|k: int| 0 <= k < j - start + 1 implies is_digit(
                #[trigger] digits.take(j - start + 1)[k],
            ) by {
                if k < j - start {
                    assert(digits.take(j - start + 1)[k] == digits.take(j - start)[k]);
                }
            }
        }
        acc = acc * 10 + d;
        j = j + 1;
    }
    proof {
        if start == 0 {
            assert(digits =~= t@);
        }
        assert(digits.take((n - start) as int) =~= digits);
    }
    if negative {
        if acc == 9223372036854775808 {
            Some(i64::MIN)
        } else {
            Some(-(acc as i64))
        }
    } else {
        Some(acc as i64)
    }
}

/// Characters of a valid mantissa are digits or the decimal point.
proof fn lemma_mantissa_chars(m: Seq<char>, i: int)
    requires
        mantissa_ok(m),
        0 <= i < m.len(),
    ensures
        is_digit(m[i]) || m[i] == '.',
{
    if m.len() > 0 && all_digits(m) {
    } else {
        let p = choose|p: int|
            0 <= p < m.len() && #[trigger] m[p] == '.' && all_digits(m.take(p)) && all_digits(
                m.skip(p + 1),
            );
        if i < p {
            assert(m.take(p)[i] == m[i]);
            assert(is_digit(m.take(p)[i]));
        } else if i > p {
            assert(m.skip(p + 1)[i - p - 1] == m[i]);
            assert(is_digit(m.skip(p + 1)[i - p - 1]));
        }
    }
}

/// Whether `[from, to)` is a valid mantissa.
fn check_mantissa(v: &Vec<char>, from: usize, to: usize) -> (b: bool)
    requires
        from <= to <= v@.len(),
    ensures
        b == mantissa_ok(v@.subrange(from as int, to as int)),
{
    let ghost m = v@.subrange(from as int, to as int);
    let mut dot: usize = to;
    let mut i: usize = from;
    while i < to
        invariant
            from <= i <= to <= v@.len(),
            dot == to || (from <= dot < i && v@[dot as int] == '.'),
            dot == to ==> forall|k: int| from <= k < i ==> v@[k] != '.',
            dot < to ==> forall|k: int| from <= k < dot ==> v@[k] != '.',
        decreases to - i,
    {
        if v[i] == '.' && dot == to {
            dot = i;
        }
        i = i + 1;
    }
    if dot == to {
        if to == from {
            return false;
        }
        let b = all_digits_range(v, from, to);
        proof {
            if !b {
                assert forall|p2: int| 0 <= p2 < m.len() implies m[p2] != '.' by {
                    assert(m[p2] == v@[from + p2]);
                }
            }
        }
        b
    } else {
        if to - from <= 1 {
            proof {
                assert(m[dot - from] == '.');
                assert(!is_digit(m[dot - from]));
            }
            return false;
        }
        let b1 = all_digits_range(v, from, dot);
        let b2 = all_digits_range(v, dot + 1, to);
        proof {
            assert(m.take(dot - from) =~= v@.subrange(from as int, dot as int));
            assert(m.skip(dot - from + 1) =~= v@.subrange(dot as int + 1, to as int));
            assert(m[dot - from] == '.');
            assert(!is_digit(m[dot - from]));
            if b1 && b2 {
                assert(mantissa_ok(m));
            } else {
                assert forall|p2: int|
                    0 <= p2 < m.len() && #[trigger] m[p2] == '.' implies !(all_digits(
                    m.take(p2),
                ) && all_digits(m.skip(p2 + 1))) by {
                    assert(m[p2] == v@[from + p2]);
                    if p2 < dot - from {
                        assert(v@[from + p2] != '.');
                    } else if p2 > dot - from {
                        if all_digits(m.take(p2)) {
                            assert(is_digit(m.take(p2)[dot - from]));
                            assert(m.take(p2)[dot - from] == m[dot - from]);
                        }
                    }
                }
            }
        }
        b1 && b2
    }
}

/// Whether `[from, to)` is a valid exponent part.
fn check_exp(v: &Vec<char>, from: usize, to: usize) -> (b: bool)
    requires
        from <= to <= v@.len(),
    ensures
        b == exp_ok(v@.subrange(from as int, to as int)),
{
    let ghost e = v@.subrange(from as int, to as int);
    if to - from < 2 {
        return false;
    }
    let c0 = v[from];
    if !(c0 == 'e' || c0 == 'E') {
        proof {
            assert(e[0] == v@[from as int]);
        }
        return false;
    }
    let c1 = v[from + 1];
    let dstart: usize = if c1 == '+' || c1 == '-' {
        from + 2
    } else {
        from + 1
    };
    proof {
        assert(e[1] == v@[from + 1]);
    }
    if dstart == to {
        proof {
            if c1 == '+' || c1 == '-' {
                assert(e.skip(2) =~= v@.subrange(dstart as int, to as int));
            } else {
                assert(e.skip(1) =~= v@.subrange(dstart as int, to as int));
            }
        }
        return false;
    }
    let b = all_digits_range(v, dstart, to);
    proof {
        if c1 == '+' || c1 == '-' {
            assert(e.skip(2) =~= v@.subrange(dstart as int, to as int));
        } else {
            assert(e.skip(1) =~= v@.subrange(dstart as int, to as int));
        }
    }
    b
}
/// Whether the characters in `[from, to)` spell the given lowercase word,
/// in any mix of cases.
fn check_word_ci(v: &Vec<char>, from: usize, to: usize, w: &str) -> (b: bool)
    requires
        from <= to <= v@.len(),
    ensures
        b == word_ci(v@.subrange(from as int, to as int), w@),
{
    let m = w.unicode_len();
    if to - from != m {
        return false;
    }
    let mut i: usize = 0;
    while i < m
        invariant
            i <= m,
            m == w@.len(),
            from <= to <= v@.len(),
            to - from == m,
            forall|k: int| 0 <= k < i ==> eq_ci(#[trigger] v@[from + k], w@[k]),
        decreases m - i,
    {
        let c = v[from + i];
        let l = w.get_char(i);
        let lv = l as u32;
        if !((c as u32) == lv || (lv >= 32 && (c as u32) == lv - 32)) {
            proof {
                assert(v@.subrange(from as int, to as int)[i as int] == v@[from + i]);
                assert(!eq_ci(v@.subrange(from as int, to as int)[i as int], w@[i as int]));
            }
            return false;
        }
        i = i + 1;
    }
    proof {
        assert forall|k: int| 0 <= k < m implies eq_ci(
            #[trigger] v@.subrange(from as int, to as int)[k],
            w@[k],
        ) by {
            assert(v@.subrange(from as int, to as int)[k] == v@[from + k]);
        }
    }
    true
}

/// Whether `[from, to)` is a mantissa with an optional exponent part.
fn check_number_body(v: &Vec<char>, from: usize, to: usize) -> (b: bool)
    requires
        from <= to <= v@.len(),
    ensures
        b == (mantissa_ok(v@.subrange(from as int, to as int)) || exists|q: int|
            #[trigger] split_float_ok(v@.subrange(from as int, to as int), q)),
{
    let ghost body = v@.subrange(from as int, to as int);
    let mut epos: usize = to;
    let mut i: usize = from;
    while i < to
        invariant
            from <= i <= to <= v@.len(),
            body == v@.subrange(from as int, to as int),
            epos == to || (from <= epos < i && (v@[epos as int] == 'e' || v@[epos as int] == 'E')),
            epos == to ==> forall|k: int| from <= k < i ==> v@[k] != 'e' && v@[k] != 'E',
            epos < to ==> forall|k: int| from <= k < epos ==> v@[k] != 'e' && v@[k] != 'E',
        decreases to - i,
    {
        if (v[i] == 'e' || v[i] == 'E') && epos == to {
            epos = i;
        }
        i = i + 1;
    }
    if epos == to {
        let b = check_mantissa(v, from, to);
        proof {
            if !b {
                assert forall|q2: int| !(#[trigger] split_float_ok(body, q2)) by {
                    if 0 <= q2 < body.len() {
                        assert(body[q2] == v@[from + q2]);
                        assert(!(body[q2] == 'e' || body[q2] == 'E'));
                    }
                }
            }
        }
        b
    } else {
        let b1 = check_mantissa(v, from, epos);
        let ghost q0 = epos - from;
        proof {
            assert(body.take(q0) =~= v@.subrange(from as int, epos as int));
            assert(body.skip(q0) =~= v@.subrange(epos as int, to as int));
            assert(body[q0] == v@[epos as int]);
        }
        if !b1 {
            proof {
                if mantissa_ok(body) {
                    lemma_mantissa_chars(body, q0);
                }
                assert forall|q2: int| !(#[trigger] split_float_ok(body, q2)) by {
                    if 0 <= q2 < body.len() {
                        assert(body[q2] == v@[from + q2]);
                        if q2 < q0 {
                            assert(v@[from + q2] != 'e' && v@[from + q2] != 'E');
                        } else if q2 > q0 {
                            if mantissa_ok(body.take(q2)) {
                                lemma_mantissa_chars(body.take(q2), q0);
                                assert(body.take(q2)[q0] == body[q0]);
                            }
                        }
                    }
                }
            }
            false
        } else {
            let b2 = check_exp(v, epos, to);
            proof {
                if b2 {
                    assert(split_float_ok(body, q0));
                } else {
                    if mantissa_ok(body) {
                        lemma_mantissa_chars(body, q0);
                    }
                    assert forall|q2: int| !(#[trigger] split_float_ok(body, q2)) by {
                        if 0 <= q2 < body.len() {
                            assert(body[q2] == v@[from + q2]);
                            if q2 < q0 {
                                assert(v@[from + q2] != 'e' && v@[from + q2] != 'E');
                            } else if q2 > q0 {
                                if mantissa_ok(body.take(q2)) {
                                    lemma_mantissa_chars(body.take(q2), q0);
                                    assert(body.take(q2)[q0] == body[q0]);
                                }
                            }
                        }
                    }
                }
            }
            b2
        }
    }
}

/// Whether the text has the library's float-literal syntax: an optional
/// sign, then a non-finite word (`inf`, `infinity` or `nan` in any mix of
/// cases) or a mantissa with an optional exponent.
pub fn is_float_text(t: &str) -> (b: bool)
    ensures
        b == float_literal_ok(t@),
{
    let v = str_chars(t);
    let n = v.len();
    let start: usize = if n > 0 && (v[0] == '+' || v[0] == '-') {
        1
    } else {
        0
    };
    let ghost body = t@.skip(start as int);
    proof {
        if start == 0 {
            assert(body =~= t@);
        }
        assert(body =~= v@.subrange(start as int, n as int));
    }
    if check_word_ci(&v, start, n, "inf") {
        return true;
    }
    if check_word_ci(&v, start, n, "infinity") {
        return true;
    }
    if check_word_ci(&v, start, n, "nan") {
        return true;
    }
    check_number_body(&v, start, n)
}

/// Classifies a number literal: a fitting integer literal becomes an
/// integer, other float-syntax text becomes a float, anything else fails
/// carrying the literal.
pub fn classify_number(t: &String) -> (r: Result<HostValue, ConvError>)
    ensures
        match r {
            Ok(h) => spec_classify_number(t@) == Ok::<HostView, ErrView>(h@),
            Err(e) => spec_classify_number(t@) == Err::<HostView, ErrView>(e@),
        },
{
    match parse_int64(t.as_str()) {
        Some(v) => Ok(HostValue::Int(v)),
        None => {
            if is_float_text(t.as_str()) {
                Ok(HostValue::Float(t.clone()))
            } else {
                Err(ConvError::BadNumber(t.clone()))
            }
        },
    }
}

/// The conversion rules for parsed structured-data values, applied
/// recursively, depth-first: a number is classified at conversion time, an
/// array or object fails with its first failing entry's error.
pub open spec fn conv_json(v: JsonView) -> Result<HostView, ErrView>
    decreases v,
{
    match v {
        JsonView::Null => Ok(HostView::Null),
        JsonView::Bool(b) => Ok(HostView::Bool(b)),
        JsonView::Num(t) => spec_classify_number(t),
        JsonView::Str(s) => Ok(HostView::Str(s)),
        JsonView::Arr(es) => match conv_json_list(es) {
            Ok(hs) => Ok(HostView::List(hs)),
            Err(e) => Err(e),
        },
        JsonView::Obj(entries) => match conv_json_obj(entries) {
            Ok(ds) => Ok(HostView::Dict(ds)),
            Err(e) => Err(e),
        },
    }
}

/// Conversion of an array's elements, in order, stopping at the first failure.
pub open spec fn conv_json_list(elems: Seq<JsonView>) -> Result<Seq<HostView>, ErrView>
    decreases elems,
{
    if elems.len() == 0 {
        Ok(Seq::empty())
    } else {
        match conv_json_list(elems.drop_last()) {
            Err(e) => Err(e),
            Ok(front) => match conv_json(elems.last()) {
                Ok(h) => Ok(front.push(h)),
                Err(e) => Err(e),
            },
        }
    }
}

/// Conversion of an object's entries, in order, stopping at the first
/// failure; keys are already strings and pass through unchanged.
pub open spec fn conv_json_obj(entries: Seq<(Seq<char>, JsonView)>) -> Result<
    Seq<(Seq<char>, HostView)>,
    ErrView,
>
    decreases entries,
{
    if entries.len() == 0 {
        Ok(Seq::empty())
    } else {
        match conv_json_obj(entries.drop_last()) {
            Err(e) => Err(e),
            Ok(front) => match conv_json(entries.last().1) {
                Ok(h) => Ok(front.push((entries.last().0, h))),
                Err(e) => Err(e),
            },
        }
    }
}

/// The views of a sequence of parsed values, element by element.
pub open spec fn jview_seq(vs: Seq<JsonNode>) -> Seq<JsonView> {
    Seq::new(vs.len(), |i: int| vs[i]@)
}

/// The views of object entries, element by element.
pub open spec fn jobj_view(es: Seq<(String, JsonNode)>) -> Seq<(Seq<char>, JsonView)> {
    Seq::new(es.len(), |i: int| (es[i].0@, es[i].1@))
}

proof fn lemma_conv_json_list_err(es: Seq<JsonView>, j: int, e: ErrView)
    requires
        0 <= j < es.len(),
        conv_json_list(es.take(j)) is Ok,
        conv_json(es[j]) == Err::<HostView, ErrView>(e),
    ensures
        conv_json_list(es) == Err::<Seq<HostView>, ErrView>(e),
    decreases es.len(),
{
    if j == es.len() - 1 {
        assert(es.drop_last() =~= es.take(j));
        assert(es.last() == es[j]);
    } else {
        assert(es.drop_last().take(j) =~= es.take(j));
        assert(es.drop_last()[j] == es[j]);
        lemma_conv_json_list_err(es.drop_last(), j, e);
    }
}

proof fn lemma_conv_json_obj_err(es: Seq<(Seq<char>, JsonView)>, j: int, e: ErrView)
    requires
        0 <= j < es.len(),
        conv_json_obj(es.take(j)) is Ok,
        conv_json(es[j].1) == Err::<HostView, ErrView>(e),
    ensures
        conv_json_obj(es) == Err::<Seq<(Seq<char>, HostView)>, ErrView>(e),
    decreases es.len(),
{
    if j == es.len() - 1 {
        assert(es.drop_last() =~= es.take(j));
        assert(es.last() == es[j]);
    } else {
        assert(es.drop_last().take(j) =~= es.take(j));
        assert(es.drop_last()[j] == es[j]);
        lemma_conv_json_obj_err(es.drop_last(), j, e);
    }
}

/// Converts every array element, in order, returning the first failure.
fn json_list_to_host(l: &Vec<JsonNode>) -> (r: Result<Vec<crate::value::HostValue>, ConvError>)
    ensures
        match r {
            Ok(out) => conv_json_list(jview_seq(l@)) == Ok::<Seq<HostView>, ErrView>(
                crate::bridge::hview_seq(out@),
            ),
            Err(e) => conv_json_list(jview_seq(l@)) == Err::<Seq<HostView>, ErrView>(e@),
        },
    decreases l,
{
    let ghost es = jview_seq(l@);
    let mut out: Vec<HostValue> = Vec::new();
    let mut j: usize = 0;
    proof {
        assert(es.take(0) =~= Seq::<JsonView>::empty());
        assert(crate::bridge::hview_seq(out@) =~= Seq::<HostView>::empty());
    }
    while j < l.len()
        invariant
            j <= l@.len(),
            es == jview_seq(l@),
            conv_json_list(es.take(j as int)) == Ok::<Seq<HostView>, ErrView>(
                crate::bridge::hview_seq(out@),
            ),
        decreases l@.len() - j,
    {
        match json_to_host(&l[j]) {
            Ok(h) => {
                proof {
                    assert(es.take(j as int + 1).drop_last() =~= es.take(j as int));
                    assert(es.take(j as int + 1).last() == es[j as int]);
                    assert(crate::bridge::hview_seq(out@.push(h)) =~= crate::bridge::hview_seq(
                        out@,
                    ).push(h@));
                }
                out.push(h);
                j = j + 1;
            },
            Err(e) => {
                proof {
                    lemma_conv_json_list_err(es, j as int, e@);
                }
                return Err(e);
            },
        }
    }
    proof {
        assert(es.take(l@.len() as int) =~= es);
    }
    Ok(out)
}

/// Converts every object entry, in order, returning the first failure.
fn json_obj_to_host(entries: &Vec<(String, JsonNode)>) -> (r: Result<
    Vec<(String, HostValue)>,
    ConvError,
>)
    ensures
        match r {
            Ok(d) => conv_json_obj(jobj_view(entries@)) == Ok::<
                Seq<(Seq<char>, HostView)>,
                ErrView,
            >(crate::bridge::dict_view(d@)),
            Err(e) => conv_json_obj(jobj_view(entries@)) == Err::<
                Seq<(Seq<char>, HostView)>,
                ErrView,
            >(e@),
        },
    decreases entries,
{
    let ghost aes = jobj_view(entries@);
    let mut out: Vec<(String, HostValue)> = Vec::new();
    let mut j: usize = 0;
    proof {
        assert(aes.take(0) =~= Seq::<(Seq<char>, JsonView)>::empty());
        assert(crate::bridge::dict_view(out@) =~= Seq::<(Seq<char>, HostView)>::empty());
    }
    while j < entries.len()
        invariant
            j <= entries@.len(),
            aes == jobj_view(entries@),
            conv_json_obj(aes.take(j as int)) == Ok::<Seq<(Seq<char>, HostView)>, ErrView>(
                crate::bridge::dict_view(out@),
            ),
        decreases entries@.len() - j,
    {
        match json_to_host(&entries[j].1) {
            Ok(h) => {
                let key = entries[j].0.clone();
                proof {
                    assert(aes.take(j as int + 1).drop_last() =~= aes.take(j as int));
                    assert(aes.take(j as int + 1).last() == aes[j as int]);
                    assert(crate::bridge::dict_view(out@.push((key, h)))
                        =~= crate::bridge::dict_view(out@).push((key@, h@)));
                }
                out.push((key, h));
                j = j + 1;
            },
            Err(e) => {
                proof {
                    lemma_conv_json_obj_err(aes, j as int, e@);
                }
                return Err(e);
            },
        }
    }
    proof {
        assert(aes.take(entries@.len() as int) =~= aes);
    }
    Ok(out)
}

/// Converts a parsed structured-data value into a host value, per the
/// conversion rules.
pub fn json_to_host(v: &JsonNode) -> (r: Result<HostValue, ConvError>)
    ensures
        match r {
            Ok(h) => conv_json(v@) == Ok::<HostView, ErrView>(h@),
            Err(e) => conv_json(v@) == Err::<HostView, ErrView>(e@),
        },
    decreases v,
{
    match v {
        JsonNode::Null => Ok(HostValue::Null),
        JsonNode::Bool(b) => Ok(HostValue::Bool(*b)),
        JsonNode::Num(t) => classify_number(t),
        JsonNode::Str(s) => Ok(HostValue::Str(s.clone())),
        JsonNode::Arr(l) => {
            proof {
                assert(v@ matches JsonView::Arr(s) && s =~= jview_seq(l@));
            }
            match json_list_to_host(l) {
                Ok(out) => {
                    proof {
                        assert(HostValue::List(out)@ matches HostView::List(s)
                            && s =~= crate::bridge::hview_seq(out@));
                    }
                    Ok(HostValue::List(out))
                },
                Err(e) => Err(e),
            }
        },
        JsonNode::Obj(entries) => {
            proof {
                assert(v@ matches JsonView::Obj(s) && s =~= jobj_view(entries@));
            }
            match json_obj_to_host(entries) {
                Ok(d) => {
                    proof {
                        assert(HostValue::Dict(d)@ matches HostView::Dict(s)
                            && s =~= crate::bridge::dict_view(d@));
                    }
                    Ok(HostValue::Dict(d))
                },
                Err(e) => Err(e),
            }
        },
    }
}


} // verus!
