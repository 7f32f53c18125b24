//! The number production: optional `-`, an int, an optional fraction and an
//! optional exponent; classified as an integer or a real.
use vstd::prelude::*;

use crate::digits::{
    decimal_value, digit_run, digit_run_at, digit_value, is_digit, lemma_digit_run,
    unsigned_int, unsigned_int_len,
};
use crate::outcome::{Cursor, Expected, MatchOutcome, Node, NodeView, Outcome, Rejection};

verus! {

/// Length of the optional leading `-`.
pub open spec fn sign_len(s: Seq<char>) -> int {
    if s.len() > 0 && s[0] == '-' {
        1
    } else {
        0
    }
}

/// End of the integer part (sign and int), from the start of `s`.
pub open spec fn int_end(s: Seq<char>) -> int {
    sign_len(s) + unsigned_int_len(s, sign_len(s))
}

/// Length of a fraction at `i`: `.` and one or more digits; a `.` with no
/// digit after it is not taken.
pub open spec fn fraction_len(s: Seq<char>, i: int) -> nat {
    if 0 <= i < s.len() && s[i] == '.' && digit_run(s, i + 1) > 0 {
        1 + digit_run(s, i + 1)
    } else {
        0
    }
}

/// `e` or `E`, which begins an exponent.
pub open spec fn is_exponent_marker(c: char) -> bool {
    c == 'e' || c == 'E'
}

/// `+` or `-`, the sign of an exponent.
pub open spec fn is_sign(c: char) -> bool {
    c == '+' || c == '-'
}

/// Length of the optional sign of an exponent at `i`.
pub open spec fn exponent_sign_len(s: Seq<char>, i: int) -> int {
    if 0 <= i < s.len() && is_sign(s[i]) {
        1
    } else {
        0
    }
}

/// Length of an exponent at `i`: `e` or `E`, an optional sign, and one or
/// more digits; a marker with no digit after it is not taken.
pub open spec fn exponent_len(s: Seq<char>, i: int) -> nat {
    let d = i + 1 + exponent_sign_len(s, i + 1);
    if 0 <= i < s.len() && is_exponent_marker(s[i]) && digit_run(s, d) > 0 {
        (d - i + digit_run(s, d)) as nat
    } else {
        0
    }
}

/// End of the fraction, or of the integer part where there is none.
pub open spec fn frac_end(s: Seq<char>) -> int {
    int_end(s) + fraction_len(s, int_end(s))
}

/// End of the whole number token.
pub open spec fn number_end(s: Seq<char>) -> int {
    frac_end(s) + exponent_len(s, frac_end(s))
}

/// `r` is the start of an exponent that more input could complete.
pub open spec fn is_exponent_start(r: Seq<char>) -> bool {
    (r.len() == 1 && is_exponent_marker(r[0])) || (r.len() == 2 && is_exponent_marker(r[0])
        && is_sign(r[1]))
}

/// More input could extend the number token that `s` begins: the token runs
/// to the end of `s`, or all that follows it is a `.` that a digit could turn
/// into a fraction, or an exponent marker (and sign) that digits could
/// complete.
pub open spec fn may_extend(s: Seq<char>) -> bool {
    let e = number_end(s);
    let rest = s.skip(e);
    rest.len() == 0 || (e == int_end(s) && rest == seq!['.']) || (e == frac_end(s)
        && is_exponent_start(rest))
}

/// The integer that a token of sign and digits denotes.
pub open spec fn signed_decimal(tok: Seq<char>) -> int {
    if tok.len() > 0 && tok[0] == '-' {
        -decimal_value(tok.skip(1))
    } else {
        decimal_value(tok) as int
    }
}

pub open spec fn fits_i64(v: int) -> bool {
    i64::MIN <= v <= i64::MAX
}

/// The value of a number token: an integer where it has no fraction and no
/// exponent and fits in `i64`, else its text as a real.
pub open spec fn number_node(tok: Seq<char>, has_tail: bool) -> NodeView {
    if !has_tail && fits_i64(signed_decimal(tok)) {
        NodeView::Integer(signed_decimal(tok))
    } else {
        NodeView::Real(tok)
    }
}

/// The outcome of the number production on `s`.
pub open spec fn number_spec(s: Seq<char>, complete: bool) -> Outcome {
    if unsigned_int_len(s, sign_len(s)) == 0 {
        if !complete && s.len() == sign_len(s) {
            Outcome::NeedMore(1)
        } else {
            Outcome::Rejected(sign_len(s) as nat, Expected::Digit)
        }
    } else if !complete && may_extend(s) {
        Outcome::NeedMore(1)
    } else {
        Outcome::Matched(
            number_node(s.take(number_end(s)), number_end(s) > int_end(s)),
            s.skip(number_end(s)),
            complete,
        )
    }
}

/// Length of a fraction at `s[i..]`.
pub fn fraction(s: &str, len: usize, i: usize) -> (r: usize)
    requires
        len == s@.len(),
        i <= len,
    ensures
        r == fraction_len(s@, i as int),
        i + r <= len,
{
    if i < len && s.get_char(i) == '.' {
        let d = digit_run_at(s, len, i + 1);
        if d > 0 {
            1 + d
        } else {
            0
        }
    } else {
        0
    }
}

/// Length of an exponent at `s[i..]`.
pub fn exponent(s: &str, len: usize, i: usize) -> (r: usize)
    requires
        len == s@.len(),
        i <= len,
    ensures
        r == exponent_len(s@, i as int),
        i + r <= len,
{
    if i < len {
        let c = s.get_char(i);
        if c == 'e' || c == 'E' {
            let mut d: usize = i + 1;
            if d < len {
                let sg = s.get_char(d);
                if sg == '+' || sg == '-' {
                    d = d + 1;
                }
            }
            let n = digit_run_at(s, len, d);
            if n > 0 {
                return d - i + n;
            }
        }
    }
    0
}

/// The value of the digits `s[a..b]`, made negative where `neg` holds, if
/// it fits in `i64`.
pub fn int_value(s: &str, len: usize, a: usize, b: usize, neg: bool) -> (r: Option<i64>)
    requires
        len == s@.len(),
        a <= b <= len,
        forall|k: int| a <= k < b ==> is_digit(#[trigger] s@[k]),
    ensures
        ({
            let m = decimal_value(s@.subrange(a as int, b as int)) as int;
            let v = if neg {
                -m
            } else {
                m
            };
            match r {
                Some(x) => fits_i64(v) && x as int == v,
                None => !fits_i64(v),
            }
        }),
{
    let limit: u128 = 0x8000_0000_0000_0000;
    let mut m: u128 = 0;
    let mut over = false;
    let mut j: usize = a;
    while j < b
        invariant
            a <= j <= b,
            b <= len,
            limit == 0x8000_0000_0000_0000,
            len == s@.len(),
            forall|k: int| a <= k < b ==> is_digit(#[trigger] s@[k]),
            !over ==> m == decimal_value(s@.subrange(a as int, j as int)) && m <= limit,
            over ==> decimal_value(s@.subrange(a as int, j as int)) > limit,
        decreases b - j,
    {
        let c = s.get_char(j);
        proof {
            assert(s@.subrange(a as int, j + 1).drop_last() =~= s@.subrange(a as int, j as int));
            assert(s@.subrange(a as int, j + 1).last() == c);
            assert(is_digit(s@[j as int]));
        }
        if !over {
            let d = (c as u32 - '0' as u32) as u128;
            assert(d == digit_value(c));
            assert(m * 10 <= limit * 10) by (nonlinear_arith)
                requires
                    m <= limit,
            ;
            let next = m * 10 + d;
            if next > limit {
                over = true;
            } else {
                m = next;
            }
        }
        j = j + 1;
    }
    if over {
        return None;
    }
    if neg {
        Some((0 - (m as i128)) as i64)
    } else if m < limit {
        Some(m as i64)
    } else {
        None
    }
}

/// Length of the optional `-` at the start of `s`.
fn sign_at(s: &str, len: usize) -> (r: usize)
    requires
        len == s@.len(),
    ensures
        r == sign_len(s@),
        r <= len,
{
    if len > 0 && s.get_char(0) == '-' {
        1
    } else {
        0
    }
}

/// Whether more input could extend the number token of `s`, given the ends
/// of its integer part, its fraction and the token.
fn may_extend_at(s: &str, len: usize, ie: usize, fe: usize, e: usize) -> (r: bool)
    requires
        len == s@.len(),
        ie == int_end(s@),
        fe == frac_end(s@),
        e == number_end(s@),
        e <= len,
    ensures
        r == may_extend(s@),
{
    let rest = len - e;
    let ghost r = s@.skip(e as int);
    assert(r.len() == rest);
    if rest == 0 {
        return true;
    }
    let c = s.get_char(e);
    assert(r[0] == c);
    if e == ie && rest == 1 && c == '.' {
        assert(r =~= seq!['.']);
        return true;
    }
    if e == ie && rest == 1 {
        assert(r[0] != seq!['.'][0]);
    }
    if e == fe && (c == 'e' || c == 'E') {
        if rest == 1 {
            return true;
        }
        if rest == 2 {
            let c2 = s.get_char(e + 1);
            assert(r[1] == c2);
            return c2 == '+' || c2 == '-';
        }
    }
    false
}

/// Matches a number at the cursor. In streaming mode a token that more
/// input could still extend gives `NeedMore(1)`; an integer part that does
/// not fit in `i64` gives the token as a real.
pub fn number<'a>(c: Cursor<'a>) -> (r: MatchOutcome<'a>)
    ensures
        r@ == number_spec(c.input@, c.complete),
{
    let s = c.input;
    let len = s.unicode_len();
    let sg = sign_at(s, len);
    let u = unsigned_int(s, len, sg);
    if u == 0 {
        if !c.complete && len == sg {
            return MatchOutcome::NeedMore(1);
        } else {
            return MatchOutcome::Rejected(Rejection { offset: sg, expected: Expected::Digit });
        }
    }
    let ie = sg + u;
    let fe = ie + fraction(s, len, ie);
    let e = fe + exponent(s, len, fe);
    if !c.complete && may_extend_at(s, len, ie, fe, e) {
        return MatchOutcome::NeedMore(1);
    }
    let node = token_node(s, len, sg, ie, e);
    MatchOutcome::Matched(node, Cursor { input: s.substring_char(e, len), complete: c.complete })
}

/// The value of the number token `s[..e]` whose integer part ends at `ie`.
fn token_node(s: &str, len: usize, sg: usize, ie: usize, e: usize) -> (r: Node)
    requires
        len == s@.len(),
        sg == sign_len(s@),
        ie == int_end(s@),
        e == number_end(s@),
        unsigned_int_len(s@, sg as int) > 0,
        e <= len,
    ensures
        r@ == number_node(s@.take(e as int), e > ie),
{
    let ghost tok = s@.take(e as int);
    if e > ie {
        return Node::Real(s.substring_char(0, e).to_owned());
    }
    proof {
        lemma_digit_run(s@, sg + 1);
        if s@[sg as int] != '0' {
            assert(is_digit(s@[sg as int]));
        }
        if sg == 1 {
            assert(tok.skip(1) =~= s@.subrange(1, ie as int));
        } else {
            assert(tok =~= s@.subrange(0, ie as int));
        }
    }
    match int_value(s, len, sg, ie, sg == 1) {
        Some(v) => Node::Integer(v),
        None => Node::Real(s.substring_char(0, e).to_owned()),
    }
}

/// Matches the integer part alone (an optional `-` and an int) on complete
/// input: a following fraction or exponent is left in the remainder.
/// Rejected where no digit begins the int, or where the value does not fit
/// in `i64`.
pub fn integer(input: &str) -> (r: Result<(&str, i64), Rejection>)
    ensures
        ({
            let s = input@;
            let ok = unsigned_int_len(s, sign_len(s)) > 0 && fits_i64(
                signed_decimal(s.take(int_end(s))),
            );
            match r {
                Ok((rest, v)) => ok && v as int == signed_decimal(s.take(int_end(s))) && rest@
                    == s.skip(int_end(s)),
                Err(j) => !ok && j == (if unsigned_int_len(s, sign_len(s)) == 0 {
                    Rejection { offset: sign_len(s) as usize, expected: Expected::Digit }
                } else {
                    Rejection { offset: 0, expected: Expected::FitsInt64 }
                }),
            }
        }),
{
    let s = input;
    let len = s.unicode_len();
    let sg = sign_at(s, len);
    let u = unsigned_int(s, len, sg);
    if u == 0 {
        return Err(Rejection { offset: sg, expected: Expected::Digit });
    }
    let ie = sg + u;
    let ghost tok = s@.take(ie as int);
    proof {
        lemma_digit_run(s@, sg + 1);
        if s@[sg as int] != '0' {
            assert(is_digit(s@[sg as int]));
        }
        if sg == 1 {
            assert(tok.skip(1) =~= s@.subrange(1, ie as int));
        } else {
            assert(tok =~= s@.subrange(0, ie as int));
        }
    }
    match int_value(s, len, sg, ie, sg == 1) {
        Some(v) => Ok((s.substring_char(ie, len), v)),
        None => Err(Rejection { offset: 0, expected: Expected::FitsInt64 }),
    }
}

/// Matches a number that has a fraction or an exponent on complete input,
/// giving its text. Rejected where no digit begins the int, or where neither
/// a fraction nor an exponent follows the integer part.
pub fn real_number(input: &str) -> (r: Result<(&str, String), Rejection>)
    ensures
        ({
            let s = input@;
            match r {
                Ok((rest, t)) => unsigned_int_len(s, sign_len(s)) > 0 && number_end(s) > int_end(
                    s,
                ) && t@ == s.take(number_end(s)) && rest@ == s.skip(number_end(s)),
                Err(j) => if unsigned_int_len(s, sign_len(s)) == 0 {
                    j == Rejection { offset: sign_len(s) as usize, expected: Expected::Digit }
                } else {
                    number_end(s) == int_end(s) && j == Rejection {
                        offset: int_end(s) as usize,
                        expected: Expected::FractionOrExponent,
                    }
                },
            }
        }),
{
    let s = input;
    let len = s.unicode_len();
    let sg = sign_at(s, len);
    let u = unsigned_int(s, len, sg);
    if u == 0 {
        return Err(Rejection { offset: sg, expected: Expected::Digit });
    }
    let ie = sg + u;
    let fe = ie + fraction(s, len, ie);
    let e = fe + exponent(s, len, fe);
    if e == ie {
        return Err(Rejection { offset: ie, expected: Expected::FractionOrExponent });
    }
    Ok((s.substring_char(e, len), s.substring_char(0, e).to_owned()))
}

} // verus!
