//! Properties of the productions that hold over all inputs.
use vstd::prelude::*;

use crate::digits::{
    decimal_value, digit_run, digit_value, is_digit, is_nonzero_digit, lemma_digit_run,
    unsigned_int_len,
};
use crate::literal::{common_prefix, keyword_spec, lemma_common_prefix, Keyword};
use crate::number::{
    exponent_len, exponent_sign_len, frac_end, fraction_len, int_end, is_exponent_marker,
    number_end, number_spec, sign_len, signed_decimal,
};
use crate::outcome::{NodeView, Outcome};
use crate::scalar::scalar_spec;

verus! {

/// The character of a digit value below ten.
pub open spec fn digit_char(d: nat) -> char {
    seq!['0', '1', '2', '3', '4', '5', '6', '7', '8', '9'][d as int]
}

/// The decimal text of `n`, with no leading zeros.
pub open spec fn decimal_text(n: nat) -> Seq<char>
    decreases n,
{
    if n < 10 {
        seq![digit_char(n)]
    } else {
        decimal_text(n / 10).push(digit_char(n % 10))
    }
}

proof fn lemma_digit_char(d: nat)
    requires
        d < 10,
    ensures
        is_digit(digit_char(d)),
        digit_value(digit_char(d)) == d,
        d > 0 ==> is_nonzero_digit(digit_char(d)),
{
}

/// The decimal text of `n` is a run of digits, led by a non-zero digit
/// unless `n` is zero, and reads back as `n`.
pub proof fn lemma_decimal_text(n: nat)
    ensures
        decimal_text(n).len() >= 1,
        forall|k: int| 0 <= k < decimal_text(n).len() ==> is_digit(#[trigger] decimal_text(n)[k]),
        n > 0 ==> is_nonzero_digit(decimal_text(n)[0]),
        n == 0 ==> decimal_text(n) == seq!['0'],
        decimal_value(decimal_text(n)) == n,
    decreases n,
{
    if n < 10 {
        lemma_digit_char(n);
        let t = decimal_text(n);
        assert(t.drop_last() =~= Seq::<char>::empty());
        assert(decimal_value(Seq::<char>::empty()) == 0);
        assert(t.last() == digit_char(n));
    } else {
        lemma_decimal_text(n / 10);
        lemma_digit_char(n % 10);
        let t = decimal_text(n);
        assert(t.drop_last() =~= decimal_text(n / 10));
        assert(t.last() == digit_char(n % 10));
        assert(n == (n / 10) * 10 + n % 10);
        assert forall|k: int| 0 <= k < t.len() implies is_digit(#[trigger] t[k]) by {
            if k < t.len() - 1 {
                assert(t[k] == decimal_text(n / 10)[k]);
            }
        }
    }
}

/// A run of digits reaching the end of `s` is counted whole.
proof fn lemma_digit_run_to_end(s: Seq<char>, i: int)
    requires
        0 <= i <= s.len(),
        forall|k: int| i <= k < s.len() ==> is_digit(#[trigger] s[k]),
    ensures
        digit_run(s, i) == s.len() - i,
    decreases s.len() - i,
{
    if i < s.len() {
        lemma_digit_run_to_end(s, i + 1);
    }
}

/// Every integer from zero to `i64::MAX`, written in decimal, is matched
/// whole in complete mode as that integer.
pub proof fn lemma_number_reads_decimal(n: nat)
    requires
        n <= i64::MAX,
    ensures
        number_spec(decimal_text(n), true) == Outcome::Matched(
            NodeView::Integer(n as int),
            Seq::<char>::empty(),
            true,
        ),
{
    let s = decimal_text(n);
    lemma_decimal_text(n);
    assert(sign_len(s) == 0);
    if n > 0 {
        lemma_digit_run_to_end(s, 1);
    }
    assert(int_end(s) == s.len());
    assert(s.take(s.len() as int) =~= s);
    assert(s.skip(s.len() as int) =~= Seq::<char>::empty());
}

/// The ends of the parts of a number token are in order and within `s`.
pub proof fn lemma_number_bounds(s: Seq<char>)
    ensures
        0 <= sign_len(s) <= int_end(s) <= frac_end(s) <= number_end(s) <= s.len(),
{
    let g = sign_len(s);
    lemma_digit_run(s, if g + 1 <= s.len() { g + 1 } else { g });
    let i = int_end(s);
    if 0 <= i < s.len() {
        lemma_digit_run(s, i + 1);
    }
    let f = frac_end(s);
    let d = f + 1 + exponent_sign_len(s, f + 1);
    if 0 <= f < s.len() && d <= s.len() {
        lemma_digit_run(s, d);
    }
}

/// A leading `0`, after an optional `-`, is the whole int: digits after it
/// are not part of the number's integer part. In complete mode the number
/// then matches, and where no fraction or exponent follows it is the
/// integer zero with all after the `0` left over.
pub proof fn lemma_zero_int_part(s: Seq<char>)
    requires
        sign_len(s) < s.len(),
        s[sign_len(s)] == '0',
    ensures
        unsigned_int_len(s, sign_len(s)) == 1,
        int_end(s) == sign_len(s) + 1,
        number_spec(s, true) is Matched,
        number_end(s) == int_end(s) ==> number_spec(s, true) == Outcome::Matched(
            NodeView::Integer(0),
            s.skip(int_end(s)),
            true,
        ),
{
    let tok = s.take(int_end(s));
    if sign_len(s) == 1 {
        assert(tok.skip(1) =~= seq!['0']);
    } else {
        assert(tok =~= seq!['0']);
    }
    assert(seq!['0'].drop_last() =~= Seq::<char>::empty());
    assert(decimal_value(Seq::<char>::empty()) == 0);
    assert(decimal_value(seq!['0']) == 0);
    assert(signed_decimal(tok) == 0);
}

/// A successful scalar match consumes at least one character and leaves
/// exactly the input after what it consumed, with the same completeness:
/// matching again on the remainder never sees matched text again.
pub proof fn lemma_remainder_is_strict_suffix(s: Seq<char>, complete: bool)
    ensures
        match scalar_spec(s, complete) {
            Outcome::Matched(_, rest, c) => rest.len() < s.len() && rest == s.skip(
                s.len() - rest.len(),
            ) && c == complete,
            _ => true,
        },
{
    lemma_number_bounds(s);
    lemma_common_prefix(s, Keyword::True.spec_text(), 0);
    lemma_common_prefix(s, Keyword::False.spec_text(), 0);
    lemma_common_prefix(s, Keyword::Null.spec_text(), 0);
}

/// The four scalar productions.
pub enum Production {
    Keyword(Keyword),
    Number,
}

/// The outcome of production `p` on `s`.
pub open spec fn production_spec(s: Seq<char>, complete: bool, p: Production) -> Outcome {
    match p {
        Production::Keyword(k) => keyword_spec(s, complete, k),
        Production::Number => number_spec(s, complete),
    }
}

/// A keyword that asks for more of a non-empty input agrees with its first
/// character.
proof fn lemma_keyword_need_more_first(s: Seq<char>, k: Keyword)
    requires
        s.len() > 0,
        keyword_spec(s, false, k).is_need_more(),
    ensures
        s[0] == k.spec_text()[0],
{
    lemma_common_prefix(s, k.spec_text(), 0);
}

/// No non-empty input is awaited by two different scalar productions at
/// once in streaming mode, so the order in which the recognizer tries them
/// never has to settle between two that both wait.
pub proof fn lemma_need_more_disjoint(s: Seq<char>, p: Production, q: Production)
    requires
        s.len() > 0,
        p != q,
    ensures
        !(production_spec(s, false, p).is_need_more() && production_spec(
            s,
            false,
            q,
        ).is_need_more()),
{
    if production_spec(s, false, p).is_need_more() && production_spec(s, false, q).is_need_more() {
        if let Production::Keyword(k) = p {
            lemma_keyword_need_more_first(s, k);
        }
        if let Production::Keyword(k) = q {
            lemma_keyword_need_more_first(s, k);
        }
        if p is Number || q is Number {
            if unsigned_int_len(s, sign_len(s)) > 0 {
                assert(is_digit(s[sign_len(s)]));
            }
            assert(s[0] == '-' || is_digit(s[0]));
        }
    }
}

/// A digit run that stops inside `s` is unchanged by appending `t`.
proof fn lemma_digit_run_append(s: Seq<char>, t: Seq<char>, i: int)
    requires
        0 <= i,
        i + digit_run(s, i) < s.len(),
    ensures
        digit_run(s + t, i) == digit_run(s, i),
    decreases s.len() - i,
{
    let u = s + t;
    assert(u[i] == s[i]);
    if is_digit(s[i]) {
        lemma_digit_run_append(s, t, i + 1);
    }
}

/// A keyword comparison that stopped inside `s`, or at the end of the
/// keyword, is unchanged by appending `t`.
proof fn lemma_common_prefix_append(s: Seq<char>, t: Seq<char>, k: Seq<char>, i: int)
    requires
        0 <= i <= k.len(),
        i + common_prefix(s, k, i) < s.len() || i + common_prefix(s, k, i) == k.len(),
    ensures
        common_prefix(s + t, k, i) == common_prefix(s, k, i),
    decreases k.len() - i,
{
    let u = s + t;
    if i < s.len() {
        assert(u[i] == s[i]);
        if i < k.len() && s[i] == k[i] {
            lemma_common_prefix_append(s, t, k, i + 1);
        }
    }
}

/// The outcome that a decided streaming outcome on `s` becomes once `t` is
/// appended and the input is marked `complete` or not.
pub open spec fn extended(o: Outcome, t: Seq<char>, complete: bool) -> Outcome {
    match o {
        Outcome::Matched(v, rest, _) => Outcome::Matched(v, rest + t, complete),
        _ => o,
    }
}

/// Once a keyword is decided on streaming input, more input does not change
/// the decision: a match keeps its value with the new text after its
/// remainder, and a rejection stays where it was.
pub proof fn lemma_keyword_decided_stays(
    s: Seq<char>,
    t: Seq<char>,
    complete: bool,
    kw: Keyword,
)
    requires
        !keyword_spec(s, false, kw).is_need_more(),
    ensures
        keyword_spec(s + t, complete, kw) == extended(keyword_spec(s, false, kw), t, complete),
{
    let k = kw.spec_text();
    lemma_common_prefix(s, k, 0);
    lemma_common_prefix_append(s, t, k, 0);
    if common_prefix(s, k, 0) == k.len() {
        assert((s + t).skip(k.len() as int) =~= s.skip(k.len() as int) + t);
    }
}

/// Once a number is decided on streaming input, more input does not change
/// the decision: a match keeps its value with the new text after its
/// remainder, and a rejection stays where it was.
pub proof fn lemma_number_decided_stays(s: Seq<char>, t: Seq<char>, complete: bool)
    requires
        !number_spec(s, false).is_need_more(),
    ensures
        number_spec(s + t, complete) == extended(number_spec(s, false), t, complete),
{
    let u = s + t;
    let l = s.len() as int;
    lemma_number_bounds(s);
    if l > 0 {
        assert(u[0] == s[0]);
    }
    let g = sign_len(s);
    assert(sign_len(u) == g);
    if unsigned_int_len(s, g) == 0 {
        assert(g < l);
        assert(u[g] == s[g]);
    } else {
        lemma_number_matched_stays(s, t, complete);
    }
}

/// The matching case of `lemma_number_decided_stays`.
proof fn lemma_number_matched_stays(s: Seq<char>, t: Seq<char>, complete: bool)
    requires
        !number_spec(s, false).is_need_more(),
        unsigned_int_len(s, sign_len(s)) > 0,
    ensures
        number_spec(s + t, complete) == extended(number_spec(s, false), t, complete),
{
    let u = s + t;
    let l = s.len() as int;
    lemma_number_bounds(s);
    assert(u[0] == s[0]);
    let g = sign_len(s);
    assert(sign_len(u) == g);
    let ie = int_end(s);
    let fe = frac_end(s);
    let e = number_end(s);
    let rest = s.skip(e);
    // the token stops inside `s`, before anything more input could extend
    assert(e < l);
    assert(u[g] == s[g]);
    if s[g] != '0' {
        lemma_digit_run_append(s, t, g + 1);
    }
    assert(int_end(u) == ie);
    assert(u[ie] == s[ie]);
    if s[ie] == '.' {
        if digit_run(s, ie + 1) > 0 {
            lemma_digit_run_append(s, t, ie + 1);
        } else if ie + 1 < l {
            assert(u[ie + 1] == s[ie + 1]);
        } else {
            assert(rest =~= seq!['.']);
        }
    }
    assert(fraction_len(u, ie) == fraction_len(s, ie));
    assert(frac_end(u) == fe);
    assert(u[fe] == s[fe]);
    if is_exponent_marker(s[fe]) {
        if fe + 1 == l {
            assert(rest.len() == 1 && rest[0] == s[fe]);
        } else {
            assert(u[fe + 1] == s[fe + 1]);
            let d = fe + 1 + exponent_sign_len(s, fe + 1);
            assert(exponent_sign_len(u, fe + 1) == exponent_sign_len(s, fe + 1));
            if digit_run(s, d) > 0 {
                lemma_digit_run_append(s, t, d);
            } else if d < l {
                assert(u[d] == s[d]);
            } else {
                assert(rest.len() == 2 && rest[0] == s[fe] && rest[1] == s[fe + 1]);
            }
        }
    }
    assert(exponent_len(u, fe) == exponent_len(s, fe));
    assert(number_end(u) == e);
    assert(u.take(e) =~= s.take(e));
    assert(u.skip(e) =~= rest + t);
    assert((rest + t)[0] == rest[0]);
    if rest.len() <= 2 {
        assert((rest + t).len() >= rest.len());
        if rest.len() == 2 {
            assert((rest + t)[1] == rest[1]);
        }
    }
    if (rest + t) == seq!['.'] {
        assert(rest =~= seq!['.']);
    }
}

/// Once the scalar recognizer has decided on streaming input, more input
/// does not change the decision: nothing already matched or rejected is
/// classified again otherwise.
pub proof fn lemma_scalar_decided_stays(s: Seq<char>, t: Seq<char>, complete: bool)
    requires
        !scalar_spec(s, false).is_need_more(),
    ensures
        scalar_spec(s + t, complete) == extended(scalar_spec(s, false), t, complete),
{
    if !keyword_spec(s, false, Keyword::True).is_need_more() {
        lemma_keyword_decided_stays(s, t, complete, Keyword::True);
    }
    if !keyword_spec(s, false, Keyword::False).is_need_more() {
        lemma_keyword_decided_stays(s, t, complete, Keyword::False);
    }
    if !keyword_spec(s, false, Keyword::Null).is_need_more() {
        lemma_keyword_decided_stays(s, t, complete, Keyword::Null);
    }
    if !number_spec(s, false).is_need_more() {
        lemma_number_decided_stays(s, t, complete);
    }
}

} // verus!
