//! The scalar recognizer: the keywords, then a number, in that order.
use vstd::prelude::*;

use crate::literal::{keyword, keyword_spec, lemma_common_prefix, Keyword};
use crate::number::{number, number_spec, sign_len};
use crate::outcome::{Cursor, Expected, MatchOutcome, Node, Outcome, Rejection};

verus! {

/// The larger of two naturals.
pub open spec fn max_nat(a: nat, b: nat) -> nat {
    if a >= b {
        a
    } else {
        b
    }
}

/// The outcome of the scalar recognizer on `s`: the first of `true`,
/// `false`, `null` and the number that is not rejected; where all four are,
/// a rejection at the furthest character any of them reached.
pub open spec fn scalar_spec(s: Seq<char>, complete: bool) -> Outcome {
    let t = keyword_spec(s, complete, Keyword::True);
    let f = keyword_spec(s, complete, Keyword::False);
    let n = keyword_spec(s, complete, Keyword::Null);
    let num = number_spec(s, complete);
    if !t.is_rejected() {
        t
    } else if !f.is_rejected() {
        f
    } else if !n.is_rejected() {
        n
    } else if !num.is_rejected() {
        num
    } else {
        Outcome::Rejected(
            max_nat(max_nat(t.offset(), f.offset()), max_nat(n.offset(), num.offset())),
            Expected::Scalar,
        )
    }
}

/// A rejection by the scalar recognizer stands within the input.
pub proof fn lemma_rejection_within(s: Seq<char>, complete: bool)
    ensures
        scalar_spec(s, complete).offset() <= s.len(),
{
    lemma_common_prefix(s, Keyword::True.spec_text(), 0);
    lemma_common_prefix(s, Keyword::False.spec_text(), 0);
    lemma_common_prefix(s, Keyword::Null.spec_text(), 0);
    assert(sign_len(s) <= s.len());
}

/// Matches a scalar at the cursor.
pub fn scalar<'a>(c: Cursor<'a>) -> (r: MatchOutcome<'a>)
    ensures
        r@ == scalar_spec(c.input@, c.complete),
{
    let t = keyword(c, Keyword::True);
    if !t.is_rejected() {
        return t;
    }
    let f = keyword(c, Keyword::False);
    if !f.is_rejected() {
        return f;
    }
    let n = keyword(c, Keyword::Null);
    if !n.is_rejected() {
        return n;
    }
    let num = number(c);
    if !num.is_rejected() {
        return num;
    }
    let a = t.rejected_offset();
    let b = f.rejected_offset();
    let ab = if a >= b { a } else { b };
    let d = n.rejected_offset();
    let e = num.rejected_offset();
    let de = if d >= e { d } else { e };
    MatchOutcome::Rejected(
        Rejection { offset: if ab >= de { ab } else { de }, expected: Expected::Scalar },
    )
}

/// Space, tab, carriage return or line feed.
pub open spec fn is_whitespace(c: char) -> bool {
    c == ' ' || c == '\t' || c == '\r' || c == '\n'
}

/// Length of the run of whitespace of `s` that starts at `i`.
pub open spec fn whitespace_run(s: Seq<char>, i: int) -> nat
    decreases s.len() - i,
{
    if 0 <= i < s.len() && is_whitespace(s[i]) {
        1 + whitespace_run(s, i + 1)
    } else {
        0
    }
}

/// Whether `c` is whitespace.
pub fn is_whitespace_char(c: char) -> (r: bool)
    ensures
        r == is_whitespace(c),
{
    c == ' ' || c == '\t' || c == '\r' || c == '\n'
}

/// The whitespace run stays within `s`.
pub proof fn lemma_whitespace_run(s: Seq<char>, i: int)
    requires
        0 <= i <= s.len(),
    ensures
        i + whitespace_run(s, i) <= s.len(),
    decreases s.len() - i,
{
    if i < s.len() && is_whitespace(s[i]) {
        lemma_whitespace_run(s, i + 1);
    }
}

/// Splits off the leading whitespace of `input`: the result is what
/// follows it, then the whitespace itself.
pub fn whitespace0(input: &str) -> (r: (&str, &str))
    ensures
        r.1@ == input@.take(whitespace_run(input@, 0) as int),
        r.0@ == input@.skip(whitespace_run(input@, 0) as int),
{
    let len = input.unicode_len();
    let mut i: usize = 0;
    while i < len && is_whitespace_char(input.get_char(i))
        invariant
            i <= len,
            len == input@.len(),
            whitespace_run(input@, 0) == i + whitespace_run(input@, i as int),
        decreases len - i,
    {
        i = i + 1;
    }
    (input.substring_char(i, len), input.substring_char(0, i))
}

/// Matches one scalar on complete input, with any whitespace around it;
/// a rejection's offset counts from the start of `input`.
pub fn json(input: &str) -> (r: Result<(&str, Node), Rejection>)
    ensures
        ({
            let w = whitespace_run(input@, 0);
            match scalar_spec(input@.skip(w as int), true) {
                Outcome::Matched(v, rest, _) => r is Ok && r->Ok_0.1@ == v && r->Ok_0.0@
                    == rest.skip(whitespace_run(rest, 0) as int),
                Outcome::Rejected(o, e) => r == Err::<(&str, Node), Rejection>(
                    Rejection { offset: (w + o) as usize, expected: e },
                ),
                Outcome::NeedMore(_) => false,
            }
        }),
{
    // the input's length fits in usize, which bounds the offsets below
    let _total = input.unicode_len();
    let (body, lead) = whitespace0(input);
    let w = lead.unicode_len();
    proof {
        lemma_whitespace_run(input@, 0);
        lemma_rejection_within(body@, true);
    }
    match scalar(Cursor::complete(body)) {
        MatchOutcome::Matched(v, rest) => {
            let (after, _) = whitespace0(rest.input);
            Ok((after, v))
        },
        MatchOutcome::Rejected(j) => Err(Rejection { offset: w + j.offset, expected: j.expected }),
        // not reached: complete input never asks for more
        MatchOutcome::NeedMore(_) => Err(Rejection { offset: w, expected: Expected::Scalar }),
    }
}

} // verus!
