//! The keyword tokens `true`, `false` and `null`.
use vstd::prelude::*;

use crate::outcome::{Cursor, Expected, MatchOutcome, Node, NodeView, Outcome, Rejection};

verus! {

/// One of the three keyword tokens.
#[derive(Clone, Copy, Debug, PartialEq, Eq)]
pub enum Keyword {
    True,
    False,
    Null,
}

impl Keyword {
    /// The text of the keyword.
    pub open spec fn spec_text(self) -> Seq<char> {
        match self {
            Keyword::True => seq!['t', 'r', 'u', 'e'],
            Keyword::False => seq!['f', 'a', 'l', 's', 'e'],
            Keyword::Null => seq!['n', 'u', 'l', 'l'],
        }
    }

    /// The value the keyword denotes.
    pub open spec fn spec_value(self) -> NodeView {
        match self {
            Keyword::True => NodeView::Boolean(true),
            Keyword::False => NodeView::Boolean(false),
            Keyword::Null => NodeView::Null,
        }
    }

    /// The text of the keyword.
    pub fn text(&self) -> (r: &'static str)
        ensures
            r@ == self.spec_text(),
    {
        match self {
            Keyword::True => {
                proof {
                    reveal_strlit("true");
                }
                "true"
            },
            Keyword::False => {
                proof {
                    reveal_strlit("false");
                }
                "false"
            },
            Keyword::Null => {
                proof {
                    reveal_strlit("null");
                }
                "null"
            },
        }
    }

    /// The value the keyword denotes.
    pub fn value(&self) -> (r: Node)
        ensures
            r@ == self.spec_value(),
    {
        match self {
            Keyword::True => Node::Boolean(true),
            Keyword::False => Node::Boolean(false),
            Keyword::Null => Node::Null,
        }
    }
}

/// Number of leading characters from `i` on where `s` and `k` agree.
pub open spec fn common_prefix(s: Seq<char>, k: Seq<char>, i: int) -> nat
    decreases k.len() - i,
{
    if 0 <= i < s.len() && i < k.len() && s[i] == k[i] {
        1 + common_prefix(s, k, i + 1)
    } else {
        0
    }
}

/// The outcome of matching keyword `kw` on `s`. A mismatch is rejected at
/// once, where it stands; input that ends inside the keyword is rejected in
/// complete mode and needs the missing characters in streaming mode.
pub open spec fn keyword_spec(s: Seq<char>, complete: bool, kw: Keyword) -> Outcome {
    let k = kw.spec_text();
    let m = common_prefix(s, k, 0);
    if m == k.len() {
        Outcome::Matched(kw.spec_value(), s.skip(k.len() as int), complete)
    } else if complete || m < s.len() {
        Outcome::Rejected(m, Expected::Keyword)
    } else {
        Outcome::NeedMore((k.len() - m) as nat)
    }
}

/// `common_prefix` counts agreeing characters and stops at the first
/// disagreement or at the end of either sequence.
pub proof fn lemma_common_prefix(s: Seq<char>, k: Seq<char>, i: int)
    requires
        0 <= i <= s.len(),
        i <= k.len(),
    ensures
        i + common_prefix(s, k, i) <= s.len(),
        i + common_prefix(s, k, i) <= k.len(),
        forall|j: int| i <= j < i + common_prefix(s, k, i) ==> s[j] == k[j],
        i + common_prefix(s, k, i) == s.len() || i + common_prefix(s, k, i) == k.len() || s[i
            + common_prefix(s, k, i)] != k[i + common_prefix(s, k, i)],
    decreases k.len() - i,
{
    if i < s.len() && i < k.len() && s[i] == k[i] {
        lemma_common_prefix(s, k, i + 1);
    }
}

/// Matches the keyword `kw` at the cursor.
pub fn keyword<'a>(c: Cursor<'a>, kw: Keyword) -> (r: MatchOutcome<'a>)
    ensures
        r@ == keyword_spec(c.input@, c.complete, kw),
{
    let s = c.input;
    let k = kw.text();
    let len = s.unicode_len();
    let n = k.unicode_len();
    let mut i: usize = 0;
    while i < len && i < n && s.get_char(i) == k.get_char(i)
        invariant
            i <= len,
            i <= n,
            len == s@.len(),
            n == k@.len(),
            common_prefix(s@, k@, 0) == i + common_prefix(s@, k@, i as int),
        decreases n - i,
    {
        i = i + 1;
    }
    if i == n {
        MatchOutcome::Matched(kw.value(), Cursor { input: s.substring_char(n, len), complete: c.complete })
    } else if c.complete || i < len {
        MatchOutcome::Rejected(Rejection { offset: i, expected: Expected::Keyword })
    } else {
        MatchOutcome::NeedMore(n - i)
    }
}

/// Matches `true` or `false` on complete input. Where neither matches, the
/// rejection stands at the furthest character either reached.
pub fn boolean(input: &str) -> (r: Result<(&str, bool), Rejection>)
    ensures
        ({
            let t = keyword_spec(input@, true, Keyword::True);
            let f = keyword_spec(input@, true, Keyword::False);
            match r {
                Ok((rest, b)) => if b {
                    t == Outcome::Matched(NodeView::Boolean(true), rest@, true)
                } else {
                    t.is_rejected() && f == Outcome::Matched(NodeView::Boolean(false), rest@, true)
                },
                Err(j) => t.is_rejected() && f.is_rejected() && j == Rejection {
                    offset: if t.offset() >= f.offset() {
                        t.offset()
                    } else {
                        f.offset()
                    } as usize,
                    expected: Expected::Keyword,
                },
            }
        }),
{
    let t = keyword(Cursor::complete(input), Keyword::True);
    if let MatchOutcome::Matched(_, rest) = t {
        return Ok((rest.input, true));
    }
    let f = keyword(Cursor::complete(input), Keyword::False);
    if let MatchOutcome::Matched(_, rest) = f {
        return Ok((rest.input, false));
    }
    let a = t.rejected_offset();
    let b = f.rejected_offset();
    Err(Rejection { offset: if a >= b { a } else { b }, expected: Expected::Keyword })
}

/// Matches `null` on complete input.
pub fn null(input: &str) -> (r: Result<(&str, ()), Rejection>)
    ensures
        match keyword_spec(input@, true, Keyword::Null) {
            Outcome::Matched(_, rest, _) => r is Ok && r->Ok_0.0@ == rest,
            Outcome::Rejected(o, e) => r == Err::<(&str, ()), Rejection>(
                Rejection { offset: o as usize, expected: e },
            ),
            Outcome::NeedMore(_) => false,
        },
{
    match keyword(Cursor::complete(input), Keyword::Null) {
        MatchOutcome::Matched(_, rest) => Ok((rest.input, ())),
        MatchOutcome::Rejected(j) => Err(j),
        // not reached: complete input never ends short of a keyword
        MatchOutcome::NeedMore(_) => Err(Rejection { offset: 0, expected: Expected::Keyword }),
    }
}

} // verus!
