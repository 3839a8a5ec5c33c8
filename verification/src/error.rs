//! Diagnostics of the parser.

use crate::span::Span;
use crate::text::{decimal, push_decimal};
use crate::token::TokenKind;
use vstd::prelude::*;
use vstd::string::StringExecFns;

verus! {

/// A syntax error: the kinds the grammar was ready to accept, the kind it
/// found instead (`None` at the end of the input) and where.
#[derive(Debug, Clone, PartialEq)]
pub struct ParseError {
    pub expected: Vec<TokenKind>,
    pub found: Option<TokenKind>,
    pub range: Span,
}

/// The list of the first `upto` expected kinds in words: the kinds are set
/// apart by `, `, and the last kind of the whole list by ` or `.
pub open spec fn expected_text(kinds: Seq<TokenKind>, upto: int) -> Seq<char>
    decreases upto,
{
    if upto <= 0 {
        Seq::empty()
    } else {
        let before = expected_text(kinds, upto - 1);
        let name = kinds[upto - 1].spec_name();
        if upto == 1 {
            before + name
        } else if upto == kinds.len() {
            before + " or "@ + name
        } else {
            before + ", "@ + name
        }
    }
}

/// What follows the list: the kind that was found, if one was.
pub open spec fn found_text(found: Option<TokenKind>) -> Seq<char> {
    match found {
        Some(kind) => ", but found "@ + kind.spec_name(),
        None => Seq::empty(),
    }
}

impl ParseError {
    /// The wording of the diagnostic:
    /// `error at 2..3: expected number, identifier or '(', but found ')'`.
    pub open spec fn spec_text(&self) -> Seq<char> {
        "error at "@ + decimal(self.range.start as nat) + ".."@ + decimal(self.range.end as nat)
            + ": expected "@ + expected_text(self.expected@, self.expected@.len() as int)
            + found_text(self.found)
    }

    /// The wording of the diagnostic.
    pub fn to_text(&self) -> (text: String)
        ensures
            text@ == self.spec_text(),
    {
        let mut text = String::new();
        text.append("error at ");
        push_decimal(&mut text, self.range.start);
        text.append("..");
        push_decimal(&mut text, self.range.end);
        text.append(": expected ");
        let ghost head = text@;
        let num_expected = self.expected.len();
        let mut idx: usize = 0;
        proof {
            assert(head + expected_text(self.expected@, 0) =~= head);
        }
        while idx < num_expected
            invariant
                idx <= num_expected,
                num_expected == self.expected@.len(),
                text@ == head + expected_text(self.expected@, idx as int),
            decreases num_expected - idx,
        {
            let name = self.expected[idx].name();
            let ghost before = text@;
            if idx == 0 {
                text.append(name.as_str());
                proof {
                    assert(text@ =~= head + expected_text(self.expected@, idx + 1));
                }
            } else if idx == num_expected - 1 {
                text.append(" or ");
                text.append(name.as_str());
                proof {
                    assert(text@ =~= head + expected_text(self.expected@, idx + 1));
                }
            } else {
                text.append(", ");
                text.append(name.as_str());
                proof {
                    assert(text@ =~= head + expected_text(self.expected@, idx + 1));
                }
            }
            idx += 1;
        }
        match self.found {
            Some(found) => {
                text.append(", but found ");
                text.append(found.name().as_str());
            },
            None => {
                proof {
                    assert(text@ + Seq::<char>::empty() =~= text@);
                }
            },
        }
        proof {
            assert(text@ =~= self.spec_text());
        }
        text
    }
}

} // verus!
