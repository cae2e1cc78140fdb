//! Infix expressions of single digits, `+` and `-`, rewritten in postfix
//! form by recursive descent over the grammar
//!
//! ```text
//! expr -> term (('+' | '-') term)*
//! term -> digit
//! ```

use crate::text::chars_of;
use vstd::prelude::*;

verus! {

/// Why an expression could not be read.
#[derive(Debug, Clone, Copy, PartialEq, Eq)]
pub enum ParseError {
    /// This character stands where the grammar allows none like it.
    UnexpectedChar(char),
    /// The input ended where a digit had to follow.
    UnexpectedEnd,
}

/// Whether `c` is one of the digits `0` to `9`.
pub open spec fn is_digit(c: char) -> bool {
    '0' as u32 <= c as u32 <= '9' as u32
}

/// Whether `c` is `+` or `-`.
pub open spec fn is_operator(c: char) -> bool {
    c == '+' || c == '-'
}

/// Whether the character of `s` at `i` is what the grammar has there: a
/// digit at an even place, an operator at an odd one.
pub open spec fn fits(s: Seq<char>, i: int) -> bool {
    if i % 2 == 0 {
        is_digit(s[i])
    } else {
        is_operator(s[i])
    }
}

/// The first place from `i` on whose character does not fit, or the length
/// of `s` where all fit.
pub open spec fn first_misfit(s: Seq<char>, i: int) -> int
    decreases s.len() - i,
{
    if i < 0 || i >= s.len() {
        s.len() as int
    } else if !fits(s, i) {
        i
    } else {
        first_misfit(s, i + 1)
    }
}

/// The postfix form of an expression: the first digit, then each further
/// digit followed by the operator that stood before it.
pub open spec fn postfix(s: Seq<char>) -> Seq<char> {
    Seq::new(
        s.len(),
        |j: int|
            if j == 0 {
                s[0]
            } else if j % 2 == 1 {
                s[j + 1]
            } else {
                s[j - 1]
            },
    )
}

/// What is made of the input `s`: the character at the first place that
/// does not fit is unexpected; where all fit, the input ends too early if it
/// is empty or ends in an operator, and has a postfix form otherwise.
pub open spec fn parsed(s: Seq<char>) -> Result<Seq<char>, ParseError> {
    let p = first_misfit(s, 0);
    if p < s.len() {
        Err(ParseError::UnexpectedChar(s[p]))
    } else if s.len() % 2 == 0 {
        Err(ParseError::UnexpectedEnd)
    } else {
        Ok(postfix(s))
    }
}

/// Whether a result of the converter is the one that `expected` stands for.
pub open spec fn agrees(r: Result<String, ParseError>, expected: Result<Seq<char>, ParseError>) -> bool {
    match r {
        Ok(text) => expected == Ok::<Seq<char>, ParseError>(text@),
        Err(e) => expected == Err::<Seq<char>, ParseError>(e),
    }
}

/// The number of characters, from the start of `s`, that stand where the
/// grammar has them.
pub open spec fn fitting(s: Seq<char>) -> int {
    first_misfit(s, 0)
}

/// The number of characters of `s` whose postfix form is written when the
/// expression at the start of `s` is read: all that fit, but for an operator
/// at their end, which waits for its digit.
pub open spec fn written(s: Seq<char>) -> int {
    if fitting(s) % 2 == 1 {
        fitting(s)
    } else if fitting(s) == 0 {
        0
    } else {
        fitting(s) - 1
    }
}

/// The first misfit from `i` on lies between `i` and the end.
proof fn lemma_first_misfit_bounds(s: Seq<char>, i: int)
    requires
        0 <= i <= s.len(),
    ensures
        i <= first_misfit(s, i) <= s.len(),
    decreases s.len() - i,
{
    if i < s.len() && fits(s, i) {
        lemma_first_misfit_bounds(s, i + 1);
    }
}

/// Turns an infix expression such as `2+3-4` into postfix form, `23+4-`.
pub fn infix_to_postfix(expr: &str) -> (r: Result<String, ParseError>)
    ensures
        agrees(r, parsed(expr@)),
{
    let mut parser = Parser::new(expr);
    let mut output = String::new();
    assert(parser.unread() =~= expr@);
    proof {
        lemma_first_misfit_bounds(expr@, 0);
    }
    match parser.parse_expr(&mut output) {
        Ok(()) => {},
        Err(e) => {
            return Err(e);
        },
    }
    match parser.peek() {
        Some(c) => Err(ParseError::UnexpectedChar(c)),
        None => {
            assert(expr@.take(parser.pos as int) =~= expr@);
            assert(output@ =~= postfix(expr@));
            Ok(output)
        },
    }
}

/// Reads the input one character at a time.
struct Parser {
    chars: Vec<char>,
    pos: usize,
}

impl Parser {
    spec fn wf(&self) -> bool {
        self.pos <= self.chars@.len()
    }

    /// The input that is not read yet.
    spec fn unread(&self) -> Seq<char> {
        self.chars@.skip(self.pos as int)
    }

    /// A parser at the start of `input`.
    fn new(input: &str) -> (r: Self)
        ensures
            r.wf(),
            r.chars@ == input@,
            r.pos == 0,
    {
        Parser { chars: chars_of(input), pos: 0 }
    }

    /// The character that comes next, which stays where it is.
    fn peek(&self) -> (r: Option<char>)
        requires
            self.wf(),
        ensures
            self.pos < self.chars@.len() ==> r == Some(self.chars@[self.pos as int]),
            self.pos == self.chars@.len() ==> r is None,
    {
        if self.pos < self.chars.len() {
            Some(self.chars[self.pos])
        } else {
            None
        }
    }

    /// The character that comes next, which is then behind the parser.
    fn next(&mut self) -> (r: Option<char>)
        requires
            old(self).wf(),
        ensures
            final(self).wf(),
            final(self).chars == old(self).chars,
            old(self).pos < old(self).chars@.len() ==> r == Some(old(self).chars@[old(self).pos as int])
                && final(self).pos == old(self).pos + 1,
            old(self).pos == old(self).chars@.len() ==> r is None && final(self).pos == old(self).pos,
    {
        if self.pos < self.chars.len() {
            let c = self.chars[self.pos];
            self.pos = self.pos + 1;
            Some(c)
        } else {
            None
        }
    }

    /// Reads the expression with which the unread input begins and appends
    /// its postfix form to `output`. It succeeds where the characters that
    /// fit end behind a digit, and then stands behind that digit, before a
    /// character that is no operator or at the end. It fails where the unread
    /// input does not begin with a digit, or where an operator is not
    /// followed by one: the character in the digit's place is then read and
    /// reported, and what was written before stays written.
    fn parse_expr(&mut self, output: &mut String) -> (r: Result<(), ParseError>)
        requires
            old(self).wf(),
        ensures
            final(self).wf(),
            final(self).chars == old(self).chars,
            r is Ok <==> fitting(old(self).unread()) % 2 == 1,
            final(output)@ == old(output)@ + postfix(
                old(self).unread().take(written(old(self).unread())),
            ),
            r is Ok ==> final(self).pos == old(self).pos + fitting(old(self).unread()),
            r is Ok && final(self).pos < final(self).chars@.len() ==> !is_operator(
                final(self).chars@[final(self).pos as int],
            ),
            r is Err && fitting(old(self).unread()) < old(self).unread().len() ==> r->Err_0
                == ParseError::UnexpectedChar(old(self).unread()[fitting(old(self).unread())])
                && final(self).pos == old(self).pos + fitting(old(self).unread()) + 1,
            r is Err && fitting(old(self).unread()) >= old(self).unread().len() ==> r->Err_0
                == ParseError::UnexpectedEnd && final(self).pos == old(self).chars@.len(),
    {
        let ghost base = self.pos as int;
        let ghost s = self.unread();
        let ghost o = output@;
        assert(s.len() == self.chars@.len() - base);
        match self.parse_term(output) {
            Ok(()) => {},
            Err(e) => {
                assert(s.len() > 0 ==> s[0] == self.chars@[base]);
                assert(fitting(s) == 0);
                assert(o + postfix(s.take(0)) =~= o);
                return Err(e);
            },
        }
        assert(s[0] == self.chars@[base]);
        assert(fits(s, 0));
        assert(output@ =~= o + postfix(s.take(1)));
        loop
            invariant
                self.wf(),
                self.chars == old(self).chars,
                s == old(self).unread(),
                s.len() == self.chars@.len() - base,
                base == old(self).pos,
                base < self.pos,
                (self.pos - base) % 2 == 1,
                o == old(output)@,
                fitting(s) == first_misfit(s, self.pos - base),
                output@ == o + postfix(s.take(self.pos - base)),
            decreases self.chars@.len() - self.pos,
        {
            let ghost k = self.pos - base;
            let ghost so_far = output@;
            let op = match self.peek() {
                Some(c) => c,
                None => {
                    assert(fitting(s) == k);
                    return Ok(());
                },
            };
            assert(s[k] == op);
            if !(op == '+' || op == '-') {
                assert(fitting(s) == k);
                return Ok(());
            }
            let _ = self.next();
            assert(fits(s, k));
            assert(first_misfit(s, k) == first_misfit(s, k + 1));
            match self.parse_term(output) {
                Ok(()) => {},
                Err(e) => {
                    assert(k + 1 < s.len() ==> s[k + 1] == self.chars@[base + k + 1]);
                    assert(fitting(s) == k + 1);
                    assert(written(s) == k);
                    return Err(e);
                },
            }
            assert(s[k + 1] == self.chars@[base + k + 1]);
            assert(fits(s, k + 1));
            output.push(op);
            assert(first_misfit(s, k + 1) == first_misfit(s, k + 2));
            assert(output@ =~= o + postfix(s.take(k + 2))) by {
                assert(output@ == so_far.push(s[k + 1]).push(s[k]));
            }
        }
    }

    /// Reads one character, which has to be a digit, and appends it to
    /// `output`. Any other character is read and reported; at the end of the
    /// input nothing is read.
    fn parse_term(&mut self, output: &mut String) -> (r: Result<(), ParseError>)
        requires
            old(self).wf(),
        ensures
            final(self).wf(),
            final(self).chars == old(self).chars,
            r is Ok <==> old(self).pos < old(self).chars@.len() && is_digit(
                old(self).chars@[old(self).pos as int],
            ),
            old(self).pos < old(self).chars@.len() ==> final(self).pos == old(self).pos + 1,
            old(self).pos == old(self).chars@.len() ==> final(self).pos == old(self).pos,
            r is Ok ==> final(output)@ == old(output)@.push(old(self).chars@[old(self).pos as int]),
            r is Err ==> final(output)@ == old(output)@,
            r is Err && old(self).pos < old(self).chars@.len() ==> r->Err_0
                == ParseError::UnexpectedChar(old(self).chars@[old(self).pos as int]),
            r is Err && old(self).pos == old(self).chars@.len() ==> r->Err_0
                == ParseError::UnexpectedEnd,
    {
        match self.next() {
            Some(ch) => {
                if 0x30 <= ch as u32 && ch as u32 <= 0x39 {
                    output.push(ch);
                    Ok(())
                } else {
                    Err(ParseError::UnexpectedChar(ch))
                }
            },
            None => Err(ParseError::UnexpectedEnd),
        }
    }
}

} // verus!
