//! A parser and evaluator for bit-string expressions over the
//! tower-field operations: `+` and `*`/`/` with their usual precedence,
//! parentheses, `0`/`1` bit-string literals, and `_` for the previous
//! result.
//!
//! The grammar and evaluation sit at the library's edge; their contracts
//! state well-formedness, framing and progress, while the arithmetic the
//! evaluator invokes carries the exact contracts of `arithmetic`.

use vstd::prelude::*;
use vstd::slice::slice_index_get;
use vstd::slice::slice_to_vec;
use vstd::string::StrSliceExecFns;

use crate::arithmetic::is_pow2;

verus! {

/// The ways an expression can fail to parse or evaluate.
#[derive(Clone, Copy, Debug, PartialEq, Eq)]
pub enum ParseError {
    /// A parenthesized group was not closed by `)`.
    ExpectedCloseParen,
    /// `_` was used, but no previous result is at hand.
    NoPreviousResult,
    /// A factor began with a character other than `(`, `_`, `0` or `1`.
    UnexpectedChar(char),
    /// The input ended where a factor was expected.
    UnexpectedEnd,
    /// A left operand's length (carried here) is not a power of two.
    LhsLengthNotPowerOfTwo(usize),
    /// A right operand's length (carried here) is not a power of two.
    RhsLengthNotPowerOfTwo(usize),
    /// Division by an operand that has no multiplicative inverse.
    NotInvertible,
}

/// The whitespace characters the parser skips between tokens.
pub open spec fn is_space(c: char) -> bool {
    c == ' ' || c == '\t' || c == '\r' || c == '\n'
}

/// `a` extended to `n` bits with trailing zero bits.
pub open spec fn padded(a: Seq<bool>, n: nat) -> Seq<bool>
    recommends
        a.len() <= n,
{
    Seq::new(n, |i: int| if i < a.len() { a[i] } else { false })
}

/// The larger of two lengths.
pub open spec fn max_len(x: nat, y: nat) -> nat {
    if x >= y {
        x
    } else {
        y
    }
}

fn space_char(c: char) -> (b: bool)
    ensures
        b == is_space(c),
{
    c == ' ' || c == '\t' || c == '\r' || c == '\n'
}

/// Whether `n` is a power of two, decided by repeated halving.
fn is_pow2_len(n: usize) -> (b: bool)
    ensures
        b == is_pow2(n as nat),
{
    if n == 0 {
        return false;
    }
    let mut m: usize = n;
    while m % 2 == 0
        invariant
            m >= 1,
            is_pow2(n as nat) == is_pow2(m as nat),
        decreases m,
    {
        m = m / 2;
    }
    m == 1
}

/// Copy of `bits` padded with trailing zero bits up to `n` bits.
fn pad_to(bits: &[bool], n: usize) -> (r: Vec<bool>)
    requires
        bits@.len() <= n,
    ensures
        r@ == padded(bits@, n as nat),
{
    let len = bits.len();
    let mut result: Vec<bool> = Vec::new();
    let mut i: usize = 0;
    while i < n
        invariant
            i <= n,
            len == bits@.len(),
            len <= n,
            result@.len() == i,
            forall|j: int| 0 <= j < i ==> result@[j] == (if j < len { bits@[j] } else { false }),
        decreases n - i,
    {
        if i < len {
            result.push(*slice_index_get(bits, i));
        } else {
            result.push(false);
        }
        i = i + 1;
    }
    assert(result@ =~= padded(bits@, n as nat));
    result
}

/// A recursive-descent parser over a character buffer, carrying the
/// previous result for `_`.
pub struct Parser {
    /// The input, one character per cell.
    pub chars: Vec<char>,
    /// The position of the next character to read.
    pub pos: usize,
    /// The previous result, if any, which `_` stands for.
    pub prev: Option<Vec<bool>>,
}

impl Parser {
    /// The reading position never passes the end of the input.
    pub open spec fn wf(&self) -> bool {
        self.pos <= self.chars@.len()
    }

    /// Create a parser for the given input, carrying the previous result.
    pub fn new(input: &str, prev: Option<Vec<bool>>) -> (p: Parser)
        ensures
            p.chars@ == input@,
            p.pos == 0,
            p.prev == prev,
            p.wf(),
    {
        let n = input.unicode_len();
        let mut chars: Vec<char> = Vec::new();
        let mut i: usize = 0;
        while i < n
            invariant
                i <= n,
                n == input@.len(),
                chars@.len() == i,
                forall|j: int| 0 <= j < i ==> chars@[j] == input@[j],
            decreases n - i,
        {
            chars.push(input.get_char(i));
            i = i + 1;
        }
        assert(chars@ =~= input@);
        Parser { chars, pos: 0, prev }
    }

    /// Peek at the next character without consuming it.
    fn peek_char(&self) -> (c: Option<char>)
        requires
            self.wf(),
        ensures
            c == (if self.pos < self.chars@.len() {
                Some(self.chars@[self.pos as int])
            } else {
                None::<char>
            }),
    {
        if self.pos < self.chars.len() {
            Some(self.chars[self.pos])
        } else {
            None
        }
    }

    /// Consume and return the next character.
    fn consume_char(&mut self) -> (c: Option<char>)
        requires
            old(self).wf(),
        ensures
            final(self).chars == old(self).chars,
            final(self).prev == old(self).prev,
            final(self).wf(),
            old(self).pos < old(self).chars@.len() ==> c == Some(
                old(self).chars@[old(self).pos as int],
            ) && final(self).pos == old(self).pos + 1,
            old(self).pos >= old(self).chars@.len() ==> c == None::<char> && final(self).pos
                == old(self).pos,
    {
        if self.pos < self.chars.len() {
            let c = self.chars[self.pos];
            self.pos = self.pos + 1;
            Some(c)
        } else {
            None
        }
    }

    /// Skip over any whitespace characters.
    #[verifier::loop_isolation(false)]
    pub fn skip_whitespace(&mut self)
        requires
            old(self).wf(),
        ensures
            final(self).chars == old(self).chars,
            final(self).prev == old(self).prev,
            final(self).wf(),
            old(self).pos <= final(self).pos,
            final(self).pos < final(self).chars@.len() ==> !is_space(
                final(self).chars@[final(self).pos as int],
            ),
    {
        while self.pos < self.chars.len() && space_char(self.chars[self.pos])
            invariant
                self.wf(),
                self.chars == old(self).chars,
                self.prev == old(self).prev,
                old(self).pos <= self.pos,
            decreases self.chars@.len() - self.pos,
        {
            self.pos = self.pos + 1;
        }
    }

    /// Check that both operands have power-of-two length, and pad them
    /// with trailing zero bits to their common (larger) length.
    fn check_arguments(lhs: &[bool], rhs: &[bool]) -> (r: Result<(Vec<bool>, Vec<bool>), ParseError>)
        ensures
            match r {
                Ok(pair) => {
                    let target = max_len(lhs@.len(), rhs@.len());
                    &&& is_pow2(lhs@.len())
                    &&& is_pow2(rhs@.len())
                    &&& pair.0@ == padded(lhs@, target)
                    &&& pair.1@ == padded(rhs@, target)
                    &&& pair.0@.len() == target
                    &&& pair.1@.len() == target
                    &&& is_pow2(target)
                },
                Err(e) => (!is_pow2(lhs@.len()) || !is_pow2(rhs@.len())) && e == (if !is_pow2(
                    lhs@.len(),
                ) {
                    ParseError::LhsLengthNotPowerOfTwo(lhs@.len() as usize)
                } else {
                    ParseError::RhsLengthNotPowerOfTwo(rhs@.len() as usize)
                }),
            },
    {
        if !is_pow2_len(lhs.len()) {
            return Err(ParseError::LhsLengthNotPowerOfTwo(lhs.len()));
        }
        if !is_pow2_len(rhs.len()) {
            return Err(ParseError::RhsLengthNotPowerOfTwo(rhs.len()));
        }
        let target = if lhs.len() >= rhs.len() {
            lhs.len()
        } else {
            rhs.len()
        };
        let padded_lhs = pad_to(lhs, target);
        let padded_rhs = pad_to(rhs, target);
        Ok((padded_lhs, padded_rhs))
    }

    /// Parse an expression: `term { '+' term }`, evaluating as it goes.
    #[verifier::loop_isolation(false)]
    pub fn parse_expression(&mut self) -> (r: Result<Vec<bool>, ParseError>)
        requires
            old(self).wf(),
        ensures
            final(self).chars == old(self).chars,
            final(self).prev == old(self).prev,
            final(self).wf(),
            old(self).pos <= final(self).pos,
            r is Ok ==> old(self).pos < final(self).pos,
        decreases old(self).chars@.len() - old(self).pos, 2int,
    {
        let mut value = self.parse_term()?;
        loop
            invariant
                self.wf(),
                self.chars == old(self).chars,
                self.prev == old(self).prev,
                old(self).pos < self.pos,
            decreases self.chars@.len() - self.pos,
        {
            self.skip_whitespace();
            let op = self.peek_char();
            let is_plus = match op {
                Some(o) => o == '+',
                None => false,
            };
            if is_plus {
                self.consume_char();
                let rhs = self.parse_term()?;
                let pair = match Parser::check_arguments(value.as_slice(), rhs.as_slice()) {
                    Ok(p) => p,
                    Err(e) => {
                        return Err(e);
                    },
                };
                value = crate::arithmetic::add(pair.0.as_slice(), pair.1.as_slice());
            } else {
                break;
            }
        }
        Ok(value)
    }

    /// Parse a term: `factor { ('*' | '/') factor }`, evaluating as it
    /// goes; `x / y` is `x * inv(y)`.
    #[verifier::loop_isolation(false)]
    fn parse_term(&mut self) -> (r: Result<Vec<bool>, ParseError>)
        requires
            old(self).wf(),
        ensures
            final(self).chars == old(self).chars,
            final(self).prev == old(self).prev,
            final(self).wf(),
            old(self).pos <= final(self).pos,
            r is Ok ==> old(self).pos < final(self).pos,
        decreases old(self).chars@.len() - old(self).pos, 1int,
    {
        let mut value = self.parse_factor()?;
        loop
            invariant
                self.wf(),
                self.chars == old(self).chars,
                self.prev == old(self).prev,
                old(self).pos < self.pos,
            decreases self.chars@.len() - self.pos,
        {
            self.skip_whitespace();
            let op = self.peek_char();
            let is_mul = match op {
                Some(o) => o == '*',
                None => false,
            };
            let is_div = match op {
                Some(o) => o == '/',
                None => false,
            };
            if is_mul {
                self.consume_char();
                let rhs = self.parse_factor()?;
                let pair = match Parser::check_arguments(value.as_slice(), rhs.as_slice()) {
                    Ok(p) => p,
                    Err(e) => {
                        return Err(e);
                    },
                };
                value = crate::arithmetic::mul(pair.0.as_slice(), pair.1.as_slice());
            } else if is_div {
                self.consume_char();
                let rhs = self.parse_factor()?;
                let pair = match Parser::check_arguments(value.as_slice(), rhs.as_slice()) {
                    Ok(p) => p,
                    Err(e) => {
                        return Err(e);
                    },
                };
                let inverse = match crate::arithmetic::inv(pair.1.as_slice()) {
                    Ok(v) => v,
                    Err(_) => {
                        return Err(ParseError::NotInvertible);
                    },
                };
                value = crate::arithmetic::mul(pair.0.as_slice(), inverse.as_slice());
            } else {
                break;
            }
        }
        Ok(value)
    }

    /// Parse a factor: a bit-string literal, `_`, or a parenthesized
    /// expression.
    #[verifier::loop_isolation(false)]
    fn parse_factor(&mut self) -> (r: Result<Vec<bool>, ParseError>)
        requires
            old(self).wf(),
        ensures
            final(self).chars == old(self).chars,
            final(self).prev == old(self).prev,
            final(self).wf(),
            old(self).pos <= final(self).pos,
            r is Ok ==> old(self).pos < final(self).pos,
        decreases old(self).chars@.len() - old(self).pos, 0int,
    {
        self.skip_whitespace();
        let next = self.peek_char();
        let c = match next {
            Some(c) => c,
            None => {
                return Err(ParseError::UnexpectedEnd);
            },
        };
        if c == '(' {
            self.consume_char();
            let inner = self.parse_expression()?;
            self.skip_whitespace();
            let close = self.peek_char();
            let is_close = match close {
                Some(cc) => cc == ')',
                None => false,
            };
            if is_close {
                self.consume_char();
                Ok(inner)
            } else {
                Err(ParseError::ExpectedCloseParen)
            }
        } else if c == '_' {
            self.consume_char();
            match &self.prev {
                Some(prev_val) => Ok(slice_to_vec(prev_val.as_slice())),
                None => Err(ParseError::NoPreviousResult),
            }
        } else if c == '0' || c == '1' {
            let mut bits: Vec<bool> = Vec::new();
            loop
                invariant
                    self.wf(),
                    self.chars == old(self).chars,
                    self.prev == old(self).prev,
                    old(self).pos <= self.pos,
                    old(self).pos < self.pos || (self.pos < self.chars@.len() && (
                    self.chars@[self.pos as int] == '0' || self.chars@[self.pos as int] == '1')),
                decreases self.chars@.len() - self.pos,
            {
                let nx = self.peek_char();
                let digit = match nx {
                    Some(d) => d == '0' || d == '1',
                    None => false,
                };
                if !digit {
                    break;
                }
                let d = self.consume_char();
                let bit = match d {
                    Some(dc) => dc == '1',
                    None => false,
                };
                bits.push(bit);
            }
            Ok(bits)
        } else {
            Err(ParseError::UnexpectedChar(c))
        }
    }
}

} // verus!
