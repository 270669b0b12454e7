//! The lexical scanner: text to tokens.

use crate::rational::{fits_i128, reduce, reduce_s, Rational};
use crate::token::{FuncType, Token};
use vstd::prelude::*;
use vstd::std_specs::iter::IteratorSpec;

verus! {

broadcast use vstd::string::next_postcondition, vstd::string::axiom_spec_iter;

/// A scan failure.
#[derive(Clone, Copy, Debug)]
pub enum TokenizerError {
    /// A character no rule accepts.
    IllegalChar(char),
    /// A numeric literal too large for exact arithmetic.
    NumberTooLarge,
}

pub type TokenizerResult<T> = Result<T, TokenizerError>;

/// Whether a character counts as alphabetic (a variable name).
pub uninterp spec fn alphabetic_of(c: char) -> bool;

/// Whether a character counts as whitespace.
pub uninterp spec fn whitespace_of(c: char) -> bool;

/// Relies on char::is_alphabetic: the result depends on the character alone.
#[verifier::external_body]
fn char_is_alphabetic(c: char) -> (r: bool)
    ensures
        r == alphabetic_of(c),
{
    c.is_alphabetic()
}

/// Relies on char::is_whitespace: the result depends on the character alone.
#[verifier::external_body]
fn char_is_whitespace(c: char) -> (r: bool)
    ensures
        r == whitespace_of(c),
{
    c.is_whitespace()
}

pub open spec fn is_digit_s(c: char) -> bool {
    48 <= c as u32 <= 57
}

pub open spec fn digit_val(c: char) -> int {
    c as u32 - 48
}

/// The end of the run of digits starting at `i`.
pub open spec fn digits_end(s: Seq<char>, i: int) -> int
    recommends
        0 <= i <= s.len(),
    decreases s.len() - i,
{
    if 0 <= i < s.len() && is_digit_s(s[i]) {
        digits_end(s, i + 1)
    } else {
        i
    }
}

/// The end of the numeric literal starting at `i`: a run of digits, then
/// optionally a point followed by at least one more digit.
pub open spec fn num_end(s: Seq<char>, i: int) -> int {
    let e1 = digits_end(s, i);
    if e1 < s.len() && s[e1] == '.' && e1 + 1 < s.len() && is_digit_s(s[e1 + 1]) {
        digits_end(s, e1 + 1)
    } else {
        e1
    }
}

/// Fold the digits of `s[i..j]` onto `acc` in base ten; `None` past the
/// machine range.
pub open spec fn digits_acc(s: Seq<char>, i: int, j: int, acc: int) -> Option<int>
    decreases j - i,
{
    if i >= j {
        Some(acc)
    } else {
        let v = acc * 10 + digit_val(s[i]);
        if !fits_i128(v) {
            None
        } else {
            digits_acc(s, i + 1, j, v)
        }
    }
}

/// Ten to the `k`-th power; `None` past the machine range.
pub open spec fn pow10_s(k: int, acc: int) -> Option<int>
    decreases k,
{
    if k <= 0 {
        Some(acc)
    } else {
        let v = acc * 10;
        if !fits_i128(v) {
            None
        } else {
            pow10_s(k - 1, v)
        }
    }
}

/// The exact rational value of the numeric literal `s[i..num_end(s, i)]`.
pub open spec fn num_value(s: Seq<char>, i: int) -> Option<Rational> {
    let e1 = digits_end(s, i);
    let e2 = num_end(s, i);
    let whole = if e2 == e1 {
        digits_acc(s, i, e1, 0)
    } else {
        match digits_acc(s, i, e1, 0) {
            Some(w) => digits_acc(s, e1 + 1, e2, w),
            None => None,
        }
    };
    let den = if e2 == e1 {
        Some(1int)
    } else {
        pow10_s(e2 - e1 - 1, 1)
    };
    match whole {
        Some(n) => match den {
            Some(d) => reduce_s(n, d),
            None => None,
        },
        None => None,
    }
}

/// `word` starts at position `i` of `s`.
pub open spec fn word_at(s: Seq<char>, i: int, word: Seq<char>) -> bool {
    i + word.len() <= s.len() && s.subrange(i, i + word.len()) == word
}

/// What the scanner produces from position `i` on: the token stream, ended
/// by the end-of-input token, or the first failure.
pub open spec fn tokenize_s(s: Seq<char>, i: int) -> Result<Seq<Token>, TokenizerError>
    recommends
        0 <= i <= s.len(),
    decreases s.len() - i, 1int,
{
    if i < 0 || i >= s.len() {
        Ok(seq![Token::Eof])
    } else {
        let c = s[i];
        if whitespace_of(c) {
            tokenize_s(s, i + 1)
        } else if is_digit_s(c) {
            match num_value(s, i) {
                Some(r) => cons_token(s, Token::Num(r), num_end(s, i), i),
                None => Err(TokenizerError::NumberTooLarge),
            }
        } else if alphabetic_of(c) {
            if word_at(s, i, seq!['s', 'i', 'n']) {
                cons_token(s, Token::Func(FuncType::Sin), i + 3, i)
            } else if word_at(s, i, seq!['c', 'o', 's']) {
                cons_token(s, Token::Func(FuncType::Cos), i + 3, i)
            } else if word_at(s, i, seq!['t', 'a', 'n']) {
                cons_token(s, Token::Func(FuncType::Tan), i + 3, i)
            } else if word_at(s, i, seq!['c', 's', 'c']) {
                cons_token(s, Token::Func(FuncType::Csc), i + 3, i)
            } else if word_at(s, i, seq!['s', 'e', 'c']) {
                cons_token(s, Token::Func(FuncType::Sec), i + 3, i)
            } else if word_at(s, i, seq!['c', 'o', 't']) {
                cons_token(s, Token::Func(FuncType::Cot), i + 3, i)
            } else if word_at(s, i, seq!['l', 'n']) {
                cons_token(s, Token::Func(FuncType::Ln), i + 2, i)
            } else if word_at(s, i, seq!['l', 'o', 'g']) {
                cons_token(s, Token::Func(FuncType::Log), i + 3, i)
            } else {
                cons_token(s, Token::Var(c), i + 1, i)
            }
        } else if c == '+' {
            cons_token(s, Token::Plus, i + 1, i)
        } else if c == '-' {
            cons_token(s, Token::Minus, i + 1, i)
        } else if c == '*' {
            cons_token(s, Token::Mul, i + 1, i)
        } else if c == '/' {
            cons_token(s, Token::Div, i + 1, i)
        } else if c == '^' {
            cons_token(s, Token::Raise, i + 1, i)
        } else if c == '(' {
            cons_token(s, Token::LParen, i + 1, i)
        } else if c == ')' {
            cons_token(s, Token::RParen, i + 1, i)
        } else if c == '=' {
            cons_token(s, Token::Equals, i + 1, i)
        } else {
            Err(TokenizerError::IllegalChar(c))
        }
    }
}

/// `tok`, then whatever the rest of the input gives, provided scanning
/// really moved forward.
pub open spec fn cons_token(s: Seq<char>, tok: Token, j: int, i: int) -> Result<
    Seq<Token>,
    TokenizerError,
>
    recommends
        i < j,
    decreases s.len() - i, 0int,
{
    if i < j && i < s.len() {
        match tokenize_s(s, if j <= s.len() {
            j
        } else {
            s.len() as int
        }) {
            Ok(rest) => Ok(seq![tok] + rest),
            Err(e) => Err(e),
        }
    } else {
        Ok(seq![tok])
    }
}


/// One scanning step: a token produced at `p`, the cursor moved to `q`,
/// extends the accumulated stream.
proof fn lemma_step(
    s: Seq<char>,
    p0: int,
    p: int,
    old_tokens: Seq<Token>,
    tok: Token,
    j: int,
    q: int,
)
    requires
        0 <= p < s.len(),
        p < j,
        q == if j <= s.len() {
            j
        } else {
            s.len() as int
        },
        tokenize_s(s, p0) == (match tokenize_s(s, p) {
            Ok(rest) => Ok::<Seq<Token>, TokenizerError>(old_tokens + rest),
            Err(e) => Err(e),
        }),
        tokenize_s(s, p) == cons_token(s, tok, j, p),
    ensures
        tokenize_s(s, p0) == (match tokenize_s(s, q) {
            Ok(rest) => Ok::<Seq<Token>, TokenizerError>(old_tokens.push(tok) + rest),
            Err(e) => Err(e),
        }),
{
    assert(cons_token(s, tok, j, p) == (match tokenize_s(s, q) {
        Ok(rest) => Ok::<Seq<Token>, TokenizerError>(seq![tok] + rest),
        Err(e) => Err(e),
    }));
    match tokenize_s(s, q) {
        Ok(rest) => {
            assert(old_tokens + (seq![tok] + rest) =~= old_tokens.push(tok) + rest);
        },
        Err(_) => {},
    }
}

/// Unfolding of the scan at a whitespace character.
proof fn lemma_unfold_ws(s: Seq<char>, i: int)
    requires
        0 <= i < s.len(),
        whitespace_of(s[i]),
    ensures
        tokenize_s(s, i) == tokenize_s(s, i + 1),
{
}

/// Unfolding of the scan at an operator or bracket character.
proof fn lemma_unfold_symbol(s: Seq<char>, i: int, tok: Token)
    requires
        0 <= i < s.len(),
        !whitespace_of(s[i]),
        !is_digit_s(s[i]),
        !alphabetic_of(s[i]),
        (s[i] == '+' && tok == Token::Plus) || (s[i] == '-' && tok == Token::Minus) || (s[i] == '*'
            && tok == Token::Mul) || (s[i] == '/' && tok == Token::Div) || (s[i] == '^' && tok
            == Token::Raise) || (s[i] == '(' && tok == Token::LParen) || (s[i] == ')' && tok
            == Token::RParen) || (s[i] == '=' && tok == Token::Equals),
    ensures
        tokenize_s(s, i) == cons_token(s, tok, i + 1, i),
{
}

/// Unfolding of the scan at an alphabetic character: a function keyword or
/// a variable.
proof fn lemma_unfold_alpha(s: Seq<char>, i: int, tok: Token, j: int)
    requires
        0 <= i < s.len(),
        !whitespace_of(s[i]),
        !is_digit_s(s[i]),
        alphabetic_of(s[i]),
        ({
            ||| word_at(s, i, seq!['s', 'i', 'n']) && tok == Token::Func(FuncType::Sin) && j == i
                + 3
            ||| !word_at(s, i, seq!['s', 'i', 'n']) && word_at(s, i, seq!['c', 'o', 's']) && tok
                == Token::Func(FuncType::Cos) && j == i + 3
            ||| !word_at(s, i, seq!['s', 'i', 'n']) && !word_at(s, i, seq!['c', 'o', 's'])
                && word_at(s, i, seq!['t', 'a', 'n']) && tok == Token::Func(FuncType::Tan) && j == i
                + 3
            ||| !word_at(s, i, seq!['s', 'i', 'n']) && !word_at(s, i, seq!['c', 'o', 's'])
                && !word_at(s, i, seq!['t', 'a', 'n']) && word_at(s, i, seq!['c', 's', 'c']) && tok
                == Token::Func(FuncType::Csc) && j == i + 3
            ||| !word_at(s, i, seq!['s', 'i', 'n']) && !word_at(s, i, seq!['c', 'o', 's'])
                && !word_at(s, i, seq!['t', 'a', 'n']) && !word_at(s, i, seq!['c', 's', 'c'])
                && word_at(s, i, seq!['s', 'e', 'c']) && tok == Token::Func(FuncType::Sec) && j == i
                + 3
            ||| !word_at(s, i, seq!['s', 'i', 'n']) && !word_at(s, i, seq!['c', 'o', 's'])
                && !word_at(s, i, seq!['t', 'a', 'n']) && !word_at(s, i, seq!['c', 's', 'c'])
                && !word_at(s, i, seq!['s', 'e', 'c']) && word_at(s, i, seq!['c', 'o', 't']) && tok
                == Token::Func(FuncType::Cot) && j == i + 3
            ||| !word_at(s, i, seq!['s', 'i', 'n']) && !word_at(s, i, seq!['c', 'o', 's'])
                && !word_at(s, i, seq!['t', 'a', 'n']) && !word_at(s, i, seq!['c', 's', 'c'])
                && !word_at(s, i, seq!['s', 'e', 'c']) && !word_at(s, i, seq!['c', 'o', 't'])
                && word_at(s, i, seq!['l', 'n']) && tok == Token::Func(FuncType::Ln) && j == i + 2
            ||| !word_at(s, i, seq!['s', 'i', 'n']) && !word_at(s, i, seq!['c', 'o', 's'])
                && !word_at(s, i, seq!['t', 'a', 'n']) && !word_at(s, i, seq!['c', 's', 'c'])
                && !word_at(s, i, seq!['s', 'e', 'c']) && !word_at(s, i, seq!['c', 'o', 't'])
                && !word_at(s, i, seq!['l', 'n']) && word_at(s, i, seq!['l', 'o', 'g']) && tok
                == Token::Func(FuncType::Log) && j == i + 3
            ||| !word_at(s, i, seq!['s', 'i', 'n']) && !word_at(s, i, seq!['c', 'o', 's'])
                && !word_at(s, i, seq!['t', 'a', 'n']) && !word_at(s, i, seq!['c', 's', 'c'])
                && !word_at(s, i, seq!['s', 'e', 'c']) && !word_at(s, i, seq!['c', 'o', 't'])
                && !word_at(s, i, seq!['l', 'n']) && !word_at(s, i, seq!['l', 'o', 'g']) && tok
                == Token::Var(s[i]) && j == i + 1
        }),
    ensures
        tokenize_s(s, i) == cons_token(s, tok, j, i),
{
}

/// Unfolding of the scan at a digit: the numeric literal's value, or the
/// report that it does not fit.
proof fn lemma_unfold_digit(s: Seq<char>, i: int)
    requires
        0 <= i < s.len(),
        !whitespace_of(s[i]),
        is_digit_s(s[i]),
    ensures
        tokenize_s(s, i) == (match num_value(s, i) {
            Some(r) => cons_token(s, Token::Num(r), num_end(s, i), i),
            None => Err(TokenizerError::NumberTooLarge),
        }),
{
}

/// Whether `c` is a decimal digit.
fn digit_char(c: char) -> (r: bool)
    ensures
        r == is_digit_s(c),
{
    let u = c as u32;
    48 <= u && u <= 57
}

/// What `digits_end` delimits: digits up to it, and a non-digit (or the
/// end) right after.
pub proof fn lemma_digits_end(s: Seq<char>, i: int)
    requires
        0 <= i <= s.len(),
    ensures
        i <= digits_end(s, i) <= s.len(),
        forall|j: int| i <= j < digits_end(s, i) ==> is_digit_s(#[trigger] s[j]),
        digits_end(s, i) < s.len() ==> !is_digit_s(s[digits_end(s, i)]),
    decreases s.len() - i,
{
    if i < s.len() && is_digit_s(s[i]) {
        lemma_digits_end(s, i + 1);
    }
}

/// Ten to the `k`-th power on machine words.
fn pow10(k: usize) -> (r: Option<i128>)
    ensures
        match pow10_s(k as int, 1) {
            Some(v) => r matches Some(x) && x == v && v >= 1,
            None => r is None,
        },
{
    let mut acc: i128 = 1;
    let mut j: usize = 0;
    while j < k
        invariant
            j <= k,
            acc >= 1,
            pow10_s(k as int, 1) == pow10_s(k as int - j, acc as int),
        decreases k - j,
    {
        let m = match acc.checked_mul(10) {
            Some(v) => v,
            None => {
                return None;
            },
        };
        acc = m;
        j = j + 1;
    }
    Some(acc)
}

/// The scanner: it owns the characters of one line of input and a cursor.
pub struct Tokenizer {
    text: Vec<char>,
    curr: usize,
}

impl Tokenizer {
    /// The characters being scanned.
    pub closed spec fn chars(&self) -> Seq<char> {
        self.text@
    }

    /// The cursor.
    pub closed spec fn pos(&self) -> int {
        self.curr as int
    }

    pub open spec fn wf(&self) -> bool {
        0 <= self.pos() <= self.chars().len()
    }

    /// A scanner over the characters of `text`, at the start.
    pub fn new(text: &str) -> (r: Tokenizer)
        ensures
            r.chars() == text@,
            r.pos() == 0,
            r.wf(),
    {
        let mut chars: Vec<char> = Vec::new();
        let mut it = text.chars();
        loop
            invariant
                chars@ + it.remaining() == text@,
                it.obeys_prophetic_iter_laws(),
                it.decrease() is Some,
            decreases it.decrease()->0,
        {
            let ghost old_rem = it.remaining();
            let ghost old_chars = chars@;
            let nxt = it.next();
            match nxt {
                Some(c) => {
                    proof {
                        assert(old_rem.len() > 0);
                        assert(it.remaining() == old_rem.drop_first());
                        assert(c == old_rem[0]);
                    }
                    chars.push(c);
                    proof {
                        assert(chars@ + it.remaining() =~= old_chars + old_rem);
                    }
                },
                None => {
                    proof {
                        assert(it.remaining().len() == 0);
                        assert(chars@ =~= text@);
                    }
                    return Tokenizer { text: chars, curr: 0 };
                },
            }
        }
    }

    /// A copy of the characters the cursor has not passed yet.
    pub fn rest(&self) -> (r: Vec<char>)
        requires
            self.wf(),
        ensures
            r@ == self.chars().skip(self.pos()),
    {
        let mut out: Vec<char> = Vec::new();
        let mut i: usize = self.curr;
        while i < self.text.len()
            invariant
                self.curr <= i <= self.text@.len(),
                out@ == self.text@.subrange(self.curr as int, i as int),
            decreases self.text@.len() - i,
        {
            out.push(self.text[i]);
            proof {
                assert(out@ =~= self.text@.subrange(self.curr as int, i + 1));
            }
            i = i + 1;
        }
        proof {
            assert(out@ =~= self.chars().skip(self.pos()));
        }
        out
    }

    /// The character under the cursor, if any.
    pub fn peek(&self) -> (r: Option<char>)
        requires
            self.wf(),
        ensures
            r == if self.pos() < self.chars().len() {
                Some(self.chars()[self.pos()])
            } else {
                Option::<char>::None
            },
    {
        if self.curr < self.text.len() {
            Some(self.text[self.curr])
        } else {
            None
        }
    }

    /// Move the cursor one character forward, if one is left.
    pub fn advance(&mut self)
        requires
            old(self).wf(),
        ensures
            final(self).chars() == old(self).chars(),
            final(self).wf(),
            final(self).pos() == if old(self).pos() < old(self).chars().len() {
                old(self).pos() + 1
            } else {
                old(self).pos()
            },
    {
        if self.curr < self.text.len() {
            self.curr = self.curr + 1;
        }
    }

    /// Move the cursor `n` characters forward, stopping at the end.
    pub fn advance_n(&mut self, n: usize)
        requires
            old(self).wf(),
        ensures
            final(self).chars() == old(self).chars(),
            final(self).wf(),
            final(self).pos() == if old(self).pos() + n <= old(self).chars().len() {
                old(self).pos() + n
            } else {
                old(self).chars().len() as int
            },
    {
        let mut k: usize = 0;
        while k < n
            invariant
                k <= n,
                self.chars() == old(self).chars(),
                self.wf(),
                self.pos() == if old(self).pos() + k <= old(self).chars().len() {
                    old(self).pos() + k
                } else {
                    old(self).chars().len() as int
                },
            decreases n - k,
        {
            self.advance();
            k = k + 1;
        }
    }


    /// Scan the whole input into tokens, ending with the end-of-input
    /// token; the first unacceptable character or oversized literal is the
    /// scan's failure.
    #[verifier::loop_isolation(false)]
    #[verifier::rlimit(60)]
    pub fn tokenize(&mut self) -> (r: TokenizerResult<Vec<Token>>)
        requires
            old(self).wf(),
        ensures
            final(self).chars() == old(self).chars(),
            match tokenize_s(old(self).chars(), old(self).pos()) {
                Ok(ts) => r matches Ok(v) && v@ == ts,
                Err(e) => r matches Err(i) && i == e,
            },
    {
        let ghost s = self.chars();
        let ghost p0 = self.pos();
        let mut tokens: Vec<Token> = Vec::new();
        proof {
            assert(tokens@ + tokenize_s(s, p0)->Ok_0 =~= tokenize_s(s, p0)->Ok_0);
        }
        while self.curr < self.text.len()
            invariant
                self.wf(),
                self.chars() == s,
                p0 <= self.pos(),
                tokenize_s(s, p0) == (match tokenize_s(s, self.pos()) {
                    Ok(rest) => Ok::<Seq<Token>, TokenizerError>(tokens@ + rest),
                    Err(e) => Err(e),
                }),
            decreases s.len() - self.pos(),
        {
            let ghost p = self.pos();
            let c = self.text[self.curr];
            if char_is_whitespace(c) {
                self.curr = self.curr + 1;
                proof {
                    lemma_unfold_ws(s, p);
                }
            } else if digit_char(c) {
                let e1 = self.scan_digits(self.curr + 1);
                proof {
                    assert(digits_end(s, p) == digits_end(s, p + 1));
                    lemma_digits_end(s, p);
                }
                let frac = e1 < self.text.len() && self.text[e1] == '.' && e1 + 1 < self.text.len()
                    && digit_char(self.text[e1 + 1]);
                let e2 = if frac {
                    let r = self.scan_digits(e1 + 1);
                    proof {
                        lemma_digits_end(s, e1 + 1);
                    }
                    r
                } else {
                    e1
                };
                proof {
                    assert(e1 == digits_end(s, p));
                    assert(e2 == num_end(s, p));
                }
                let whole = match self.digits_value(self.curr, e1, 0) {
                    Some(v) => v,
                    None => {
                        return Err(TokenizerError::NumberTooLarge);
                    },
                };
                let numerator = if frac {
                    match self.digits_value(e1 + 1, e2, whole) {
                        Some(v) => v,
                        None => {
                            return Err(TokenizerError::NumberTooLarge);
                        },
                    }
                } else {
                    whole
                };
                let denominator = if frac {
                    match pow10(e2 - e1 - 1) {
                        Some(v) => v,
                        None => {
                            return Err(TokenizerError::NumberTooLarge);
                        },
                    }
                } else {
                    1
                };
                let value = match reduce(numerator, denominator) {
                    Some(v) => v,
                    None => {
                        return Err(TokenizerError::NumberTooLarge);
                    },
                };
                proof {
                    assert(num_value(s, p) == Some(value));
                }
                let ghost old_tokens = tokens@;
                tokens.push(Token::Num(value));
                self.curr = e2;
                proof {
                    lemma_unfold_digit(s, p);
                    lemma_step(s, p0, p, old_tokens, Token::Num(value), e2 as int, self.pos());
                }
            } else if char_is_alphabetic(c) {
                let ghost old_tokens = tokens@;
                if self.word3('s', 'i', 'n') {
                    tokens.push(Token::Func(FuncType::Sin));
                    self.advance_n(3);
                    proof {
                        lemma_unfold_alpha(s, p, Token::Func(FuncType::Sin), p + 3);
                        lemma_step(s, p0, p, old_tokens, Token::Func(FuncType::Sin), p + 3, self.pos());
                    }
                } else if self.word3('c', 'o', 's') {
                    tokens.push(Token::Func(FuncType::Cos));
                    self.advance_n(3);
                    proof {
                        lemma_unfold_alpha(s, p, Token::Func(FuncType::Cos), p + 3);
                        lemma_step(s, p0, p, old_tokens, Token::Func(FuncType::Cos), p + 3, self.pos());
                    }
                } else if self.word3('t', 'a', 'n') {
                    tokens.push(Token::Func(FuncType::Tan));
                    self.advance_n(3);
                    proof {
                        lemma_unfold_alpha(s, p, Token::Func(FuncType::Tan), p + 3);
                        lemma_step(s, p0, p, old_tokens, Token::Func(FuncType::Tan), p + 3, self.pos());
                    }
                } else if self.word3('c', 's', 'c') {
                    tokens.push(Token::Func(FuncType::Csc));
                    self.advance_n(3);
                    proof {
                        lemma_unfold_alpha(s, p, Token::Func(FuncType::Csc), p + 3);
                        lemma_step(s, p0, p, old_tokens, Token::Func(FuncType::Csc), p + 3, self.pos());
                    }
                } else if self.word3('s', 'e', 'c') {
                    tokens.push(Token::Func(FuncType::Sec));
                    self.advance_n(3);
                    proof {
                        lemma_unfold_alpha(s, p, Token::Func(FuncType::Sec), p + 3);
                        lemma_step(s, p0, p, old_tokens, Token::Func(FuncType::Sec), p + 3, self.pos());
                    }
                } else if self.word3('c', 'o', 't') {
                    tokens.push(Token::Func(FuncType::Cot));
                    self.advance_n(3);
                    proof {
                        lemma_unfold_alpha(s, p, Token::Func(FuncType::Cot), p + 3);
                        lemma_step(s, p0, p, old_tokens, Token::Func(FuncType::Cot), p + 3, self.pos());
                    }
                } else if self.word2('l', 'n') {
                    tokens.push(Token::Func(FuncType::Ln));
                    self.advance_n(2);
                    proof {
                        lemma_unfold_alpha(s, p, Token::Func(FuncType::Ln), p + 2);
                        lemma_step(s, p0, p, old_tokens, Token::Func(FuncType::Ln), p + 2, self.pos());
                    }
                } else if self.word3('l', 'o', 'g') {
                    tokens.push(Token::Func(FuncType::Log));
                    self.advance_n(3);
                    proof {
                        lemma_unfold_alpha(s, p, Token::Func(FuncType::Log), p + 3);
                        lemma_step(s, p0, p, old_tokens, Token::Func(FuncType::Log), p + 3, self.pos());
                    }
                } else {
                    tokens.push(Token::Var(c));
                    self.advance();
                    proof {
                        lemma_unfold_alpha(s, p, Token::Var(c), p + 1);
                        lemma_step(s, p0, p, old_tokens, Token::Var(c), p + 1, self.pos());
                    }
                }
            } else {
                let tok: Token;
                if c == '+' {
                    tok = Token::Plus;
                } else if c == '-' {
                    tok = Token::Minus;
                } else if c == '*' {
                    tok = Token::Mul;
                } else if c == '/' {
                    tok = Token::Div;
                } else if c == '^' {
                    tok = Token::Raise;
                } else if c == '(' {
                    tok = Token::LParen;
                } else if c == ')' {
                    tok = Token::RParen;
                } else if c == '=' {
                    tok = Token::Equals;
                } else {
                    return Err(TokenizerError::IllegalChar(c));
                }
                let ghost old_tokens = tokens@;
                tokens.push(tok);
                self.curr = self.curr + 1;
                proof {
                    lemma_step(s, p0, p, old_tokens, tok, p + 1, self.pos());
                }
            }
        }
        tokens.push(Token::Eof);
        proof {
            assert(tokenize_s(s, self.pos()) == Ok::<Seq<Token>, TokenizerError>(
                seq![Token::Eof],
            ));
            assert(tokens@ =~= tokens@.subrange(0, tokens@.len() - 1) + seq![Token::Eof]);
        }
        Ok(tokens)
    }

    /// The end of the run of digits starting at `from`.
    fn scan_digits(&self, from: usize) -> (r: usize)
        requires
            self.wf(),
            from <= self.chars().len(),
        ensures
            r == digits_end(self.chars(), from as int),
            from <= r <= self.chars().len(),
    {
        let mut i: usize = from;
        while i < self.text.len() && digit_char(self.text[i])
            invariant
                from <= i <= self.text@.len(),
                digits_end(self.chars(), from as int) == digits_end(self.chars(), i as int),
            decreases self.text@.len() - i,
        {
            i = i + 1;
        }
        i
    }

    /// `word` (of three characters) sits at the cursor.
    fn word3(&self, a: char, b: char, c: char) -> (r: bool)
        requires
            self.wf(),
        ensures
            r == word_at(self.chars(), self.pos(), seq![a, b, c]),
    {
        let len = self.text.len();
        if self.curr < len && len - self.curr >= 3 {
            let r = self.text[self.curr] == a && self.text[self.curr + 1] == b && self.text[self.curr
                + 2] == c;
            proof {
                if r {
                    assert(self.chars().subrange(self.pos(), self.pos() + 3) =~= seq![a, b, c]);
                } else {
                    assert(self.chars().subrange(self.pos(), self.pos() + 3) != seq![a, b, c])
                        by {
                        let w = self.chars().subrange(self.pos(), self.pos() + 3);
                        if w == seq![a, b, c] {
                            assert(w[0] == a && w[1] == b && w[2] == c);
                        }
                    }
                }
            }
            r
        } else {
            false
        }
    }

    /// `word` (of two characters) sits at the cursor.
    fn word2(&self, a: char, b: char) -> (r: bool)
        requires
            self.wf(),
        ensures
            r == word_at(self.chars(), self.pos(), seq![a, b]),
    {
        let len = self.text.len();
        if self.curr < len && len - self.curr >= 2 {
            let r = self.text[self.curr] == a && self.text[self.curr + 1] == b;
            proof {
                if r {
                    assert(self.chars().subrange(self.pos(), self.pos() + 2) =~= seq![a, b]);
                } else {
                    assert(self.chars().subrange(self.pos(), self.pos() + 2) != seq![a, b]) by {
                        let w = self.chars().subrange(self.pos(), self.pos() + 2);
                        if w == seq![a, b] {
                            assert(w[0] == a && w[1] == b);
                        }
                    }
                }
            }
            r
        } else {
            false
        }
    }

    /// Fold the digits of `chars[from..to]` onto `acc0` in base ten.
    fn digits_value(&self, from: usize, to: usize, acc0: i128) -> (r: Option<i128>)
        requires
            self.wf(),
            from <= to <= self.chars().len(),
            acc0 >= 0,
            forall|j: int| from <= j < to ==> is_digit_s(#[trigger] self.chars()[j]),
        ensures
            match digits_acc(self.chars(), from as int, to as int, acc0 as int) {
                Some(v) => r matches Some(x) && x == v && v >= 0,
                None => r is None,
            },
    {
        let mut acc: i128 = acc0;
        let mut i: usize = from;
        while i < to
            invariant
                self.wf(),
                from <= i <= to <= self.chars().len(),
                acc >= 0,
                forall|j: int| from <= j < to ==> is_digit_s(#[trigger] self.chars()[j]),
                digits_acc(self.chars(), from as int, to as int, acc0 as int) == digits_acc(
                    self.chars(),
                    i as int,
                    to as int,
                    acc as int,
                ),
            decreases to - i,
        {
            let u = self.text[i] as u32;
            let d: i128 = (u - 48) as i128;
            let m = match acc.checked_mul(10) {
                Some(v) => v,
                None => {
                    proof {
                        assert(acc * 10 + digit_val(self.chars()[i as int]) > i128::MAX as int);
                    }
                    return None;
                },
            };
            let v = match m.checked_add(d) {
                Some(v) => v,
                None => {
                    return None;
                },
            };
            acc = v;
            i = i + 1;
        }
        Some(acc)
    }

    /// Take the longest run of characters from the cursor on which `pred`
    /// accepts; `None` when the first one is already refused.
    pub fn take_while<F: Fn(char) -> bool>(&mut self, pred: F) -> (r: Option<Vec<char>>)
        requires
            old(self).wf(),
            forall|c: char| #[trigger] pred.requires((c,)),
        ensures
            final(self).chars() == old(self).chars(),
            final(self).wf(),
            old(self).pos() <= final(self).pos(),
            match r {
                Some(taken) => {
                    &&& old(self).pos() < final(self).pos()
                    &&& taken@ == old(self).chars().subrange(old(self).pos(), final(self).pos())
                    &&& forall|i: int|
                        old(self).pos() <= i < final(self).pos() ==> pred.ensures(
                            (old(self).chars()[i],),
                            true,
                        )
                    &&& final(self).pos() < final(self).chars().len() ==> pred.ensures(
                        (old(self).chars()[final(self).pos()],),
                        false,
                    )
                },
                None => {
                    &&& final(self).pos() == old(self).pos()
                    &&& old(self).pos() < old(self).chars().len() ==> pred.ensures(
                        (old(self).chars()[old(self).pos()],),
                        false,
                    )
                },
            },
    {
        let start = self.curr;
        let mut stopped_by_pred = false;
        while self.curr < self.text.len() && !stopped_by_pred
            invariant
                self.chars() == old(self).chars(),
                start == old(self).pos(),
                start <= self.curr <= self.text@.len(),
                forall|c: char| #[trigger] pred.requires((c,)),
                forall|i: int|
                    start <= i < self.curr ==> pred.ensures((old(self).chars()[i],), true),
                stopped_by_pred ==> self.curr < self.text@.len() && pred.ensures(
                    (old(self).chars()[self.curr as int],),
                    false,
                ),
            decreases self.text@.len() - self.curr + (if stopped_by_pred {
                0int
            } else {
                1int
            }),
        {
            let c = self.text[self.curr];
            if pred(c) {
                self.curr = self.curr + 1;
            } else {
                stopped_by_pred = true;
            }
        }
        if self.curr == start {
            None
        } else {
            let mut taken: Vec<char> = Vec::new();
            let mut i: usize = start;
            while i < self.curr
                invariant
                    start <= i <= self.curr <= self.text@.len(),
                    taken@ == self.text@.subrange(start as int, i as int),
                decreases self.curr - i,
            {
                taken.push(self.text[i]);
                proof {
                    assert(taken@ =~= self.text@.subrange(start as int, i + 1));
                }
                i = i + 1;
            }
            Some(taken)
        }
    }
}

} // verus!
