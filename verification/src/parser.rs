//! The tokenizer: from a raw string to an ordered sequence of symbols.
//!
//! The scan walks the input left to right, buffering the digits of the
//! number at hand and emitting symbols.  A leading `+` or `-` (before any
//! symbol has been emitted) is kept as the sign of the next number; `%`
//! divides the last emitted number by one hundred in place.  The machine
//! `tok_step`/`tok_from` is the exact mathematical mirror of the scan, and
//! the exec code is verified against it.

use vstd::prelude::*;

use crate::decimal::{
    bd_rep, dec_add_w, dec_div_i32, dec_div_w, dec_from_chars, dec_mul_w, dec_sub_w, str_chars,
};
use crate::error::{AppError, ErrRep};
use crate::model::{
    dec_add, dec_div, dec_mul, dec_sub, in_bounds, is_lit_char, lit_ok, lit_rep, lit_shaped,
    DecRep,
};

verus! {

/// Mathematical image of a [`Symbol`].
pub ghost enum SymRep {
    Dec(DecRep),
    Op(Operator),
}

/// One of the four binary operators.
#[derive(Debug, Clone, Copy, PartialEq, Eq, Structural)]
pub enum Operator {
    Plus,
    Minus,
    Division,
    Multiplication,
}

/// What applying an operator to two representations yields.
pub open spec fn spec_operate(op: Operator, a: DecRep, b: DecRep) -> DecRep {
    match op {
        Operator::Plus => dec_add(a, b),
        Operator::Minus => dec_sub(a, b),
        Operator::Division => dec_div(a, b),
        Operator::Multiplication => dec_mul(a, b),
    }
}

impl Operator {
    /// Apply this operator to two decimals.  Division is only defined for
    /// a nonzero divisor (a zero divisor panics in the decimal library).
    pub fn operate(&self, v1: &bigdecimal::BigDecimal, v2: &bigdecimal::BigDecimal) -> (r:
        bigdecimal::BigDecimal)
        requires
            in_bounds(bd_rep(v1)),
            in_bounds(bd_rep(v2)),
            *self is Division ==> bd_rep(v2).mant != 0,
        ensures
            bd_rep(&r) == spec_operate(*self, bd_rep(v1), bd_rep(v2)),
    {
        match self {
            Operator::Plus => dec_add_w(v1, v2),
            Operator::Minus => dec_sub_w(v1, v2),
            Operator::Division => dec_div_w(v1, v2),
            Operator::Multiplication => dec_mul_w(v1, v2),
        }
    }
}

/// A lexical unit: a decimal literal or an operator.
#[derive(Debug)]
pub enum Symbol {
    Decimal(bigdecimal::BigDecimal),
    Operator(Operator),
}

impl View for Symbol {
    type V = SymRep;

    open spec fn view(&self) -> SymRep {
        match self {
            Symbol::Decimal(d) => SymRep::Dec(bd_rep(d)),
            Symbol::Operator(o) => SymRep::Op(*o),
        }
    }
}

impl Clone for Symbol {
    fn clone(&self) -> (r: Self)
        ensures
            r@ == self@,
    {
        match self {
            Symbol::Decimal(d) => Symbol::Decimal(d.clone()),
            Symbol::Operator(o) => Symbol::Operator(*o),
        }
    }
}

/// The image of a sequence of symbols.
pub open spec fn syms_view(v: Seq<Symbol>) -> Seq<SymRep> {
    v.map_values(|s: Symbol| s@)
}

/// The longest input the tokenizer accepts; a longer one exceeds the
/// machine limits this library is verified under.
pub open spec fn max_input_len() -> int {
    0x10_0000_0000
}

/// State of the scan: the symbols emitted so far and the buffered digits
/// of the number at hand.
pub ghost struct TokSt {
    pub out: Seq<SymRep>,
    pub cache: Seq<char>,
}

/// The empty scan state.
pub open spec fn tok_init() -> TokSt {
    TokSt { out: Seq::empty(), cache: Seq::empty() }
}

/// Flush the buffer: an empty buffer is a no-op; otherwise the buffer must
/// parse as a decimal literal (else `InvalidString`), the last emitted
/// symbol must not already be a number (else `InvalidExpression`), and the
/// parsed number is emitted.
pub open spec fn tok_flush(st: TokSt) -> Result<TokSt, ErrRep> {
    if st.cache.len() == 0 {
        Ok(st)
    } else if !lit_ok(st.cache) {
        Err(ErrRep::InvalidString(st.cache))
    } else if st.out.len() > 0 && st.out.last() is Dec {
        Err(ErrRep::InvalidExpression)
    } else {
        Ok(TokSt { out: st.out.push(SymRep::Dec(lit_rep(st.cache))), cache: Seq::empty() })
    }
}

/// The percent modifier applied to a representation: division by one
/// hundred.
pub open spec fn percent_of(d: DecRep) -> DecRep {
    dec_div(d, DecRep { mant: 100, scale: 0 })
}

/// One step of the scan.  `None` marks a value beyond the machine bounds
/// this library is verified under (nothing a physical input reaches).
pub open spec fn tok_step(st: TokSt, c: char) -> Option<Result<TokSt, ErrRep>> {
    if is_lit_char(c) {
        Some(Ok(TokSt { out: st.out, cache: st.cache.push(c) }))
    } else if c == '+' || c == '-' {
        let op = if c == '+' {
            Operator::Plus
        } else {
            Operator::Minus
        };
        match tok_flush(st) {
            Ok(st1) => Some(
                Ok(
                    if st1.out.len() == 0 {
                        TokSt { out: st1.out, cache: seq![c] }
                    } else {
                        TokSt { out: st1.out.push(SymRep::Op(op)), cache: st1.cache }
                    },
                ),
            ),
            Err(e) => Some(Err(e)),
        }
    } else if c == '/' || c == '*' || c == '\u{d7}' {
        let op = if c == '/' {
            Operator::Division
        } else {
            Operator::Multiplication
        };
        match tok_flush(st) {
            Ok(st1) => Some(Ok(TokSt { out: st1.out.push(SymRep::Op(op)), cache: st1.cache })),
            Err(e) => Some(Err(e)),
        }
    } else if c == '%' {
        match tok_flush(st) {
            Ok(st1) => if st1.out.len() == 0 {
                Some(Err(ErrRep::InvalidPercent))
            } else {
                match st1.out.last() {
                    SymRep::Dec(d) => if !in_bounds(d) {
                        None
                    } else {
                        Some(
                            Ok(
                                TokSt {
                                    out: st1.out.update(
                                        st1.out.len() - 1,
                                        SymRep::Dec(percent_of(d)),
                                    ),
                                    cache: st1.cache,
                                },
                            ),
                        )
                    },
                    SymRep::Op(_) => Some(Err(ErrRep::InvalidPercent)),
                }
            },
            Err(e) => Some(Err(e)),
        }
    } else if c == ' ' {
        Some(Ok(st))
    } else {
        Some(Err(ErrRep::InvalidChar(c)))
    }
}

/// The scan from a given state over the rest of the input, with the final
/// flush at the end.
pub open spec fn tok_from(st: TokSt, s: Seq<char>) -> Option<Result<Seq<SymRep>, ErrRep>>
    decreases s.len(),
{
    if s.len() == 0 {
        match tok_flush(st) {
            Ok(st1) => Some(Ok(st1.out)),
            Err(e) => Some(Err(e)),
        }
    } else {
        match tok_step(st, s[0]) {
            Option::None => None,
            Option::Some(Result::Err(e)) => Some(Err(e)),
            Option::Some(Result::Ok(st1)) => tok_from(st1, s.drop_first()),
        }
    }
}

/// What tokenizing a string yields: the symbol sequence, or the first
/// error.  `None` marks an input beyond the machine bounds this library is
/// verified under (an overlong input, or an intermediate value whose
/// mantissa or scale no machine could hold).
pub open spec fn spec_tokenize(s: Seq<char>) -> Option<Result<Seq<SymRep>, ErrRep>> {
    if s.len() > max_input_len() {
        None
    } else {
        tok_from(tok_init(), s)
    }
}

proof fn lemma_syms_view_push(v: Seq<Symbol>, s: Symbol)
    ensures
        syms_view(v.push(s)) == syms_view(v).push(s@),
{
    assert(syms_view(v.push(s)) =~= syms_view(v).push(s@));
}

/// The scan's working state: the symbols emitted so far and the character
/// buffer of the number being read.
struct Parser {
    expression: Vec<Symbol>,
    cache: Vec<char>,
}

impl Parser {
    /// The mathematical state this working state stands for.
    spec fn st(&self) -> TokSt {
        TokSt { out: syms_view(self.expression@), cache: self.cache@ }
    }

    /// Flush the pending buffer into the symbol sequence.
    fn flush(&mut self) -> (r: Result<(), AppError>)
        requires
            old(self).cache@.len() <= crate::model::scale_bound(),
            lit_shaped(old(self).cache@),
        ensures
            match tok_flush(old(self).st()) {
                Ok(st1) => r is Ok && final(self).st() == st1,
                Err(e) => r matches Err(ae) && ae@ == e,
            },
    {
        if self.cache.len() == 0 {
            return Ok(());
        }
        match dec_from_chars(&self.cache) {
            Err(s) => Err(AppError::InvalidString(s)),
            Ok(d) => {
                let n = self.expression.len();
                if n > 0 {
                    let last_is_dec = match &self.expression[n - 1] {
                        Symbol::Decimal(_) => true,
                        Symbol::Operator(_) => false,
                    };
                    if last_is_dec {
                        return Err(AppError::InvalidExpression);
                    }
                }
                let sym = Symbol::Decimal(d);
                proof {
                    lemma_syms_view_push(self.expression@, sym);
                }
                self.expression.push(sym);
                self.cache = Vec::new();
                Ok(())
            },
        }
    }

    /// A `+` or `-`: a leading sign joins the next number's buffer, any
    /// other stands as a binary operator.
    fn on_sigin_operator(&mut self, c: char, op: Operator) -> (r: Result<(), AppError>)
        requires
            old(self).cache@.len() <= crate::model::scale_bound(),
            lit_shaped(old(self).cache@),
            c == '+' || c == '-',
            op == (if c == '+' {
                Operator::Plus
            } else {
                Operator::Minus
            }),
        ensures
            match tok_step(old(self).st(), c) {
                Option::Some(Result::Ok(st1)) => r is Ok && final(self).st() == st1,
                Option::Some(Result::Err(e)) => r matches Err(ae) && ae@ == e,
                Option::None => false,
            },
    {
        match self.flush() {
            Err(e) => {
                return Err(e);
            },
            Ok(()) => {},
        }
        if self.expression.len() == 0 {
            self.cache.push(c);
            proof {
                assert(self.cache@ =~= seq![c]);
            }
        } else {
            let sym = Symbol::Operator(op);
            proof {
                lemma_syms_view_push(self.expression@, sym);
            }
            self.expression.push(sym);
        }
        Ok(())
    }
}

/// Tokenize the input: scan it left to right into a sequence of decimal
/// literals and operators, or fail with the first lexical or structural
/// error.
pub fn parse(input: &str) -> (r: Result<Vec<Symbol>, AppError>)
    requires
        spec_tokenize(input@) is Some,
    ensures
        (r matches Ok(v) ==> spec_tokenize(input@) == Some(Ok::<Seq<SymRep>, ErrRep>(
            syms_view(v@),
        ))),
        (r matches Err(e) ==> spec_tokenize(input@) == Some(
            Err::<Seq<SymRep>, ErrRep>(e@),
        )),
{
    let parser = Parser { expression: Vec::new(), cache: Vec::new() };
    parser.parse(input)
}

impl Parser {
    /// Scan the whole input from the empty state.
    fn parse(self, input: &str) -> (r: Result<Vec<Symbol>, AppError>)
        requires
            spec_tokenize(input@) is Some,
            self.expression@.len() == 0,
            self.cache@.len() == 0,
        ensures
            (r matches Ok(v) ==> spec_tokenize(input@) == Some(Ok::<Seq<SymRep>, ErrRep>(
                syms_view(v@),
            ))),
            (r matches Err(e) ==> spec_tokenize(input@) == Some(
                Err::<Seq<SymRep>, ErrRep>(e@),
            )),
    {
    let chars = str_chars(input);
    let mut p = self;
    let ghost whole = spec_tokenize(input@);
    proof {
        assert(syms_view(p.expression@) =~= Seq::<SymRep>::empty());
        assert(p.cache@ =~= Seq::<char>::empty());
        assert(p.st() == tok_init());
        assert(chars@.skip(0) =~= chars@);
    }
    let n = chars.len();
    let mut i: usize = 0;
    while i < n
        invariant
            n == chars@.len(),
            chars@ == input@,
            i <= n,
            whole == spec_tokenize(input@),
            whole is Some,
            input@.len() <= max_input_len(),
            tok_from(p.st(), chars@.skip(i as int)) == whole,
            p.cache@.len() <= i,
            lit_shaped(p.cache@),
        decreases n - i,
    {
        let ghost st0 = p.st();
        let ghost rest0 = chars@.skip(i as int);
        proof {
            assert(rest0.len() > 0);
            assert(rest0[0] == chars@[i as int]);
            assert(rest0.drop_first() =~= chars@.skip(i as int + 1));
        }
        let c = chars[i];
        if (c >= '0' && c <= '9') || c == '.' {
            p.cache.push(c);
        } else {
            match c {
                '+' => {
                    match p.on_sigin_operator(c, Operator::Plus) {
                        Err(e) => {
                            return Err(e);
                        },
                        Ok(()) => {},
                    }
                },
                '-' => {
                    match p.on_sigin_operator(c, Operator::Minus) {
                        Err(e) => {
                            return Err(e);
                        },
                        Ok(()) => {},
                    }
                },
                '/' => {
                    match p.flush() {
                        Err(e) => {
                            return Err(e);
                        },
                        Ok(()) => {},
                    }
                    let sym = Symbol::Operator(Operator::Division);
                    proof {
                        lemma_syms_view_push(p.expression@, sym);
                    }
                    p.expression.push(sym);
                },
                '*' | '\u{d7}' => {
                    match p.flush() {
                        Err(e) => {
                            return Err(e);
                        },
                        Ok(()) => {},
                    }
                    let sym = Symbol::Operator(Operator::Multiplication);
                    proof {
                        lemma_syms_view_push(p.expression@, sym);
                    }
                    p.expression.push(sym);
                },
                '%' => {
                    match p.flush() {
                        Err(e) => {
                            return Err(e);
                        },
                        Ok(()) => {},
                    }
                    let m = p.expression.len();
                    if m == 0 {
                        return Err(AppError::InvalidPercent);
                    }
                    let last = p.expression.pop().unwrap();
                    match last {
                        Symbol::Decimal(d) => {
                            proof {
                                assert(tok_step(st0, c) is Some) by {
                                    if tok_step(st0, c) is None {
                                        assert(tok_from(st0, rest0) is None);
                                    }
                                }
                            }
                            let nd = dec_div_i32(&d, 100);
                            let sym = Symbol::Decimal(nd);
                            proof {
                                lemma_syms_view_push(p.expression@, sym);
                            }
                            p.expression.push(sym);
                            proof {
                                let st1 = match tok_flush(st0) {
                                    Ok(s) => s,
                                    Err(_) => st0,
                                };
                                assert(syms_view(p.expression@) =~= st1.out.update(
                                    st1.out.len() - 1,
                                    SymRep::Dec(percent_of(bd_rep(&d))),
                                ));
                            }
                        },
                        Symbol::Operator(_) => {
                            return Err(AppError::InvalidPercent);
                        },
                    }
                },
                ' ' => {},
                _ => {
                    return Err(AppError::InvalidChar(c));
                },
            }
        }
        i = i + 1;
    }
    match p.flush() {
        Err(e) => {
            return Err(e);
        },
        Ok(()) => {},
    }
    proof {
        assert(chars@.skip(n as int) =~= Seq::<char>::empty());
    }
    Ok(p.expression)
    }
}

} // verus!
