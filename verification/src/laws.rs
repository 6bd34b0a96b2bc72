//! Laws of the evaluator, stated and proved against the specification
//! that the executable code is verified to follow.

use vstd::prelude::*;

use crate::error::ErrRep;
use crate::evaluator::{op_ok, pass_step, spec_eval_syms, spec_evaluate, spec_pass};
use crate::model::{
    count_digits, count_dots, dec_digits, digit_char, digit_val, first_dot, iabs, is_digit,
    is_lit_char, lit_body, lit_mant, lit_ok, lit_rep, lit_scale, lit_sign, n_digits, pow10,
    render, zeros, DecRep,
};
use crate::parser::{
    max_input_len, spec_operate, spec_tokenize, tok_flush, tok_from, tok_init, tok_step, Operator,
    SymRep, TokSt,
};

verus! {

/// A string with its spaces removed.
pub open spec fn strip_spaces(s: Seq<char>) -> Seq<char>
    decreases s.len(),
{
    if s.len() == 0 {
        Seq::empty()
    } else if s[0] == ' ' {
        strip_spaces(s.drop_first())
    } else {
        seq![s[0]] + strip_spaces(s.drop_first())
    }
}

proof fn lemma_strip_spaces_len(s: Seq<char>)
    ensures
        strip_spaces(s).len() <= s.len(),
    decreases s.len(),
{
    if s.len() > 0 {
        lemma_strip_spaces_len(s.drop_first());
    }
}

proof fn lemma_tok_from_strip_spaces(st: TokSt, s: Seq<char>)
    ensures
        tok_from(st, s) == tok_from(st, strip_spaces(s)),
    decreases s.len(),
{
    if s.len() == 0 {
    } else if s[0] == ' ' {
        lemma_tok_from_strip_spaces(st, s.drop_first());
    } else {
        let t = strip_spaces(s);
        assert(t == seq![s[0]] + strip_spaces(s.drop_first()));
        assert(t.len() > 0);
        assert(t[0] == s[0]);
        assert(t.drop_first() =~= strip_spaces(s.drop_first()));
        match tok_step(st, s[0]) {
            Option::Some(Result::Ok(st1)) => {
                lemma_tok_from_strip_spaces(st1, s.drop_first());
            },
            _ => {},
        }
    }
}

/// Whitespace is insignificant: an input evaluates exactly as the same
/// input with every space removed.
pub proof fn lemma_whitespace_insignificant(s: Seq<char>)
    requires
        s.len() <= max_input_len(),
    ensures
        spec_evaluate(s) == spec_evaluate(strip_spaces(s)),
{
    lemma_strip_spaces_len(s);
    lemma_tok_from_strip_spaces(
        TokSt { out: Seq::empty(), cache: Seq::empty() },
        s,
    );
}

/// Re-evaluation is idempotent: the contract of `evaluate` pins its result
/// to `spec_evaluate` of the input alone, so any two results of evaluating
/// one input are the same.
pub proof fn lemma_evaluate_deterministic(
    s: Seq<char>,
    r1: Result<Option<Seq<char>>, ErrRep>,
    r2: Result<Option<Seq<char>>, ErrRep>,
)
    requires
        spec_evaluate(s) == Some(r1),
        spec_evaluate(s) == Some(r2),
    ensures
        r1 == r2,
{
}

/// The scan without the final flush.
pub open spec fn tok_run(st: TokSt, s: Seq<char>) -> Option<Result<TokSt, ErrRep>>
    decreases s.len(),
{
    if s.len() == 0 {
        Some(Ok(st))
    } else {
        match tok_step(st, s[0]) {
            Option::None => None,
            Option::Some(Result::Err(e)) => Some(Err(e)),
            Option::Some(Result::Ok(st1)) => tok_run(st1, s.drop_first()),
        }
    }
}

proof fn lemma_tok_from_is_run_then_flush(st: TokSt, s: Seq<char>)
    ensures
        tok_from(st, s) == (match tok_run(st, s) {
            Option::Some(Result::Ok(st1)) => match tok_flush(st1) {
                Result::Ok(st2) => Some(Ok::<Seq<SymRep>, ErrRep>(st2.out)),
                Result::Err(e) => Some(Err::<Seq<SymRep>, ErrRep>(e)),
            },
            Option::Some(Result::Err(e)) => Some(Err::<Seq<SymRep>, ErrRep>(e)),
            Option::None => None,
        }),
    decreases s.len(),
{
    if s.len() > 0 {
        match tok_step(st, s[0]) {
            Option::Some(Result::Ok(st1)) => {
                lemma_tok_from_is_run_then_flush(st1, s.drop_first());
            },
            _ => {},
        }
    }
}

proof fn lemma_tok_run_append(st: TokSt, u: Seq<char>, v: Seq<char>)
    ensures
        tok_run(st, u + v) == (match tok_run(st, u) {
            Option::Some(Result::Ok(st1)) => tok_run(st1, v),
            Option::Some(Result::Err(e)) => Some(Err::<TokSt, ErrRep>(e)),
            Option::None => None,
        }),
    decreases u.len(),
{
    if u.len() == 0 {
        assert(u + v =~= v);
    } else {
        let w = u + v;
        assert(w.len() > 0);
        assert(w[0] == u[0]);
        assert(w.drop_first() =~= u.drop_first() + v);
        match tok_step(st, u[0]) {
            Option::Some(Result::Ok(st1)) => {
                lemma_tok_run_append(st1, u.drop_first(), v);
            },
            _ => {},
        }
    }
}

proof fn lemma_tok_run_lits(st: TokSt, s: Seq<char>)
    requires
        forall|i: int| 0 <= i < s.len() ==> is_lit_char(#[trigger] s[i]),
    ensures
        tok_run(st, s) == Some(Ok::<TokSt, ErrRep>(TokSt { out: st.out, cache: st.cache + s })),
    decreases s.len(),
{
    if s.len() == 0 {
        assert(st.cache + s =~= st.cache);
    } else {
        assert(is_lit_char(s[0]));
        let st1 = TokSt { out: st.out, cache: st.cache.push(s[0]) };
        lemma_tok_run_lits(st1, s.drop_first());
        assert(st.cache.push(s[0]) + s.drop_first() =~= st.cache + s);
    }
}

proof fn lemma_digit_char_val(d: int)
    requires
        0 <= d <= 9,
    ensures
        is_digit(digit_char(d)),
        digit_val(digit_char(d)) == d,
        digit_char(d) != '.',
{
    assert(('0' as int) == 48);
    assert(is_digit(digit_char(d)) && digit_val(digit_char(d)) == d && digit_char(d) != '.');
}

proof fn lemma_dec_digits_all_digits(m: int)
    requires
        m >= 0,
    ensures
        dec_digits(m).len() == n_digits(m),
        dec_digits(m).len() >= 1,
        forall|i: int| 0 <= i < dec_digits(m).len() ==> is_digit(#[trigger] dec_digits(m)[i]),
        forall|i: int| 0 <= i < dec_digits(m).len() ==> #[trigger] dec_digits(m)[i] != '.',
    decreases m,
{
    if m < 10 {
        lemma_digit_char_val(m);
    } else {
        lemma_dec_digits_all_digits(m / 10);
        lemma_digit_char_val(m % 10);
    }
}

proof fn lemma_counts_all_digits(s: Seq<char>)
    requires
        forall|i: int| 0 <= i < s.len() ==> is_digit(#[trigger] s[i]),
    ensures
        count_digits(s) == s.len(),
        count_dots(s) == 0,
    decreases s.len(),
{
    if s.len() > 0 {
        assert(is_digit(s.last()));
        assert(forall|i: int| 0 <= i < s.drop_last().len() ==> is_digit(#[trigger] s.drop_last()[i]));
        lemma_counts_all_digits(s.drop_last());
    }
}

proof fn lemma_counts_append(a: Seq<char>, b: Seq<char>)
    ensures
        count_digits(a + b) == count_digits(a) + count_digits(b),
        count_dots(a + b) == count_dots(a) + count_dots(b),
    decreases b.len(),
{
    if b.len() == 0 {
        assert(a + b =~= a);
    } else {
        assert((a + b).drop_last() =~= a + b.drop_last());
        assert((a + b).last() == b.last());
        lemma_counts_append(a, b.drop_last());
    }
}

proof fn lemma_lit_mant_append(a: Seq<char>, b: Seq<char>)
    requires
        forall|i: int| 0 <= i < b.len() ==> is_lit_char(#[trigger] b[i]),
    ensures
        lit_mant(a + b) == lit_mant(a) * pow10(count_digits(b)) + lit_mant(b),
    decreases b.len(),
{
    if b.len() == 0 {
        assert(a + b =~= a);
        assert(pow10(0) == 1);
    } else {
        assert((a + b).drop_last() =~= a + b.drop_last());
        assert((a + b).last() == b.last());
        assert(forall|i: int|
            0 <= i < b.drop_last().len() ==> is_lit_char(#[trigger] b.drop_last()[i]));
        lemma_lit_mant_append(a, b.drop_last());
        if b.last() == '.' {
        } else {
            assert(is_lit_char(b[b.len() - 1]));
            assert(is_digit(b.last()));
            let la = lit_mant(a);
            let cd = count_digits(b.drop_last());
            assert(10 * (la * pow10(cd) + lit_mant(b.drop_last())) + digit_val(b.last()) == la
                * pow10(cd + 1) + (10 * lit_mant(b.drop_last()) + digit_val(b.last()))) by {
                assert(pow10(cd + 1) == 10 * pow10(cd));
                assert(10 * (la * pow10(cd)) == la * (10 * pow10(cd)))
                    by (nonlinear_arith);
            }
        }
    }
}

proof fn lemma_lit_mant_digits(m: int)
    requires
        m >= 0,
    ensures
        lit_mant(dec_digits(m)) == m,
    decreases m,
{
    if m < 10 {
        lemma_digit_char_val(m);
        let s = dec_digits(m);
        assert(s.len() == 1);
        assert(s.last() == digit_char(m));
        assert(s.drop_last() =~= Seq::<char>::empty());
        assert(lit_mant(s) == 10 * lit_mant(Seq::<char>::empty()) + digit_val(digit_char(m)));
    } else {
        lemma_lit_mant_digits(m / 10);
        lemma_digit_char_val(m % 10);
        let s = dec_digits(m / 10).push(digit_char(m % 10));
        assert(s.drop_last() =~= dec_digits(m / 10));
        vstd::arithmetic::div_mod::lemma_fundamental_div_mod(m, 10);
    }
}

proof fn lemma_first_dot_nodot(s: Seq<char>)
    requires
        forall|i: int| 0 <= i < s.len() ==> #[trigger] s[i] != '.',
    ensures
        first_dot(s) == -1,
    decreases s.len(),
{
    if s.len() > 0 {
        assert(forall|i: int|
            0 <= i < s.drop_first().len() ==> #[trigger] s.drop_first()[i] != '.');
        lemma_first_dot_nodot(s.drop_first());
    }
}

proof fn lemma_zeros_facts(k: int)
    requires
        k >= 0,
    ensures
        zeros(k).len() == k,
        forall|i: int| 0 <= i < k ==> #[trigger] zeros(k)[i] == '0',
        forall|i: int| 0 <= i < k ==> is_digit(#[trigger] zeros(k)[i]),
        lit_mant(zeros(k)) == 0,
        count_digits(zeros(k)) == k,
        count_dots(zeros(k)) == 0,
    decreases k,
{
    assert(('0' as int) == 48);
    if k > 0 {
        lemma_zeros_facts(k - 1);
        assert(zeros(k).drop_last() =~= zeros(k - 1));
        assert(zeros(k).last() == '0');
    }
}

proof fn lemma_first_dot_append(a: Seq<char>, y: Seq<char>)
    requires
        forall|i: int| 0 <= i < a.len() ==> #[trigger] a[i] != '.',
    ensures
        first_dot(a + y) == (if first_dot(y) < 0 {
            -1int
        } else {
            a.len() + first_dot(y)
        }),
    decreases a.len(),
{
    if a.len() == 0 {
        assert(a + y =~= y);
    } else {
        assert((a + y)[0] == a[0]);
        assert((a + y).drop_first() =~= a.drop_first() + y);
        assert(forall|i: int|
            0 <= i < a.drop_first().len() ==> #[trigger] a.drop_first()[i] != '.');
        lemma_first_dot_append(a.drop_first(), y);
    }
}

/// The conditions under which a representation renders as a plain decimal
/// literal: a nonnegative scale small enough that no scientific notation
/// is used, and the zero value only in its canonical form.
pub open spec fn plain_rep(d: DecRep) -> bool {
    &&& 0 <= d.scale
    &&& (d.mant == 0 ==> d.scale == 0)
    &&& (d.mant != 0 ==> d.scale <= n_digits(iabs(d.mant)) + 5)
}

#[verifier::rlimit(60)]
proof fn lemma_plain_core(d: DecRep)
    requires
        d.mant >= 0,
        plain_rep(d),
    ensures
        render(d).len() >= 1,
        render(d).len() <= n_digits(iabs(d.mant)) + d.scale + 2,
        forall|i: int| 0 <= i < render(d).len() ==> is_lit_char(#[trigger] render(d)[i]),
        count_digits(render(d)) >= 1,
        count_dots(render(d)) <= 1,
        lit_mant(render(d)) == d.mant,
        lit_scale(render(d)) == d.scale,
{
    let w = render(d);
    let digits = dec_digits(iabs(d.mant));
    let n = digits.len() as int;
    let sc = d.scale;
    lemma_dec_digits_all_digits(iabs(d.mant));
    lemma_counts_all_digits(digits);
    lemma_lit_mant_digits(iabs(d.mant));
    if d.mant == 0 {
        assert(w =~= digits + zeros(0));
        assert(w =~= digits);
        lemma_first_dot_nodot(w);
    } else if sc == 0 {
        assert(w =~= digits + zeros(0));
        assert(w =~= digits);
        lemma_first_dot_nodot(w);
    } else if sc < n {
        let u = digits.take(n - sc);
        let v = digits.skip(n - sc);
        assert(w == u + seq!['.'] + v);
        assert(forall|i: int| 0 <= i < u.len() ==> is_digit(#[trigger] u[i]));
        assert(forall|i: int| 0 <= i < v.len() ==> is_digit(#[trigger] v[i]));
        lemma_counts_all_digits(u);
        lemma_counts_all_digits(v);
        assert(digits =~= u + v);
        // mantissa: the dot does not change the folded digits
        let dv = seq!['.'] + v;
        assert(forall|i: int| 0 <= i < dv.len() ==> is_lit_char(#[trigger] dv[i]));
        lemma_lit_mant_append(u, dv);
        lemma_lit_mant_append(seq!['.'], v);
        assert(lit_mant(seq!['.']) == 0) by {
            assert(lit_mant(Seq::<char>::empty()) == 0);
            assert(seq!['.'].last() == '.');
            assert(seq!['.'].drop_last() =~= Seq::<char>::empty());
        }
        lemma_counts_append(seq!['.'], v);
        assert(count_dots(seq!['.']) == 1 && count_digits(seq!['.']) == 0) by {
            assert(count_dots(Seq::<char>::empty()) == 0);
            assert(count_digits(Seq::<char>::empty()) == 0);
            assert(seq!['.'].last() == '.');
            assert(seq!['.'].drop_last() =~= Seq::<char>::empty());
        }
        lemma_lit_mant_append(u, v);
        assert(w =~= u + dv);
        assert(count_digits(dv) == count_digits(v));
        assert(lit_mant(w) == lit_mant(u) * pow10(count_digits(dv)) + lit_mant(dv));
        assert(lit_mant(dv) == lit_mant(seq!['.']) * pow10(count_digits(v)) + lit_mant(v));
        assert(0 * pow10(count_digits(v)) == 0);
        assert(lit_mant(dv) == lit_mant(v));
        assert(lit_mant(w) == lit_mant(u) * pow10(count_digits(v)) + lit_mant(v));
        assert(lit_mant(digits) == lit_mant(u) * pow10(count_digits(v)) + lit_mant(v));
        // counts
        lemma_counts_append(u, dv);
        // scale
        assert(forall|i: int| 0 <= i < u.len() ==> #[trigger] u[i] != '.');
        lemma_first_dot_append(u, dv);
        assert(first_dot(dv) == 0);
        assert(first_dot(w) == n - sc);
        assert(w.len() == n + 1);
    } else {
        // sc >= n: "0." then leading zeros then the digits
        let z = zeros(sc - n);
        lemma_zeros_facts(sc - n);
        assert(w == seq!['0', '.'] + z + digits);
        let tail = z + digits;
        let dtail = seq!['.'] + tail;
        assert(w =~= seq!['0'] + dtail);
        assert(forall|i: int| 0 <= i < tail.len() ==> is_digit(#[trigger] tail[i]));
        lemma_counts_all_digits(tail);
        assert(forall|i: int| 0 <= i < dtail.len() ==> is_lit_char(#[trigger] dtail[i]));
        // mantissa
        lemma_lit_mant_append(seq!['0'], dtail);
        lemma_lit_mant_append(seq!['.'], tail);
        assert(lit_mant(seq!['.']) == 0) by {
            assert(lit_mant(Seq::<char>::empty()) == 0);
            assert(seq!['.'].last() == '.');
            assert(seq!['.'].drop_last() =~= Seq::<char>::empty());
        }
        assert(lit_mant(seq!['0']) == 0) by {
            assert(('0' as int) == 48);
            assert(lit_mant(Seq::<char>::empty()) == 0);
            assert(seq!['0'].last() == '0');
            assert(seq!['0'].drop_last() =~= Seq::<char>::empty());
        }
        lemma_lit_mant_append(z, digits);
        assert(lit_mant(tail) == lit_mant(z) * pow10(count_digits(digits)) + lit_mant(digits));
        assert(lit_mant(dtail) == lit_mant(tail));
        assert(lit_mant(w) == 0 * pow10(count_digits(dtail)) + lit_mant(dtail));
        // counts
        lemma_counts_append(seq!['0'], dtail);
        lemma_counts_append(seq!['.'], tail);
        assert(count_dots(seq!['.']) == 1 && count_digits(seq!['.']) == 0) by {
            assert(count_dots(Seq::<char>::empty()) == 0);
            assert(count_digits(Seq::<char>::empty()) == 0);
            assert(seq!['.'].last() == '.');
            assert(seq!['.'].drop_last() =~= Seq::<char>::empty());
        }
        assert(count_digits(seq!['0']) == 1 && count_dots(seq!['0']) == 0) by {
            assert(count_dots(Seq::<char>::empty()) == 0);
            assert(count_digits(Seq::<char>::empty()) == 0);
            assert(seq!['0'].last() == '0');
            assert(seq!['0'].drop_last() =~= Seq::<char>::empty());
            assert(('0' as int) == 48);
        }
        // scale
        assert(forall|i: int| 0 <= i < seq!['0'].len() ==> #[trigger] seq!['0'][i] != '.') by {
            assert(('0' as int) == 48);
        }
        lemma_first_dot_append(seq!['0'], dtail);
        assert(first_dot(dtail) == 0);
        assert(first_dot(w) == 1);
        assert(w.len() == 2 + (sc - n) + n);
    }
}

proof fn lemma_pass_single(d: DecRep, op: Operator)
    ensures
        spec_pass(seq![SymRep::Dec(d)], op) == Some(Ok::<Seq<SymRep>, ErrRep>(
            seq![SymRep::Dec(d)],
        )),
{
    let s = seq![SymRep::Dec(d)];
    assert(s[0] == SymRep::Dec(d));
    assert(Seq::<SymRep>::empty().push(SymRep::Dec(d)) =~= s);
    assert(s.drop_first() =~= Seq::<SymRep>::empty());
    assert(pass_step(s, Seq::<SymRep>::empty(), op) == Some(Ok::<Seq<SymRep>, ErrRep>(s)));
}

proof fn lemma_pass_triple_other(a: DecRep, o: Operator, b: DecRep, op: Operator)
    requires
        o != op,
    ensures
        spec_pass(seq![SymRep::Dec(a), SymRep::Op(o), SymRep::Dec(b)], op) == Some(Ok::<
            Seq<SymRep>,
            ErrRep,
        >(seq![SymRep::Dec(a), SymRep::Op(o), SymRep::Dec(b)])),
{
    let s = seq![SymRep::Dec(a), SymRep::Op(o), SymRep::Dec(b)];
    let acc1 = Seq::<SymRep>::empty().push(SymRep::Dec(a));
    let acc2 = acc1.push(SymRep::Op(o));
    let acc3 = acc2.push(SymRep::Dec(b));
    let r1 = s.drop_first();
    let r2 = r1.drop_first();
    let r3 = r2.drop_first();
    assert(s[0] == SymRep::Dec(a));
    assert(r1[0] == SymRep::Op(o));
    assert(r2[0] == SymRep::Dec(b));
    assert(r3 =~= Seq::<SymRep>::empty());
    assert(pass_step(acc3, r3, op) == Some(Ok::<Seq<SymRep>, ErrRep>(acc3)));
    assert(pass_step(acc2, r2, op) == pass_step(acc3, r3, op));
    assert(pass_step(acc1, r1, op) == pass_step(acc2, r2, op));
    assert(pass_step(Seq::<SymRep>::empty(), s, op) == pass_step(acc1, r1, op));
    assert(acc3 =~= s);
}

proof fn lemma_pass_triple_fold(a: DecRep, op: Operator, b: DecRep)
    requires
        op_ok(op, a, b),
    ensures
        spec_pass(seq![SymRep::Dec(a), SymRep::Op(op), SymRep::Dec(b)], op) == Some(Ok::<
            Seq<SymRep>,
            ErrRep,
        >(seq![SymRep::Dec(spec_operate(op, a, b))])),
{
    let s = seq![SymRep::Dec(a), SymRep::Op(op), SymRep::Dec(b)];
    let acc1 = Seq::<SymRep>::empty().push(SymRep::Dec(a));
    let rest1 = s.drop_first();
    assert(s[0] == SymRep::Dec(a));
    assert(rest1[0] == SymRep::Op(op));
    assert(rest1.len() == 2);
    assert(rest1[1] == SymRep::Dec(b));
    assert(acc1.len() == 1);
    assert(acc1.last() == SymRep::Dec(a));
    let folded = acc1.drop_last().push(SymRep::Dec(spec_operate(op, a, b)));
    assert(folded =~= seq![SymRep::Dec(spec_operate(op, a, b))]);
    let rest2 = rest1.skip(2);
    assert(rest2 =~= Seq::<SymRep>::empty());
    assert(pass_step(folded, rest2, op) == Some(Ok::<Seq<SymRep>, ErrRep>(folded)));
    assert(pass_step(acc1, rest1, op) == pass_step(folded, rest2, op));
    assert(pass_step(Seq::<SymRep>::empty(), s, op) == pass_step(acc1, rest1, op));
}

proof fn lemma_eval_single(d: DecRep)
    ensures
        spec_eval_syms(seq![SymRep::Dec(d)]) == Some(Ok::<Option<DecRep>, ErrRep>(Some(d))),
{
    lemma_pass_single(d, Operator::Division);
    lemma_pass_single(d, Operator::Multiplication);
    lemma_pass_single(d, Operator::Plus);
    lemma_pass_single(d, Operator::Minus);
}

/// How a plain representation is tokenized: its rendering scans to the
/// one symbol holding it back.
#[verifier::rlimit(60)]
proof fn lemma_tokenize_render(d: DecRep)
    requires
        plain_rep(d),
        n_digits(iabs(d.mant)) + d.scale + 3 <= max_input_len(),
    ensures
        render(d).len() <= n_digits(iabs(d.mant)) + d.scale + 3,
        tok_run(tok_init(), render(d)) == Some(Ok::<TokSt, ErrRep>(
            TokSt { out: Seq::empty(), cache: render(d) },
        )),
        tok_flush(TokSt { out: Seq::empty(), cache: render(d) }) == Ok::<TokSt, ErrRep>(
            TokSt { out: seq![SymRep::Dec(d)], cache: Seq::empty() },
        ),
        spec_tokenize(render(d)) == Some(Ok::<Seq<SymRep>, ErrRep>(seq![SymRep::Dec(d)])),
{
    let w = render(d);
    let a = DecRep { mant: iabs(d.mant), scale: d.scale };
    let core = render(a);
    lemma_plain_core(a);
    if d.mant < 0 {
        assert(w == seq!['-'] + core);
    } else {
        assert(w == core);
    }
    // run the scan over the rendering
    if d.mant < 0 {
        let st1 = TokSt { out: Seq::empty(), cache: seq!['-'] };
        assert(tok_run(tok_init(), seq!['-']) == Some(Ok::<TokSt, ErrRep>(st1))) by {
            let u = seq!['-'];
            assert(u[0] == '-');
            assert(tok_flush(tok_init()) == Ok::<TokSt, ErrRep>(tok_init()));
            assert(tok_step(tok_init(), '-') == Some(Ok::<TokSt, ErrRep>(st1)));
            assert(u.drop_first() =~= Seq::<char>::empty());
            assert(tok_run(st1, Seq::<char>::empty()) == Some(Ok::<TokSt, ErrRep>(st1)));
        }
        lemma_tok_run_append(tok_init(), seq!['-'], core);
        lemma_tok_run_lits(st1, core);
        assert(seq!['-'] + core =~= w);
        assert(st1.cache + core =~= w);
    } else {
        lemma_tok_run_lits(tok_init(), w);
        assert(Seq::<char>::empty() + w =~= w);
    }
    let stw = TokSt { out: Seq::empty(), cache: w };
    // the final flush parses the buffer into the one symbol
    assert(lit_body(w) =~= core);
    assert(lit_ok(w));
    assert(lit_mant(lit_body(w)) == iabs(d.mant));
    assert(lit_sign(w) == (if d.mant < 0 { -1int } else { 1int })) by {
        if d.mant < 0 {
            assert(w[0] == '-');
        } else {
            assert(w == core);
            if w[0] == '-' || w[0] == '+' {
                assert(is_lit_char(core[0]));
                assert(false);
            }
        }
    }
    assert(lit_scale(lit_body(w)) == d.scale);
    assert(lit_mant(lit_body(w)) == iabs(d.mant));
    assert(lit_sign(w) * lit_mant(lit_body(w)) == d.mant) by {
        if d.mant < 0 {
            assert(lit_sign(w) == -1);
            assert((-1) * iabs(d.mant) == d.mant);
        } else {
            assert(lit_sign(w) == 1);
            assert(1 * iabs(d.mant) == d.mant);
        }
    }
    assert(lit_rep(w).mant == d.mant);
    assert(lit_rep(w).scale == d.scale);
    assert(lit_rep(w) == d);
    let out1 = Seq::<SymRep>::empty().push(SymRep::Dec(d));
    assert(out1 =~= seq![SymRep::Dec(d)]);
    assert(tok_flush(stw) == Ok::<TokSt, ErrRep>(TokSt { out: out1, cache: Seq::empty() }));
    // put the two phases together
    lemma_tok_from_is_run_then_flush(tok_init(), w);
}

/// Identity on single numbers: a decimal value rendered in plain literal
/// form and evaluated comes back unchanged.
pub proof fn lemma_literal_identity(d: DecRep)
    requires
        plain_rep(d),
        n_digits(iabs(d.mant)) + d.scale + 3 <= max_input_len(),
    ensures
        spec_evaluate(render(d)) == Some(Ok::<Option<Seq<char>>, ErrRep>(Some(render(d)))),
{
    lemma_tokenize_render(d);
    lemma_eval_single(d);
}

/// The character each operator is written with.
pub open spec fn op_char(op: Operator) -> char {
    match op {
        Operator::Plus => '+',
        Operator::Minus => '-',
        Operator::Division => '/',
        Operator::Multiplication => '*',
    }
}

/// A binary operation: two plain-rendered operands joined by an operator
/// character evaluate to exactly what the operator computes on them.  The
/// right operand must be nonnegative (a sign there would read as a second
/// operator), a divisor must be nonzero, and both operands must lie within
/// the machine bounds this library is verified under.
pub proof fn lemma_binary_operation(a: DecRep, op: Operator, b: DecRep)
    requires
        plain_rep(a),
        plain_rep(b),
        b.mant >= 0,
        op_ok(op, a, b),
        n_digits(iabs(a.mant)) + a.scale + n_digits(iabs(b.mant)) + b.scale + 7
            <= max_input_len(),
    ensures
        spec_evaluate(render(a) + seq![op_char(op)] + render(b)) == Some(Ok::<
            Option<Seq<char>>,
            ErrRep,
        >(Some(render(spec_operate(op, a, b))))),
{
    let wa = render(a);
    let wb = render(b);
    let c = op_char(op);
    let w = wa + seq![c] + wb;
    lemma_tokenize_render(a);
    lemma_plain_core(b);
    assert(iabs(b.mant) == b.mant);
    // scan the left operand
    lemma_tok_run_append(tok_init(), wa, seq![c] + wb);
    assert(w =~= wa + (seq![c] + wb));
    let sta = TokSt { out: Seq::empty(), cache: wa };
    let stf = TokSt { out: seq![SymRep::Dec(a)], cache: Seq::empty() };
    // the operator character flushes the buffer and stands as an operator
    let st2 = TokSt { out: stf.out.push(SymRep::Op(op)), cache: Seq::empty() };
    assert(tok_step(sta, c) == Some(Ok::<TokSt, ErrRep>(st2))) by {
        assert(tok_flush(sta) == Ok::<TokSt, ErrRep>(stf));
        assert(stf.out.len() == 1);
        assert(!(c == '+' || c == '-') ==> (c == '/' || c == '*'));
    }
    assert(tok_run(sta, seq![c] + wb) == tok_run(st2, wb)) by {
        assert((seq![c] + wb)[0] == c);
        assert((seq![c] + wb).drop_first() =~= wb);
    }
    // scan the right operand into the buffer
    lemma_tok_run_lits(st2, wb);
    let st3 = TokSt { out: st2.out, cache: wb };
    assert(Seq::<char>::empty() + wb =~= wb);
    assert(tok_run(tok_init(), w) == Some(Ok::<TokSt, ErrRep>(st3)));
    // the final flush emits the right operand
    let syms = seq![SymRep::Dec(a), SymRep::Op(op), SymRep::Dec(b)];
    assert(tok_flush(st3) == Ok::<TokSt, ErrRep>(
        TokSt { out: syms, cache: Seq::empty() },
    )) by {
        assert(wb.len() >= 1);
        assert(is_lit_char(wb[0]));
        assert(lit_body(wb) =~= wb);
        assert(lit_ok(wb));
        assert(lit_sign(wb) == 1);
        assert(lit_rep(wb) == b);
        assert(st3.out.len() == 2);
        assert(st3.out.last() == SymRep::Op(op));
        assert(st3.out.push(SymRep::Dec(b)) =~= syms);
    }
    lemma_tok_from_is_run_then_flush(tok_init(), w);
    assert(w.len() <= max_input_len());
    assert(spec_tokenize(w) == Some(Ok::<Seq<SymRep>, ErrRep>(syms)));
    // the four passes fold the one operator at its own tier
    let r = spec_operate(op, a, b);
    match op {
        Operator::Division => {
            lemma_pass_triple_fold(a, op, b);
            lemma_pass_single(r, Operator::Multiplication);
            lemma_pass_single(r, Operator::Plus);
            lemma_pass_single(r, Operator::Minus);
        },
        Operator::Multiplication => {
            lemma_pass_triple_other(a, op, b, Operator::Division);
            lemma_pass_triple_fold(a, op, b);
            lemma_pass_single(r, Operator::Plus);
            lemma_pass_single(r, Operator::Minus);
        },
        Operator::Plus => {
            lemma_pass_triple_other(a, op, b, Operator::Division);
            lemma_pass_triple_other(a, op, b, Operator::Multiplication);
            lemma_pass_triple_fold(a, op, b);
            lemma_pass_single(r, Operator::Minus);
        },
        Operator::Minus => {
            lemma_pass_triple_other(a, op, b, Operator::Division);
            lemma_pass_triple_other(a, op, b, Operator::Multiplication);
            lemma_pass_triple_other(a, op, b, Operator::Plus);
            lemma_pass_triple_fold(a, op, b);
        },
    }
    assert(spec_eval_syms(syms) == Some(Ok::<Option<DecRep>, ErrRep>(Some(r))));
}

/// A string with every multiplication glyph written as a plain asterisk.
pub open spec fn canon_mul(s: Seq<char>) -> Seq<char> {
    s.map_values(
        |c: char|
            if c == '\u{d7}' {
                '*'
            } else {
                c
            },
    )
}

proof fn lemma_tok_from_canon_mul(st: TokSt, s: Seq<char>)
    ensures
        tok_from(st, s) == tok_from(st, canon_mul(s)),
    decreases s.len(),
{
    if s.len() > 0 {
        let t = canon_mul(s);
        assert(t.len() == s.len());
        assert(t[0] == (if s[0] == '\u{d7}' {
            '*'
        } else {
            s[0]
        }));
        assert(tok_step(st, s[0]) == tok_step(st, t[0]));
        assert(t.drop_first() =~= canon_mul(s.drop_first()));
        match tok_step(st, s[0]) {
            Option::Some(Result::Ok(st1)) => {
                lemma_tok_from_canon_mul(st1, s.drop_first());
            },
            _ => {},
        }
    }
}

/// The multiplication glyph and the asterisk are fully interchangeable:
/// an input evaluates exactly as the same input with every glyph replaced
/// by an asterisk.
pub proof fn lemma_multiplication_glyph(s: Seq<char>)
    requires
        s.len() <= max_input_len(),
    ensures
        spec_evaluate(s) == spec_evaluate(canon_mul(s)),
{
    lemma_tok_from_canon_mul(TokSt { out: Seq::empty(), cache: Seq::empty() }, s);
}

/// A character the tokenizer recognizes: part of a literal, an operator,
/// the multiplication glyph, a percent, or a space.
pub open spec fn recognized(c: char) -> bool {
    ||| is_lit_char(c)
    ||| c == '+'
    ||| c == '-'
    ||| c == '/'
    ||| c == '*'
    ||| c == '\u{d7}'
    ||| c == '%'
    ||| c == ' '
}

/// An invalid character anywhere fails the evaluation with exactly that
/// character, provided the scan reaches it: if the prefix before the first
/// unrecognized character scans without an error, the result is
/// `InvalidChar` of that character, wherever in the input it stands.
pub proof fn lemma_invalid_char(s: Seq<char>, i: int)
    requires
        s.len() <= max_input_len(),
        0 <= i < s.len(),
        !recognized(s[i]),
        forall|j: int| 0 <= j < i ==> recognized(#[trigger] s[j]),
        tok_run(tok_init(), s.take(i)) matches Some(Ok(_)),
    ensures
        spec_evaluate(s) == Some(Err::<Option<Seq<char>>, ErrRep>(ErrRep::InvalidChar(s[i]))),
{
    let u = s.take(i);
    let v = s.skip(i);
    lemma_tok_run_append(tok_init(), u, v);
    assert(u + v =~= s);
    let run = tok_run(tok_init(), u);
    let st1 = run->Some_0->Ok_0;
    assert(v.len() > 0);
    assert(v[0] == s[i]);
    assert(tok_step(st1, s[i]) == Some(Err::<TokSt, ErrRep>(ErrRep::InvalidChar(s[i]))));
    assert(tok_run(tok_init(), s) == Some(Err::<TokSt, ErrRep>(ErrRep::InvalidChar(s[i]))));
    lemma_tok_from_is_run_then_flush(tok_init(), s);
}

} // verus!
