//! Properties of the calculator, proved over the specifications that the
//! executable functions meet.
use crate::error::{Error, EvalError};
use crate::eval::{evaluation, run, step, Element, Op};
use crate::fraction::{lowest_terms, Fraction};
use crate::text::{decimal_digits, int_text, lemma_decimal_digits};
use crate::value::{parse_spec, Value};
use vstd::prelude::*;

verus! {

proof fn lemma_run_push(es: Seq<Element>, e: Element)
    ensures
        run(es.push(e)) == match run(es) {
            Ok(stack) => step(stack, e),
            Err(err) => Err(err),
        },
{
    assert(es.push(e).drop_last() =~= es);
}

/// Evaluating `x y op` applies `op` to `x` and `y`, in that order.
pub proof fn law_binary_expression(x: Value, y: Value, op: Op)
    ensures
        evaluation(seq![Element::Value(x), Element::Value(y), Element::Operator(op)])
            == op.apply_spec(x, y),
{
    let e0 = Seq::<Element>::empty();
    let e1 = e0.push(Element::Value(x));
    let e2 = e1.push(Element::Value(y));
    let e3 = e2.push(Element::Operator(op));
    assert(seq![Element::Value(x), Element::Value(y), Element::Operator(op)] =~= e3);
    lemma_run_push(e0, Element::Value(x));
    lemma_run_push(e1, Element::Value(y));
    lemma_run_push(e2, Element::Operator(op));
    let s2 = seq![x, y];
    assert(run(e2) == Ok::<Seq<Value>, Error>(s2)) by {
        assert(Seq::<Value>::empty().push(x).push(y) =~= s2);
    }
    assert(s2.drop_last().drop_last() =~= Seq::<Value>::empty());
    match op.apply_spec(x, y) {
        Ok(v) => {
            assert(run(e3) == Ok::<Seq<Value>, Error>(seq![v])) by {
                assert(Seq::<Value>::empty().push(v) =~= seq![v]);
            }
        },
        Err(_) => {},
    }
}

/// Two integer operands and `+`, `-` or `*` evaluate to the integer sum, difference
/// or product; when that does not fit in 64 bits, to an overflow error.
pub proof fn law_integer_arithmetic(a: i64, b: i64)
    ensures
        evaluation(
            seq![
                Element::Value(Value::Integer(a)),
                Element::Value(Value::Integer(b)),
                Element::Operator(Op::Add),
            ],
        ) == Value::from_int(a + b),
        evaluation(
            seq![
                Element::Value(Value::Integer(a)),
                Element::Value(Value::Integer(b)),
                Element::Operator(Op::Sub),
            ],
        ) == Value::from_int(a - b),
        evaluation(
            seq![
                Element::Value(Value::Integer(a)),
                Element::Value(Value::Integer(b)),
                Element::Operator(Op::Mul),
            ],
        ) == Value::from_int(a * b),
{
    law_binary_expression(Value::Integer(a), Value::Integer(b), Op::Add);
    law_binary_expression(Value::Integer(a), Value::Integer(b), Op::Sub);
    law_binary_expression(Value::Integer(a), Value::Integer(b), Op::Mul);
}

/// Dividing a nonzero integer by a nonzero integer never truncates: the result is
/// the exact quotient as a fraction in lowest terms, or else an overflow error.
pub proof fn law_integer_division_is_exact(a: i64, b: i64)
    requires
        a != 0,
        b != 0,
    ensures
        match evaluation(
            seq![
                Element::Value(Value::Integer(a)),
                Element::Value(Value::Integer(b)),
                Element::Operator(Op::Div),
            ],
        ) {
            Ok(v) => v matches Value::Fraction(f) && f@ == lowest_terms(a as int, b as int),
            Err(e) => e == Error::Eval(EvalError::Overflow),
        },
{
    law_binary_expression(Value::Integer(a), Value::Integer(b), Op::Div);
    assert(a * 1 == a && 1 * b == b);
}

/// Dividing any value by zero is a division-by-zero error.
pub proof fn law_division_by_zero(x: Value)
    ensures
        evaluation(
            seq![
                Element::Value(x),
                Element::Value(Value::Integer(0)),
                Element::Operator(Op::Div),
            ],
        ) == Err::<Value, Error>(Error::Eval(EvalError::DivisionByZero)),
{
    law_binary_expression(x, Value::Integer(0), Op::Div);
}

/// An operator with no operands, and an empty expression, are operand-unavailable
/// errors.
pub proof fn law_missing_operands(op: Op)
    ensures
        evaluation(seq![Element::Operator(op)]) == Err::<Value, Error>(
            Error::Eval(EvalError::OperandUnavailable),
        ),
        evaluation(Seq::<Element>::empty()) == Err::<Value, Error>(
            Error::Eval(EvalError::OperandUnavailable),
        ),
{
    lemma_run_push(Seq::<Element>::empty(), Element::Operator(op));
    assert(seq![Element::Operator(op)] =~= Seq::<Element>::empty().push(Element::Operator(op)));
}

/// Reading back the text of an integer gives the same integer.
pub proof fn law_integer_text_round_trip(n: i64)
    ensures
        parse_spec(Value::Integer(n).text()) == Ok::<Value, crate::error::ParseError>(
            Value::Integer(n),
        ),
{
    let s = int_text(n as int);
    if n < 0 {
        let m = (-n) as nat;
        lemma_decimal_digits(m);
        assert(s.skip(1) =~= decimal_digits(m));
        if s.contains('.') {
            let i = choose|i: int| 0 <= i < s.len() && s[i] == '.';
            assert(decimal_digits(m)[i - 1] == '.');
        }
    } else {
        lemma_decimal_digits(n as nat);
        assert(s.skip(0) =~= s);
    }
}

/// Reading back the text of a fraction whose denominator is 1 gives the integer
/// it equals.
pub proof fn law_whole_fraction_text_round_trip(f: Fraction)
    requires
        f.wf(),
        f.denom == 1,
    ensures
        parse_spec(Value::Fraction(f).text()) == Ok::<Value, crate::error::ParseError>(
            Value::Integer(f.numer),
        ),
{
    law_integer_text_round_trip(f.numer);
}

} // verus!
