use rpn_calc::{
    calculate, evaluate, Element, Error, EvalError, Fraction, Op, OperandStack, ParseError, Value,
};

fn tokens(ts: &[&str]) -> Vec<String> {
    ts.iter().map(|t| t.to_string()).collect()
}

fn run(ts: &[&str]) -> Result<Value, Error> {
    calculate(&tokens(ts))
}

fn text(ts: &[&str]) -> String {
    run(ts).unwrap().to_text()
}

fn frac(numer: i64, denom: i64) -> Value {
    Value::Fraction(Fraction { numer, denom })
}

#[test]
fn integer_sum_difference_product() {
    assert_eq!(run(&["20", "22", "+"]), Ok(Value::Integer(42)));
    assert_eq!(run(&["-5", "8", "-"]), Ok(Value::Integer(-13)));
    assert_eq!(run(&["-6", "7", "*"]), Ok(Value::Integer(-42)));
    assert_eq!(run(&["6", "7", "x"]), Ok(Value::Integer(42)));
}

#[test]
fn integer_overflow_is_an_error() {
    let max = i64::MAX.to_string();
    let min = i64::MIN.to_string();
    assert_eq!(run(&[&max, "1", "+"]), Err(Error::Eval(EvalError::Overflow)));
    assert_eq!(run(&[&min, "1", "-"]), Err(Error::Eval(EvalError::Overflow)));
    assert_eq!(run(&[&max, "2", "*"]), Err(Error::Eval(EvalError::Overflow)));
    assert_eq!(run(&[&max, "0", "+"]), Ok(Value::Integer(i64::MAX)));
}

#[test]
fn one_third_is_not_truncated() {
    assert_eq!(run(&["1", "3", "/"]), Ok(frac(1, 3)));
    assert_eq!(text(&["1", "3", "/"]), "0.3333333333333333333");
    assert_eq!(text(&["2", "3", "/"]), "0.6666666666666666666");
}

#[test]
fn integer_division_is_reduced_with_positive_denominator() {
    assert_eq!(run(&["6", "-4", "/"]), Ok(frac(-3, 2)));
    assert_eq!(run(&["-6", "-4", "/"]), Ok(frac(3, 2)));
    assert_eq!(run(&["8", "4", "/"]), Ok(frac(2, 1)));
    assert_eq!(text(&["8", "4", "/"]), "2");
}

#[test]
fn division_overflow_is_an_error() {
    let min = i64::MIN.to_string();
    assert_eq!(run(&[&min, "-1", "/"]), Err(Error::Eval(EvalError::Overflow)));
    assert_eq!(run(&["1", &min, "/"]), Err(Error::Eval(EvalError::Overflow)));
}

#[test]
fn division_by_zero_is_an_error() {
    assert_eq!(run(&["4", "0", "/"]), Err(Error::Eval(EvalError::DivisionByZero)));
    assert_eq!(run(&["0.5", "0.0", "/"]), Err(Error::Eval(EvalError::DivisionByZero)));
}

#[test]
fn zero_divided_is_zero() {
    let min = i64::MIN.to_string();
    assert_eq!(run(&["0", &min, "/"]), Ok(frac(0, 1)));
    assert_eq!(text(&["0", "7", "/"]), "0");
}

#[test]
fn missing_operands_are_an_error() {
    assert_eq!(run(&["+"]), Err(Error::Eval(EvalError::OperandUnavailable)));
    assert_eq!(run(&[]), Err(Error::Eval(EvalError::OperandUnavailable)));
    assert_eq!(run(&["1", "-"]), Err(Error::Eval(EvalError::OperandUnavailable)));
}

#[test]
fn unknown_token_is_a_parse_error() {
    assert_eq!(run(&["abc"]), Err(Error::Parse(ParseError::Malformed)));
    assert_eq!(run(&["+", "abc"]), Err(Error::Parse(ParseError::Malformed)));
    assert_eq!(
        Element::parse("abc"),
        Err(Error::Parse(ParseError::Malformed))
    );
}

#[test]
fn operand_order_is_kept() {
    assert_eq!(run(&["10", "3", "-"]), Ok(Value::Integer(7)));
    assert_eq!(run(&["3", "10", "-"]), Ok(Value::Integer(-7)));
    assert_eq!(run(&["10", "4", "/"]), Ok(frac(5, 2)));
}

#[test]
fn integer_text_round_trip() {
    for n in [0, 1, -1, 9, 10, -10, 1234567890, i64::MAX, i64::MIN] {
        let t = Value::Integer(n).to_text();
        assert_eq!(t, n.to_string());
        assert_eq!(Value::parse(&t), Ok(Value::Integer(n)));
    }
}

#[test]
fn whole_fraction_text_round_trip() {
    for n in [0, 5, -5, i64::MAX, i64::MIN] {
        let t = frac(n, 1).to_text();
        assert_eq!(t, n.to_string());
        assert_eq!(Value::parse(&t), Ok(Value::Integer(n)));
    }
}

#[test]
fn end_to_end_sum_then_product() {
    assert_eq!(text(&["3", "4", "+", "2", "x"]), "14");
}

#[test]
fn end_to_end_half() {
    assert_eq!(text(&["7", "2", "/"]), "3.5");
    assert_eq!(text(&["-7", "2", "/"]), "-3.5");
    assert_eq!(text(&["-1", "3", "/"]), "-0.3333333333333333333");
}

#[test]
fn leftover_operands_are_ignored() {
    assert_eq!(run(&["1", "2"]), Ok(Value::Integer(2)));
    assert_eq!(run(&["9", "1", "2", "+"]), Ok(Value::Integer(3)));
}

#[test]
fn decimal_numerals() {
    assert_eq!(Value::parse("3.5"), Ok(frac(7, 2)));
    assert_eq!(Value::parse("-0.25"), Ok(frac(-1, 4)));
    assert_eq!(Value::parse("+1.50"), Ok(frac(3, 2)));
    assert_eq!(Value::parse(".5"), Ok(frac(1, 2)));
    assert_eq!(Value::parse("5."), Ok(frac(5, 1)));
    assert_eq!(Value::parse("0.000000000000000001"), Ok(frac(1, 1_000_000_000_000_000_000)));
}

#[test]
fn malformed_numerals() {
    for t in ["1.2.3", ".", "-", "+", "", "1e5", "--1", "1 2", "-.", "12a"] {
        assert_eq!(Value::parse(t), Err(ParseError::Malformed), "{:?}", t);
    }
}

#[test]
fn numerals_out_of_range() {
    assert_eq!(Value::parse("9223372036854775807"), Ok(Value::Integer(i64::MAX)));
    assert_eq!(Value::parse("-9223372036854775808"), Ok(Value::Integer(i64::MIN)));
    assert_eq!(Value::parse("9223372036854775808"), Err(ParseError::OutOfRange));
    assert_eq!(Value::parse("99999999999999999999999"), Err(ParseError::OutOfRange));
    assert_eq!(Value::parse("0.0000000000000000001"), Err(ParseError::OutOfRange));
}

#[test]
fn fraction_arithmetic() {
    assert_eq!(run(&["0.5", "0.25", "+"]), Ok(frac(3, 4)));
    assert_eq!(text(&["0.5", "0.25", "+"]), "0.75");
    assert_eq!(run(&["0.5", "0.25", "-"]), Ok(frac(1, 4)));
    assert_eq!(run(&["1", "0.25", "-"]), Ok(frac(3, 4)));
    assert_eq!(run(&["0.5", "3", "*"]), Ok(frac(3, 2)));
    assert_eq!(run(&["0.5", "2", "*"]), Ok(frac(1, 1)));
    assert_eq!(text(&["0.5", "2", "*"]), "1");
    assert_eq!(run(&["1.5", "0.5", "/"]), Ok(frac(3, 1)));
    assert_eq!(run(&["1", "3", "/", "1", "6", "/", "+"]), Ok(frac(1, 2)));
}

#[test]
fn fraction_overflow_is_an_error() {
    let max = i64::MAX.to_string();
    assert_eq!(
        run(&["1", &max, "/", "1", "2", "/", "+"]),
        Err(Error::Eval(EvalError::Overflow))
    );
}

#[test]
fn fraction_new_reduces() {
    assert_eq!(Fraction::new(6, 4), Fraction { numer: 3, denom: 2 });
    assert_eq!(Fraction::new(-6, 4), Fraction { numer: -3, denom: 2 });
    assert_eq!(Fraction::new(0, 9), Fraction { numer: 0, denom: 1 });
    assert_eq!(Fraction::from_integer(-3), Fraction { numer: -3, denom: 1 });
}

#[test]
fn value_operations_directly() {
    assert_eq!(Value::Integer(1).add(frac(1, 2)), Ok(frac(3, 2)));
    assert_eq!(frac(1, 2).sub(Value::Integer(1)), Ok(frac(-1, 2)));
    assert_eq!(frac(2, 3).mul(frac(3, 4)), Ok(frac(1, 2)));
    assert_eq!(frac(2, 3).div(frac(4, 9)), Ok(frac(3, 2)));
    assert_eq!(Value::Integer(1).div(Value::Integer(0)), Err(Error::Eval(EvalError::DivisionByZero)));
    assert_eq!(Op::Sub.apply(Value::Integer(10), Value::Integer(3)), Ok(Value::Integer(7)));
}

#[test]
fn long_and_terminating_decimals() {
    assert_eq!(frac(1, 8).to_text(), "0.125");
    assert_eq!(frac(-1, 20).to_text(), "-0.05");
    assert_eq!(frac(22, 7).to_text(), "3.1428571428571428571");
    assert_eq!(frac(1, 1_000_000_000_000_000_000).to_text(), "0.000000000000000001");
}

#[test]
fn operand_stack_is_last_in_first_out() {
    let mut s: OperandStack<i64> = OperandStack::new();
    assert_eq!(s.pop(), Err(Error::Eval(EvalError::OperandUnavailable)));
    s.push(1);
    s.push(2);
    assert_eq!(s.pop(), Ok(2));
    assert_eq!(s.pop(), Ok(1));
    assert_eq!(s.pop(), Err(Error::Eval(EvalError::OperandUnavailable)));
}

#[test]
fn evaluate_elements() {
    let es = vec![
        Element::Value(Value::Integer(3)),
        Element::Value(frac(1, 2)),
        Element::Operator(Op::Mul),
    ];
    assert_eq!(evaluate(es), Ok(frac(3, 2)));
    assert_eq!(Element::parse("x"), Ok(Element::Operator(Op::Mul)));
    assert_eq!(Element::parse("-"), Ok(Element::Operator(Op::Sub)));
    assert_eq!(Element::parse("-1"), Ok(Element::Value(Value::Integer(-1))));
}
