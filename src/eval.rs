use crate::error::{Error, EvalError};
use crate::text::chars_of;
use crate::value::{parse_spec, Value};
use vstd::prelude::*;

verus! {

/// One of the four arithmetic operators.
#[derive(Clone, Copy, Debug, PartialEq, Eq, Structural)]
pub enum Op {
    Add,
    Div,
    Mul,
    Sub,
}

impl Op {
    pub open spec fn apply_spec(self, left: Value, right: Value) -> Result<Value, Error> {
        match self {
            Op::Add => left.sum_spec(right),
            Op::Div => left.quotient_spec(right),
            Op::Mul => left.product_spec(right),
            Op::Sub => left.difference_spec(right),
        }
    }

    /// Applies the operator with `left` as its first operand and `right` as its second.
    pub fn apply(&self, left: Value, right: Value) -> (r: Result<Value, Error>)
        requires
            left.wf(),
            right.wf(),
        ensures
            r == self.apply_spec(left, right),
            r matches Ok(v) ==> v.wf(),
    {
        match self {
            Op::Add => left.add(right),
            Op::Div => left.div(right),
            Op::Mul => left.mul(right),
            Op::Sub => left.sub(right),
        }
    }
}

/// A parsed token: an operand or an operator.
#[derive(Clone, Copy, Debug, PartialEq, Eq, Structural)]
pub enum Element {
    Value(Value),
    Operator(Op),
}

impl Element {
    pub open spec fn wf(self) -> bool {
        match self {
            Element::Value(v) => v.wf(),
            Element::Operator(_) => true,
        }
    }

    /// `+`, `-`, `*` (also written `x`) and `/` are operators; any other token must be
    /// a number.
    pub open spec fn parse_spec(s: Seq<char>) -> Result<Element, Error> {
        if s == seq!['+'] {
            Ok(Element::Operator(Op::Add))
        } else if s == seq!['/'] {
            Ok(Element::Operator(Op::Div))
        } else if s == seq!['*'] || s == seq!['x'] {
            Ok(Element::Operator(Op::Mul))
        } else if s == seq!['-'] {
            Ok(Element::Operator(Op::Sub))
        } else {
            match parse_spec(s) {
                Ok(v) => Ok(Element::Value(v)),
                Err(e) => Err(Error::Parse(e)),
            }
        }
    }

    /// Reads one token: an operator, else a number.
    pub fn parse(s: &str) -> (r: Result<Element, Error>)
        ensures
            r == Element::parse_spec(s@),
            r matches Ok(e) ==> e.wf(),
    {
        let cs = chars_of(s);
        if cs.len() == 1 {
            let c = cs[0];
            proof {
                assert(s@ =~= seq![c]);
            }
            if c == '+' {
                return Ok(Element::Operator(Op::Add));
            } else if c == '/' {
                return Ok(Element::Operator(Op::Div));
            } else if c == '*' || c == 'x' {
                return Ok(Element::Operator(Op::Mul));
            } else if c == '-' {
                return Ok(Element::Operator(Op::Sub));
            }
        }
        proof {
            if cs.len() != 1 {
                assert(s@.len() != seq!['+'].len());
                assert(s@.len() != seq!['x'].len());
            }
        }
        match Value::parse(s) {
            Ok(v) => Ok(Element::Value(v)),
            Err(e) => Err(Error::Parse(e)),
        }
    }
}

/// A last-in, first-out stack of operands.
pub struct OperandStack<T> {
    items: Vec<T>,
}

impl<T> View for OperandStack<T> {
    type V = Seq<T>;

    closed spec fn view(&self) -> Seq<T> {
        self.items@
    }
}

impl<T> OperandStack<T> {
    pub fn new() -> (s: OperandStack<T>)
        ensures
            s@ == Seq::<T>::empty(),
    {
        OperandStack { items: Vec::new() }
    }

    pub fn push(&mut self, operand: T)
        ensures
            final(self)@ == old(self)@.push(operand),
    {
        self.items.push(operand);
    }

    /// Takes the top operand off; an empty stack is an error.
    pub fn pop(&mut self) -> (r: Result<T, Error>)
        ensures
            old(self)@.len() == 0 ==> r == Err::<T, Error>(Error::Eval(EvalError::OperandUnavailable))
                && final(self)@ == old(self)@,
            old(self)@.len() > 0 ==> r == Ok::<T, Error>(old(self)@.last()) && final(self)@
                == old(self)@.drop_last(),
    {
        match self.items.pop() {
            Some(v) => Ok(v),
            None => Err(Error::Eval(EvalError::OperandUnavailable)),
        }
    }
}

/// The stack after one element: an operand is pushed; an operator pops its right
/// operand, then its left one, and pushes its result.
pub open spec fn step(stack: Seq<Value>, e: Element) -> Result<Seq<Value>, Error> {
    match e {
        Element::Value(v) => Ok(stack.push(v)),
        Element::Operator(op) => if stack.len() < 2 {
            Err(Error::Eval(EvalError::OperandUnavailable))
        } else {
            match op.apply_spec(stack[stack.len() - 2], stack.last()) {
                Ok(v) => Ok(stack.drop_last().drop_last().push(v)),
                Err(err) => Err(err),
            }
        },
    }
}

/// The stack after all of `es`, from an empty one; the first error stops the run.
pub open spec fn run(es: Seq<Element>) -> Result<Seq<Value>, Error>
    decreases es.len(),
{
    if es.len() == 0 {
        Ok(Seq::empty())
    } else {
        match run(es.drop_last()) {
            Ok(stack) => step(stack, es.last()),
            Err(e) => Err(e),
        }
    }
}

/// The value of an expression: the top of the final stack. Operands left below
/// it are ignored.
pub open spec fn evaluation(es: Seq<Element>) -> Result<Value, Error> {
    match run(es) {
        Ok(stack) => if stack.len() == 0 {
            Err(Error::Eval(EvalError::OperandUnavailable))
        } else {
            Ok(stack.last())
        },
        Err(e) => Err(e),
    }
}

/// The elements of the tokens, in order; the first token that is not one stops it.
pub open spec fn parse_all(ts: Seq<Seq<char>>) -> Result<Seq<Element>, Error>
    decreases ts.len(),
{
    if ts.len() == 0 {
        Ok(Seq::empty())
    } else {
        match parse_all(ts.drop_last()) {
            Ok(es) => match Element::parse_spec(ts.last()) {
                Ok(e) => Ok(es.push(e)),
                Err(err) => Err(err),
            },
            Err(err) => Err(err),
        }
    }
}

pub open spec fn texts(tokens: Seq<String>) -> Seq<Seq<char>> {
    tokens.map_values(|t: String| t@)
}

proof fn lemma_run_stops(es: Seq<Element>, k: int)
    requires
        0 <= k <= es.len(),
        run(es.take(k)) is Err,
    ensures
        run(es) == run(es.take(k)),
    decreases es.len() - k,
{
    if k < es.len() {
        assert(es.take(k + 1).drop_last() =~= es.take(k));
        lemma_run_stops(es, k + 1);
    } else {
        assert(es.take(k) =~= es);
    }
}

proof fn lemma_parse_all_stops(ts: Seq<Seq<char>>, k: int)
    requires
        0 <= k <= ts.len(),
        parse_all(ts.take(k)) is Err,
    ensures
        parse_all(ts) == parse_all(ts.take(k)),
    decreases ts.len() - k,
{
    if k < ts.len() {
        assert(ts.take(k + 1).drop_last() =~= ts.take(k));
        lemma_parse_all_stops(ts, k + 1);
    } else {
        assert(ts.take(k) =~= ts);
    }
}

/// Folds the elements through an operand stack, in order, and returns the value on
/// top at the end.
pub fn evaluate(elements: Vec<Element>) -> (r: Result<Value, Error>)
    requires
        forall|i: int| 0 <= i < elements@.len() ==> (#[trigger] elements@[i]).wf(),
    ensures
        r == evaluation(elements@),
        r matches Ok(v) ==> v.wf(),
{
    let mut stack: OperandStack<Value> = OperandStack::new();
    let mut i: usize = 0;
    while i < elements.len()
        invariant
            i <= elements@.len(),
            forall|j: int| 0 <= j < elements@.len() ==> (#[trigger] elements@[j]).wf(),
            run(elements@.take(i as int)) == Ok::<Seq<Value>, Error>(stack@),
            forall|j: int| 0 <= j < stack@.len() ==> (#[trigger] stack@[j]).wf(),
        decreases elements@.len() - i,
    {
        let element = elements[i];
        let ghost before = stack@;
        proof {
            assert(elements@.take(i + 1).drop_last() =~= elements@.take(i as int));
            assert(elements@[i as int].wf());
        }
        match element {
            Element::Value(operand) => {
                stack.push(operand);
                assert forall|j: int| 0 <= j < stack@.len() implies (#[trigger] stack@[j]).wf() by {
                    if j < before.len() {
                        assert(stack@[j] == before[j]);
                    }
                }
            },
            Element::Operator(op) => {
                let right = match stack.pop() {
                    Ok(v) => v,
                    Err(e) => {
                        proof {
                            lemma_run_stops(elements@, i + 1);
                        }
                        return Err(e);
                    },
                };
                let left = match stack.pop() {
                    Ok(v) => v,
                    Err(e) => {
                        proof {
                            lemma_run_stops(elements@, i + 1);
                        }
                        return Err(e);
                    },
                };
                assert(left == before[before.len() - 2] && left.wf() && right.wf());
                match op.apply(left, right) {
                    Ok(v) => {
                        let ghost below = stack@;
                        stack.push(v);
                        assert forall|j: int| 0 <= j < stack@.len() implies (#[trigger] stack@[j]).wf() by {
                            if j < below.len() {
                                assert(stack@[j] == before[j]);
                            }
                        }
                    },
                    Err(e) => {
                        proof {
                            lemma_run_stops(elements@, i + 1);
                        }
                        return Err(e);
                    },
                }
            },
        }
        i = i + 1;
    }
    assert(elements@.take(i as int) =~= elements@);
    let r = stack.pop();
    proof {
        if stack@.len() > 0 {
            assert(stack@.last() == stack@[stack@.len() - 1]);
        }
    }
    r
}

/// Reads every token as an element; the first token that is neither an operator
/// nor a number is the error.
pub fn parse_elements(tokens: &Vec<String>) -> (r: Result<Vec<Element>, Error>)
    ensures
        r matches Ok(es) ==> parse_all(texts(tokens@)) == Ok::<Seq<Element>, Error>(es@) && forall|
            i: int,
        |
            0 <= i < es@.len() ==> (#[trigger] es@[i]).wf(),
        r matches Err(e) ==> parse_all(texts(tokens@)) == Err::<Seq<Element>, Error>(e),
{
    let ghost ts = texts(tokens@);
    let mut es: Vec<Element> = Vec::new();
    let mut i: usize = 0;
    while i < tokens.len()
        invariant
            i <= tokens@.len(),
            ts == texts(tokens@),
            parse_all(ts.take(i as int)) == Ok::<Seq<Element>, Error>(es@),
            forall|j: int| 0 <= j < es@.len() ==> (#[trigger] es@[j]).wf(),
        decreases tokens@.len() - i,
    {
        proof {
            assert(ts.take(i + 1).drop_last() =~= ts.take(i as int));
            assert(ts[i as int] == tokens@[i as int]@);
        }
        let ghost before = es@;
        match Element::parse(tokens[i].as_str()) {
            Ok(e) => {
                es.push(e);
                assert forall|j: int| 0 <= j < es@.len() implies (#[trigger] es@[j]).wf() by {
                    if j < before.len() {
                        assert(es@[j] == before[j]);
                    }
                }
            },
            Err(err) => {
                proof {
                    lemma_parse_all_stops(ts, i + 1);
                }
                return Err(err);
            },
        }
        i = i + 1;
    }
    assert(ts.take(i as int) =~= ts);
    Ok(es)
}

/// Reads all tokens, then evaluates them: a token that cannot be read is reported
/// before any evaluation error.
pub fn calculate(tokens: &Vec<String>) -> (r: Result<Value, Error>)
    ensures
        r == match parse_all(texts(tokens@)) {
            Ok(es) => evaluation(es),
            Err(e) => Err(e),
        },
        r matches Ok(v) ==> v.wf(),
{
    let es = parse_elements(tokens)?;
    evaluate(es)
}

} // verus!
