use vstd::prelude::*;
use vstd::string::*;
use crate::ast::{Ast, Node, asts_of, ast_of, copy_node, copy_nodes, copy_nodes_from, lemma_asts_of};

verus! {

broadcast use {vstd::std_specs::vec::group_vec_axioms, vstd::seq::group_seq_axioms};

/// A runtime value.
#[derive(Debug, PartialEq, Clone)]
pub enum Value {
    String(String),
    Number(i32),
    Bool(bool),
}

/// The mathematical content of a `Value`.
pub enum Val {
    Str(Seq<char>),
    Number(i32),
    Bool(bool),
}

impl View for Value {
    type V = Val;

    open spec fn view(&self) -> Val {
        match self {
            Value::String(s) => Val::Str(s@),
            Value::Number(n) => Val::Number(*n),
            Value::Bool(b) => Val::Bool(*b),
        }
    }
}

/// Why an evaluation failed.
#[derive(Debug, Clone, Copy, PartialEq, Eq, Structural)]
pub enum RuntimeError {
    UndefinedFunction,
    UndefinedVariable,
    UnknownStatement,
    UnknownExpression,
    UnhandledNode,
    UndefinedOperator,
    NonNumericOperands,
    InvalidComparisonOperands,
    InvalidBooleanComparison,
    DivisionByZero,
    Overflow,
    NegativeExponent,
    MissingArgument,
    NoActiveFrame,
    MalformedNode,
    DepthExceeded,
}

impl RuntimeError {
    /// A human-readable description of the failure.
    pub fn message(&self) -> &'static str {
        match self {
            RuntimeError::UndefinedFunction => "Undefined function",
            RuntimeError::UndefinedVariable => "Undefined variable",
            RuntimeError::UnknownStatement => "Unknown Statement",
            RuntimeError::UnknownExpression => "Unknown Expression",
            RuntimeError::UnhandledNode => "Unhandled Node",
            RuntimeError::UndefinedOperator => "Undefined operator",
            RuntimeError::NonNumericOperands => "Cannot do math on non-numeric operands",
            RuntimeError::InvalidComparisonOperands => "Invalid comparison operands",
            RuntimeError::InvalidBooleanComparison => "Invalid comparison operation for booleans",
            RuntimeError::DivisionByZero => "Division by zero",
            RuntimeError::Overflow => "Arithmetic overflow",
            RuntimeError::NegativeExponent => "Negative exponent",
            RuntimeError::MissingArgument => "Missing argument",
            RuntimeError::NoActiveFrame => "No active frame",
            RuntimeError::MalformedNode => "Malformed node",
            RuntimeError::DepthExceeded => "Evaluation too deep",
        }
    }
}

/// How deeply evaluations may nest before `DepthExceeded` is reported.
pub const MAX_DEPTH: u64 = 2000;

/// The model of a runtime: the function table and the frame stack, both as
/// association lists in which the latest binding of a name wins.
pub struct State {
    pub funcs: Seq<(Seq<char>, Seq<Ast>)>,
    pub stack: Seq<Seq<(Seq<char>, Val)>>,
}

/// The latest binding of `k` in an association list.
pub open spec fn lookup<V>(s: Seq<(Seq<char>, V)>, k: Seq<char>) -> Option<V>
    decreases s.len(),
{
    if s.len() == 0 {
        None
    } else if s.last().0 == k {
        Some(s.last().1)
    } else {
        lookup(s.drop_last(), k)
    }
}

pub open spec fn main_name() -> Seq<char> {
    seq!['m', 'a', 'i', 'n']
}

/// Registers a function definition (`name, arguments?, statements...`).
pub open spec fn define(
    funcs: Seq<(Seq<char>, Seq<Ast>)>,
    children: Seq<Ast>,
) -> Seq<(Seq<char>, Seq<Ast>)> {
    if children.len() > 0 {
        match children[0] {
            Ast::Identifier { value } => funcs.push((value, children.drop_first())),
            _ => funcs,
        }
    } else {
        funcs
    }
}

/// What a program's top-level items add to the function table.
pub open spec fn register(
    funcs: Seq<(Seq<char>, Seq<Ast>)>,
    items: Seq<Ast>,
) -> Seq<(Seq<char>, Seq<Ast>)>
    decreases items.len(),
{
    if items.len() == 0 {
        funcs
    } else {
        let f = register(funcs, items.drop_last());
        match items.last() {
            Ast::FunctionDefine { children } => define(f, children),
            Ast::Expression { .. } => f.push(
                (main_name(), seq![Ast::FunctionReturn { children: seq![items.last()] }]),
            ),
            Ast::Statement { .. } => f.push((main_name(), seq![items.last()])),
            _ => f,
        }
    }
}

/// The formal parameters of a function body.
pub open spec fn formals_of(body: Seq<Ast>) -> Seq<Ast> {
    if body.len() > 0 {
        match body[0] {
            Ast::FunctionArguments { children } => children,
            _ => seq![],
        }
    } else {
        seq![]
    }
}

/// Where the statements of a function body start.
pub open spec fn body_start(body: Seq<Ast>) -> nat {
    if body.len() > 0 && body[0] is FunctionArguments {
        1
    } else {
        0
    }
}

/// The actual arguments of a call.
pub open spec fn actuals_of(children: Seq<Ast>) -> Seq<Ast> {
    if children.len() > 0 {
        match children[0] {
            Ast::FunctionArguments { children: args } => args,
            _ => children,
        }
    } else {
        children
    }
}

/// Binds `v` to a formal parameter written as an identifier; other shapes bind nothing.
pub open spec fn bind_formal(
    frame: Seq<(Seq<char>, Val)>,
    formal: Ast,
    v: Val,
) -> Seq<(Seq<char>, Val)> {
    match formal {
        Ast::Expression { children } => if children.len() > 0 {
            match children[0] {
                Ast::Identifier { value } => frame.push((value, v)),
                _ => frame,
            }
        } else {
            frame
        },
        _ => frame,
    }
}

/// The node kinds that an `Expression` may wrap.
pub open spec fn is_expression_kind(n: Ast) -> bool {
    n is ComparisonExpression || n is MathExpression || n is Number || n is FunctionCall
        || n is Str || n is Bool || n is Identifier
}

pub open spec fn checked(x: Option<i32>) -> Result<Val, RuntimeError> {
    match x {
        Some(v) => Ok(Val::Number(v)),
        None => Err(RuntimeError::Overflow),
    }
}

/// `a` multiplied by itself `n` times, starting at 1.
pub open spec fn power(a: int, n: nat) -> int
    decreases n,
{
    if n == 0 {
        1
    } else {
        power(a, (n - 1) as nat) * a
    }
}

pub open spec fn fits_i32(x: int) -> bool {
    i32::MIN <= x <= i32::MAX
}

/// Integer arithmetic on two numbers.
pub open spec fn arith(op: Seq<char>, a: i32, b: i32) -> Result<Val, RuntimeError> {
    if op == seq!['+'] {
        checked(a.checked_add(b))
    } else if op == seq!['-'] {
        checked(a.checked_sub(b))
    } else if op == seq!['*'] {
        checked(a.checked_mul(b))
    } else if op == seq!['/'] {
        if b == 0 {
            Err(RuntimeError::DivisionByZero)
        } else {
            checked(a.checked_div(b))
        }
    } else if op == seq!['^'] {
        if b < 0 {
            Err(RuntimeError::NegativeExponent)
        } else if fits_i32(power(a as int, b as nat)) {
            Ok(Val::Number(power(a as int, b as nat) as i32))
        } else {
            Err(RuntimeError::Overflow)
        }
    } else {
        Err(RuntimeError::UndefinedOperator)
    }
}

pub open spec fn math(op: Seq<char>, l: Val, r: Val) -> Result<Val, RuntimeError> {
    match (l, r) {
        (Val::Number(a), Val::Number(b)) => arith(op, a, b),
        _ => Err(RuntimeError::NonNumericOperands),
    }
}

pub open spec fn compare(op: Seq<char>, l: Val, r: Val) -> Result<Val, RuntimeError> {
    match (l, r) {
        (Val::Number(a), Val::Number(b)) => if op == seq!['=', '='] {
            Ok(Val::Bool(a == b))
        } else if op == seq!['!', '='] {
            Ok(Val::Bool(a != b))
        } else if op == seq!['<', '='] {
            Ok(Val::Bool(a <= b))
        } else if op == seq!['>', '='] {
            Ok(Val::Bool(a >= b))
        } else if op == seq!['<'] {
            Ok(Val::Bool(a < b))
        } else if op == seq!['>'] {
            Ok(Val::Bool(a > b))
        } else {
            Err(RuntimeError::UndefinedOperator)
        },
        (Val::Bool(a), Val::Bool(b)) => if op == seq!['=', '='] {
            Ok(Val::Bool(a == b))
        } else if op == seq!['!', '='] {
            Ok(Val::Bool(a != b))
        } else {
            Err(RuntimeError::InvalidBooleanComparison)
        },
        _ => Err(RuntimeError::InvalidComparisonOperands),
    }
}

/// Evaluates `n` in state `st`; each nested evaluation takes one unit of `depth`.
pub open spec fn eval(st: State, n: Ast, depth: nat) -> (State, Result<Val, RuntimeError>)
    decreases depth, 0nat,
{
    if depth == 0 {
        (st, Err(RuntimeError::DepthExceeded))
    } else {
        let d = (depth - 1) as nat;
        match n {
            Ast::Program { children } => (
                State { funcs: register(st.funcs, children), ..st },
                Ok(Val::Bool(true)),
            ),
            Ast::FunctionDefine { children } => (
                State { funcs: define(st.funcs, children), ..st },
                Ok(Val::Bool(true)),
            ),
            Ast::FunctionCall { name, children } => match lookup(st.funcs, name) {
                None => (st, Err(RuntimeError::UndefinedFunction)),
                Some(body) => {
                    let (s1, fr) = bind_args(
                        st,
                        formals_of(body),
                        actuals_of(children),
                        0,
                        seq![],
                        d,
                    );
                    match fr {
                        Err(e) => (s1, Err(e)),
                        Ok(frame) => {
                            let (s2, r) = eval_body(
                                State { stack: s1.stack.push(frame), ..s1 },
                                body,
                                body_start(body),
                                d,
                                Err(RuntimeError::MalformedNode),
                            );
                            (State { stack: s2.stack.drop_last(), ..s2 }, r)
                        },
                    }
                },
            },
            Ast::FunctionReturn { children } => if children.len() == 0 {
                (st, Err(RuntimeError::MalformedNode))
            } else {
                eval(st, children[0], d)
            },
            Ast::Identifier { value } => if st.stack.len() == 0 {
                (st, Err(RuntimeError::NoActiveFrame))
            } else {
                match lookup(st.stack.last(), value) {
                    Some(v) => (st, Ok(v)),
                    None => (st, Err(RuntimeError::UndefinedVariable)),
                }
            },
            Ast::Statement { children } => if children.len() == 0 {
                (st, Err(RuntimeError::MalformedNode))
            } else if children[0] is VariableDefine || children[0] is FunctionReturn {
                eval(st, children[0], d)
            } else {
                (st, Err(RuntimeError::UnknownStatement))
            },
            Ast::VariableDefine { children } => if children.len() < 2
                || !(children[0] is Identifier) {
                (st, Err(RuntimeError::MalformedNode))
            } else {
                let (s1, r) = eval(st, children[1], d);
                match r {
                    Err(e) => (s1, Err(e)),
                    Ok(v) => if s1.stack.len() == 0 {
                        (s1, Err(RuntimeError::NoActiveFrame))
                    } else {
                        (
                            State {
                                stack: s1.stack.update(
                                    s1.stack.len() - 1,
                                    s1.stack.last().push((children[0]->Identifier_value, v)),
                                ),
                                ..s1
                            },
                            Ok(v),
                        )
                    },
                }
            },
            Ast::Expression { children } => if children.len() == 0 {
                (st, Err(RuntimeError::MalformedNode))
            } else if is_expression_kind(children[0]) {
                eval(st, children[0], d)
            } else {
                (st, Err(RuntimeError::UnknownExpression))
            },
            Ast::MathExpression { name, children } => if children.len() < 2 {
                (st, Err(RuntimeError::MalformedNode))
            } else {
                let (s1, l) = eval(st, children[0], d);
                match l {
                    Err(e) => (s1, Err(e)),
                    Ok(lv) => {
                        let (s2, r) = eval(s1, children[1], d);
                        match r {
                            Err(e) => (s2, Err(e)),
                            Ok(rv) => (s2, math(name, lv, rv)),
                        }
                    },
                }
            },
            Ast::ComparisonExpression { name, children } => if children.len() < 2 {
                (st, Err(RuntimeError::MalformedNode))
            } else {
                let (s1, l) = eval(st, children[0], d);
                match l {
                    Err(e) => (s1, Err(e)),
                    Ok(lv) => {
                        let (s2, r) = eval(s1, children[1], d);
                        match r {
                            Err(e) => (s2, Err(e)),
                            Ok(rv) => (s2, compare(name, lv, rv)),
                        }
                    },
                }
            },
            Ast::Number { value } => (st, Ok(Val::Number(value))),
            Ast::Str { value } => (st, Ok(Val::Str(value))),
            Ast::Bool { value } => (st, Ok(Val::Bool(value))),
            _ => (st, Err(RuntimeError::UnhandledNode)),
        }
    }
}

/// Evaluates the actual arguments from index `i` on, in the caller's frame, and
/// binds them to the formal parameters.
pub open spec fn bind_args(
    st: State,
    formals: Seq<Ast>,
    actuals: Seq<Ast>,
    i: nat,
    frame: Seq<(Seq<char>, Val)>,
    depth: nat,
) -> (State, Result<Seq<(Seq<char>, Val)>, RuntimeError>)
    decreases depth, formals.len() + 1 - i,
{
    if i >= formals.len() {
        (st, Ok(frame))
    } else if i >= actuals.len() {
        (st, Err(RuntimeError::MissingArgument))
    } else {
        let (s1, r) = eval(st, actuals[i as int], depth);
        match r {
            Err(e) => (s1, Err(e)),
            Ok(v) => bind_args(s1, formals, actuals, i + 1, bind_formal(frame, formals[i as int], v), depth),
        }
    }
}

/// Evaluates the statements of a body from index `i` on, stopping at the first
/// failure; `last` is the result of the statement before.
pub open spec fn eval_body(
    st: State,
    body: Seq<Ast>,
    i: nat,
    depth: nat,
    last: Result<Val, RuntimeError>,
) -> (State, Result<Val, RuntimeError>)
    decreases depth, body.len() + 1 - i,
{
    if i >= body.len() {
        (st, last)
    } else {
        let (s1, r) = eval(st, body[i as int], depth);
        if r is Err {
            (s1, r)
        } else {
            eval_body(s1, body, i + 1, depth, r)
        }
    }
}

pub open spec fn result_view(r: Result<Value, RuntimeError>) -> Result<Val, RuntimeError> {
    match r {
        Ok(v) => Ok(v@),
        Err(e) => Err(e),
    }
}

pub open spec fn frame_view(f: Seq<(String, Value)>) -> Seq<(Seq<char>, Val)> {
    f.map_values(|b: (String, Value)| (b.0@, b.1@))
}

/// The interpreter: a table of functions and a stack of variable frames.
pub struct Runtime {
    functions: Vec<(String, Vec<Node>)>,
    stack: Vec<Vec<(String, Value)>>,
}

impl View for Runtime {
    type V = State;

    closed spec fn view(&self) -> State {
        State {
            funcs: self.functions@.map_values(|e: (String, Vec<Node>)| (e.0@, asts_of(e.1@))),
            stack: self.stack@.map_values(|f: Vec<(String, Value)>| frame_view(f@)),
        }
    }
}

/// A copy of a value.
pub fn copy_value(v: &Value) -> (r: Value)
    ensures
        r@ == v@,
{
    match v {
        Value::String(s) => Value::String(s.clone()),
        Value::Number(n) => Value::Number(*n),
        Value::Bool(b) => Value::Bool(*b),
    }
}

/// Whether a text is the single character `c`.
fn text_is1(s: &String, c: char) -> (r: bool)
    ensures
        r == (s@ == seq![c]),
{
    let t = s.as_str();
    if t.unicode_len() == 1 {
        let r = t.get_char(0) == c;
        proof {
            if r {
                assert(t@ =~= seq![c]);
            }
        }
        r
    } else {
        false
    }
}

/// Whether a text is the two characters `c1`, `c2`.
fn text_is2(s: &String, c1: char, c2: char) -> (r: bool)
    ensures
        r == (s@ == seq![c1, c2]),
{
    let t = s.as_str();
    if t.unicode_len() == 2 {
        let r = t.get_char(0) == c1 && t.get_char(1) == c2;
        proof {
            if r {
                assert(t@ =~= seq![c1, c2]);
            }
        }
        r
    } else {
        false
    }
}

proof fn lemma_power_small(a: int, n: nat)
    requires
        -1 <= a <= 1,
    ensures
        -1 <= power(a, n) <= 1,
    decreases n,
{
    if n > 0 {
        lemma_power_small(a, (n - 1) as nat);
        let p = power(a, (n - 1) as nat);
        assert(-1 <= p * a <= 1) by (nonlinear_arith)
            requires
                -1 <= p <= 1,
                -1 <= a <= 1,
        ;
    }
}

/// Once a power leaves the range of `i32`, the later powers stay out of it.
proof fn lemma_power_leaves_range(a: int, m: nat, n: nat)
    requires
        m <= n,
        !fits_i32(power(a, m)),
    ensures
        !fits_i32(power(a, n)),
    decreases n - m,
{
    if m < n {
        if -1 <= a <= 1 {
            lemma_power_small(a, m);
        }
        let p = power(a, m);
        assert(p * a > i32::MAX + 1 || p * a < i32::MIN - 1) by (nonlinear_arith)
            requires
                p > i32::MAX || p < i32::MIN,
                a > 1 || a < -1,
        ;
        assert(power(a, m + 1) == p * a);
        if m + 1 < n {
            lemma_power_leaves_range(a, m + 1, n);
        }
    }
}

/// `a` to the power `n` by repeated multiplication, or `None` when it does not fit.
pub fn checked_power(a: i32, n: i32) -> (r: Option<i32>)
    requires
        n >= 0,
    ensures
        r == (if fits_i32(power(a as int, n as nat)) {
            Some(power(a as int, n as nat) as i32)
        } else {
            None
        }),
{
    let mut acc: i32 = 1;
    let mut k: i32 = 0;
    while k < n
        invariant
            0 <= k <= n,
            acc as int == power(a as int, k as nat),
        decreases n - k,
    {
        assert(power(a as int, (k + 1) as nat) == acc * a);
        match acc.checked_mul(a) {
            Some(x) => {
                acc = x;
                k = k + 1;
            },
            None => {
                proof {
                    lemma_power_leaves_range(a as int, (k + 1) as nat, n as nat);
                }
                return None;
            },
        }
    }
    Some(acc)
}

/// Integer arithmetic on two numbers.
fn apply_math(op: &String, a: i32, b: i32) -> (r: Result<Value, RuntimeError>)
    ensures
        result_view(r) == arith(op@, a, b),
{
    if text_is1(op, '+') {
        match a.checked_add(b) {
            Some(x) => Ok(Value::Number(x)),
            None => Err(RuntimeError::Overflow),
        }
    } else if text_is1(op, '-') {
        match a.checked_sub(b) {
            Some(x) => Ok(Value::Number(x)),
            None => Err(RuntimeError::Overflow),
        }
    } else if text_is1(op, '*') {
        match a.checked_mul(b) {
            Some(x) => Ok(Value::Number(x)),
            None => Err(RuntimeError::Overflow),
        }
    } else if text_is1(op, '/') {
        if b == 0 {
            Err(RuntimeError::DivisionByZero)
        } else {
            match a.checked_div(b) {
                Some(x) => Ok(Value::Number(x)),
                None => Err(RuntimeError::Overflow),
            }
        }
    } else if text_is1(op, '^') {
        if b < 0 {
            Err(RuntimeError::NegativeExponent)
        } else {
            match checked_power(a, b) {
                Some(x) => Ok(Value::Number(x)),
                None => Err(RuntimeError::Overflow),
            }
        }
    } else {
        Err(RuntimeError::UndefinedOperator)
    }
}

/// A comparison of two values.
fn apply_compare(op: &String, l: &Value, r: &Value) -> (res: Result<Value, RuntimeError>)
    ensures
        result_view(res) == compare(op@, l@, r@),
{
    match (l, r) {
        (Value::Number(a), Value::Number(b)) => {
            if text_is2(op, '=', '=') {
                Ok(Value::Bool(*a == *b))
            } else if text_is2(op, '!', '=') {
                Ok(Value::Bool(*a != *b))
            } else if text_is2(op, '<', '=') {
                Ok(Value::Bool(*a <= *b))
            } else if text_is2(op, '>', '=') {
                Ok(Value::Bool(*a >= *b))
            } else if text_is1(op, '<') {
                Ok(Value::Bool(*a < *b))
            } else if text_is1(op, '>') {
                Ok(Value::Bool(*a > *b))
            } else {
                Err(RuntimeError::UndefinedOperator)
            }
        },
        (Value::Bool(a), Value::Bool(b)) => {
            if text_is2(op, '=', '=') {
                Ok(Value::Bool(*a == *b))
            } else if text_is2(op, '!', '=') {
                Ok(Value::Bool(*a != *b))
            } else {
                Err(RuntimeError::InvalidBooleanComparison)
            }
        },
        _ => Err(RuntimeError::InvalidComparisonOperands),
    }
}

/// Where the latest binding of `name` stands in a frame.
fn find_binding(frame: &Vec<(String, Value)>, name: &String) -> (r: Option<usize>)
    ensures
        match r {
            None => lookup(frame_view(frame@), name@) is None,
            Some(i) => i < frame@.len() && lookup(frame_view(frame@), name@) == Some(
                frame@[i as int].1@,
            ),
        },
{
    let ghost s = frame_view(frame@);
    let mut i: usize = frame.len();
    assert(s.subrange(0, i as int) =~= s);
    while i > 0
        invariant
            i <= frame@.len(),
            s == frame_view(frame@),
            lookup(s, name@) == lookup(s.subrange(0, i as int), name@),
        decreases i,
    {
        assert(s.subrange(0, i as int).drop_last() =~= s.subrange(0, i - 1));
        if frame[i - 1].0 == *name {
            return Some(i - 1);
        }
        i -= 1;
    }
    None
}

impl Runtime {
    /// An interpreter with no functions and no frames.
    pub fn new() -> (r: Runtime)
        ensures
            r@.funcs == Seq::<(Seq<char>, Seq<Ast>)>::empty(),
            r@.stack == Seq::<Seq<(Seq<char>, Val)>>::empty(),
    {
        let r = Runtime { functions: Vec::new(), stack: Vec::new() };
        assert(r@.funcs =~= Seq::<(Seq<char>, Seq<Ast>)>::empty());
        assert(r@.stack =~= Seq::<Seq<(Seq<char>, Val)>>::empty());
        r
    }

    /// Where the latest definition of `name` stands in the function table.
    fn find_function(&self, name: &String) -> (r: Option<usize>)
        ensures
            match r {
                None => lookup(self@.funcs, name@) is None,
                Some(i) => i < self.functions@.len() && lookup(self@.funcs, name@) == Some(
                    asts_of(self.functions@[i as int].1@),
                ),
            },
    {
        let ghost s = self@.funcs;
        let mut i: usize = self.functions.len();
        assert(s.subrange(0, i as int) =~= s);
        while i > 0
            invariant
                i <= self.functions@.len(),
                s == self@.funcs,
                lookup(s, name@) == lookup(s.subrange(0, i as int), name@),
            decreases i,
        {
            assert(s.subrange(0, i as int).drop_last() =~= s.subrange(0, i - 1));
            if self.functions[i - 1].0 == *name {
                return Some(i - 1);
            }
            i -= 1;
        }
        None
    }

    /// Adds `name` with `body` to the function table.
    fn add_function(&mut self, name: String, body: Vec<Node>)
        ensures
            final(self)@.funcs == old(self)@.funcs.push((name@, asts_of(body@))),
            final(self)@.stack == old(self)@.stack,
    {
        self.functions.push((name, body));
        assert(self@.funcs =~= old(self)@.funcs.push((name@, asts_of(body@))));
    }

    /// Registers a function definition (`name, arguments?, statements...`).
    fn define_function(&mut self, children: &Vec<Node>)
        ensures
            final(self)@.funcs == define(old(self)@.funcs, asts_of(children@)),
            final(self)@.stack == old(self)@.stack,
    {
        proof {
            lemma_asts_of(children@);
        }
        if children.len() > 0 {
            match &children[0] {
                Node::Identifier { value } => {
                    let rest = copy_nodes_from(children, 1);
                    assert(asts_of(children@).drop_first() =~= asts_of(children@).subrange(
                        1,
                        children.len() as int,
                    ));
                    self.add_function(value.clone(), rest);
                },
                _ => {},
            }
        }
    }

    /// Registers the top-level items of a program.
    fn register_items(&mut self, items: &Vec<Node>)
        ensures
            final(self)@.funcs == register(old(self)@.funcs, asts_of(items@)),
            final(self)@.stack == old(self)@.stack,
    {
        let ghost f0 = self@.funcs;
        let mut i: usize = 0;
        while i < items.len()
            invariant
                0 <= i <= items.len(),
                self@.funcs == register(f0, asts_of(items@.subrange(0, i as int))),
                self@.stack == old(self)@.stack,
            decreases items.len() - i,
        {
            proof {
                crate::ast::lemma_asts_of_prefix(items@, i as int);
            }
            let ghost pre = asts_of(items@.subrange(0, i as int + 1));
            assert(pre.drop_last() =~= asts_of(items@.subrange(0, i as int)));
            match &items[i] {
                Node::FunctionDefine { children } => {
                    self.define_function(children);
                },
                Node::Expression { .. } => {
                    let inner = vec![copy_node(&items[i])];
                    let body = vec![Node::FunctionReturn { children: inner }];
                    proof {
                        lemma_asts_of(inner@);
                        lemma_asts_of(body@);
                    }
                    assert(asts_of(inner@) =~= seq![ast_of(items@[i as int])]);
                    assert(asts_of(body@) =~= seq![
                        Ast::FunctionReturn { children: seq![ast_of(items@[i as int])] },
                    ]);
                    self.add_function(main_text(), body);
                },
                Node::Statement { .. } => {
                    let body = vec![copy_node(&items[i])];
                    proof {
                        lemma_asts_of(body@);
                    }
                    assert(asts_of(body@) =~= seq![ast_of(items@[i as int])]);
                    self.add_function(main_text(), body);
                },
                _ => {},
            }
            i += 1;
        }
        assert(items@.subrange(0, items.len() as int) =~= items@);
    }
}

impl Runtime {
    /// Evaluates `node`, with at most `depth` nested evaluations.
    pub fn run_with_depth(&mut self, node: &Node, depth: u64) -> (r: Result<Value, RuntimeError>)
        ensures
            (final(self)@, result_view(r)) == eval(old(self)@, node@, depth as nat),
            final(self)@.stack.len() == old(self)@.stack.len(),
        decreases depth, 0nat,
    {
        if depth == 0 {
            return Err(RuntimeError::DepthExceeded);
        }
        let d: u64 = depth - 1;
        match node {
            Node::Program { children } => {
                self.register_items(children);
                Ok(Value::Bool(true))
            },
            Node::FunctionDefine { children } => {
                self.define_function(children);
                Ok(Value::Bool(true))
            },
            Node::FunctionCall { name, children } => self.call_function(name, children, d),
            Node::FunctionReturn { children } => {
                proof {
                    lemma_asts_of(children@);
                }
                if children.len() == 0 {
                    Err(RuntimeError::MalformedNode)
                } else {
                    self.run_with_depth(&children[0], d)
                }
            },
            Node::Identifier { value } => {
                if self.stack.len() == 0 {
                    Err(RuntimeError::NoActiveFrame)
                } else {
                    let top = self.stack.len() - 1;
                    match find_binding(&self.stack[top], value) {
                        Some(b) => Ok(copy_value(&self.stack[top][b].1)),
                        None => Err(RuntimeError::UndefinedVariable),
                    }
                }
            },
            Node::Statement { children } => {
                proof {
                    lemma_asts_of(children@);
                }
                if children.len() == 0 {
                    Err(RuntimeError::MalformedNode)
                } else {
                    match &children[0] {
                        Node::VariableDefine { .. } | Node::FunctionReturn { .. } => {
                            self.run_with_depth(&children[0], d)
                        },
                        _ => Err(RuntimeError::UnknownStatement),
                    }
                }
            },
            Node::VariableDefine { children } => {
                proof {
                    lemma_asts_of(children@);
                }
                if children.len() < 2 {
                    return Err(RuntimeError::MalformedNode);
                }
                match &children[0] {
                    Node::Identifier { value } => {
                        let v = match self.run_with_depth(&children[1], d) {
                            Ok(v) => v,
                            Err(e) => return Err(e),
                        };
                        self.bind_in_top_frame(value, v)
                    },
                    _ => Err(RuntimeError::MalformedNode),
                }
            },
            Node::Expression { children } => {
                proof {
                    lemma_asts_of(children@);
                }
                if children.len() == 0 {
                    Err(RuntimeError::MalformedNode)
                } else {
                    match &children[0] {
                        Node::ComparisonExpression { .. }
                        | Node::MathExpression { .. }
                        | Node::Number { .. }
                        | Node::FunctionCall { .. }
                        | Node::String { .. }
                        | Node::Bool { .. }
                        | Node::Identifier { .. } => self.run_with_depth(&children[0], d),
                        _ => Err(RuntimeError::UnknownExpression),
                    }
                }
            },
            Node::MathExpression { name, children } => {
                proof {
                    lemma_asts_of(children@);
                }
                if children.len() < 2 {
                    return Err(RuntimeError::MalformedNode);
                }
                let l = match self.run_with_depth(&children[0], d) {
                    Ok(v) => v,
                    Err(e) => return Err(e),
                };
                let r = match self.run_with_depth(&children[1], d) {
                    Ok(v) => v,
                    Err(e) => return Err(e),
                };
                match (&l, &r) {
                    (Value::Number(a), Value::Number(b)) => apply_math(name, *a, *b),
                    _ => Err(RuntimeError::NonNumericOperands),
                }
            },
            Node::ComparisonExpression { name, children } => {
                proof {
                    lemma_asts_of(children@);
                }
                if children.len() < 2 {
                    return Err(RuntimeError::MalformedNode);
                }
                let l = match self.run_with_depth(&children[0], d) {
                    Ok(v) => v,
                    Err(e) => return Err(e),
                };
                let r = match self.run_with_depth(&children[1], d) {
                    Ok(v) => v,
                    Err(e) => return Err(e),
                };
                apply_compare(name, &l, &r)
            },
            Node::Number { value } => Ok(Value::Number(*value)),
            Node::String { value } => Ok(Value::String(value.clone())),
            Node::Bool { value } => Ok(Value::Bool(*value)),
            _ => Err(RuntimeError::UnhandledNode),
        }
    }

    /// Binds `v` to `name` in the current frame and hands back its value.
    fn bind_in_top_frame(&mut self, name: &String, v: Value) -> (r: Result<Value, RuntimeError>)
        ensures
            old(self)@.stack.len() == 0 ==> final(self)@ == old(self)@ && r == Err::<Value, RuntimeError>(RuntimeError::NoActiveFrame),
            old(self)@.stack.len() > 0 ==> final(self)@ == (State {
                stack: old(self)@.stack.update(
                    old(self)@.stack.len() - 1,
                    old(self)@.stack.last().push((name@, v@)),
                ),
                ..old(self)@
            }) && r is Ok && r->Ok_0@ == v@,
    {
        match self.stack.pop() {
            None => Err(RuntimeError::NoActiveFrame),
            Some(mut top) => {
                let out = copy_value(&v);
                let ghost old_top = top@;
                top.push((name.clone(), v));
                assert(frame_view(top@) =~= frame_view(old_top).push((name@, out@)));
                self.stack.push(top);
                assert(self@.stack =~= old(self)@.stack.update(
                    old(self)@.stack.len() - 1,
                    old(self)@.stack.last().push((name@, out@)),
                ));
                Ok(out)
            },
        }
    }

    /// Calls the function `name` with the argument nodes `children`.
    fn call_function(&mut self, name: &String, children: &Vec<Node>, d: u64) -> (r: Result<
        Value,
        RuntimeError,
    >)
        ensures
            (final(self)@, result_view(r)) == eval(
                old(self)@,
                Ast::FunctionCall { name: name@, children: asts_of(children@) },
                (d + 1) as nat,
            ),
            final(self)@.stack.len() == old(self)@.stack.len(),
        decreases d, 1nat,
    {
        let ghost st0 = self@;
        let fi = match self.find_function(name) {
            None => return Err(RuntimeError::UndefinedFunction),
            Some(fi) => fi,
        };
        let body = copy_nodes(&self.functions[fi].1);
        let ghost bv = asts_of(body@);
        proof {
            lemma_asts_of(body@);
            lemma_asts_of(children@);
        }
        let empty: Vec<Node> = Vec::new();
        let (formals, start): (&Vec<Node>, usize) = if body.len() > 0 {
            match &body[0] {
                Node::FunctionArguments { children: f } => (f, 1),
                _ => (&empty, 0),
            }
        } else {
            (&empty, 0)
        };
        let actuals: &Vec<Node> = if children.len() > 0 {
            match &children[0] {
                Node::FunctionArguments { children: a } => a,
                _ => children,
            }
        } else {
            children
        };
        proof {
            lemma_asts_of(formals@);
            lemma_asts_of(actuals@);
        }
        let ghost fs = asts_of(formals@);
        let ghost acts = asts_of(actuals@);
        assert(fs =~= formals_of(bv));
        assert(acts =~= actuals_of(asts_of(children@)));
        let mut frame: Vec<(String, Value)> = Vec::new();
        assert(frame_view(frame@) =~= seq![]);
        let mut j: usize = 0;
        while j < formals.len()
            invariant
                0 <= j <= formals.len(),
                fs == asts_of(formals@),
                acts == asts_of(actuals@),
                fs.len() == formals.len(),
                acts.len() == actuals.len(),
                forall|k: int| 0 <= k < formals.len() ==> #[trigger] fs[k] == ast_of(formals@[k]),
                forall|k: int| 0 <= k < actuals.len() ==> #[trigger] acts[k] == ast_of(actuals@[k]),
                bind_args(self@, fs, acts, j as nat, frame_view(frame@), d as nat) == bind_args(
                    st0,
                    fs,
                    acts,
                    0,
                    seq![],
                    d as nat,
                ),
                self@.stack.len() == st0.stack.len(),
                st0 == old(self)@,
                lookup(st0.funcs, name@) == Some(bv),
                fs == formals_of(bv),
                acts == actuals_of(asts_of(children@)),
            decreases formals.len() - j,
        {
            if j >= actuals.len() {
                return Err(RuntimeError::MissingArgument);
            }
            let ghost pre = self@;
            let ghost fv0 = frame_view(frame@);
            let rv = self.run_with_depth(&actuals[j], d);
            assert(eval(pre, acts[j as int], d as nat) == (self@, result_view(rv)));
            let v = match rv {
                Ok(v) => v,
                Err(e) => {
                    assert(bind_args(pre, fs, acts, j as nat, fv0, d as nat) == (
                        self@,
                        Err::<Seq<(Seq<char>, Val)>, RuntimeError>(e),
                    ));
                    return Err(e);
                },
            };
            let ghost fv = frame_view(frame@);
            match &formals[j] {
                Node::Expression { children: fc } => {
                    proof {
                        lemma_asts_of(fc@);
                    }
                    if fc.len() > 0 {
                        match &fc[0] {
                            Node::Identifier { value } => {
                                let ghost vv = v@;
                                frame.push((value.clone(), v));
                                assert(frame_view(frame@) =~= fv.push((value@, vv)));
                            },
                            _ => {},
                        }
                    }
                },
                _ => {},
            }
            j += 1;
        }
        let ghost s1 = self@;
        let ghost fr = frame_view(frame@);
        self.stack.push(frame);
        assert(self@.stack =~= s1.stack.push(fr));
        let ghost s2 = self@;
        let mut k: usize = start;
        let mut result: Result<Value, RuntimeError> = Err(RuntimeError::MalformedNode);
        while k < body.len()
            invariant
                start <= k <= body.len(),
                bv == asts_of(body@),
                bv.len() == body.len(),
                forall|i: int| 0 <= i < body.len() ==> #[trigger] bv[i] == ast_of(body@[i]),
                eval_body(self@, bv, k as nat, d as nat, result_view(result)) == eval_body(
                    s2,
                    bv,
                    start as nat,
                    d as nat,
                    Err(RuntimeError::MalformedNode),
                ),
                self@.stack.len() == s2.stack.len(),
                st0 == old(self)@,
                lookup(st0.funcs, name@) == Some(bv),
                start == body_start(bv),
                bind_args(st0, fs, acts, 0, seq![], d as nat) == (s1, Ok::<Seq<(Seq<char>, Val)>, RuntimeError>(fr)),
                s2 == (State { stack: s1.stack.push(fr), ..s1 }),
                s1.stack.len() == st0.stack.len(),
            decreases body.len() - k,
        {
            let r = self.run_with_depth(&body[k], d);
            match r {
                Ok(_) => {
                    k += 1;
                },
                Err(_) => {
                    k = body.len();
                },
            }
            result = r;
        }
        let ghost s3 = self@;
        self.stack.pop();
        assert(self@.stack =~= s3.stack.drop_last());
        result
    }
}

/// The state of a fresh runtime.
pub open spec fn initial_state() -> State {
    State { funcs: seq![], stack: seq![] }
}

/// The call that starts a program.
pub open spec fn main_call() -> Ast {
    Ast::FunctionCall { name: main_name(), children: seq![] }
}

/// The result of a program: run it on a fresh runtime to register its
/// functions, then call `main`.
pub open spec fn interpret(program: Ast) -> Result<Val, RuntimeError> {
    let s1 = eval(initial_state(), program, MAX_DEPTH as nat).0;
    eval(s1, main_call(), MAX_DEPTH as nat).1
}

impl Runtime {
    /// Evaluates `node`.
    pub fn run(&mut self, node: &Node) -> (r: Result<Value, RuntimeError>)
        ensures
            (final(self)@, result_view(r)) == eval(old(self)@, node@, MAX_DEPTH as nat),
            final(self)@.stack.len() == old(self)@.stack.len(),
    {
        self.run_with_depth(node, MAX_DEPTH)
    }
}

/// Runs a program: registers its functions on a fresh runtime, then calls `main`.
pub fn start_interpreter(node: &Node) -> (r: Result<Value, RuntimeError>)
    ensures
        result_view(r) == interpret(node@),
{
    let mut runtime = Runtime::new();
    assert(runtime@ == initial_state());
    let _ = runtime.run(node);
    let args: Vec<Node> = Vec::new();
    assert(asts_of(args@) =~= seq![]) by {
        crate::ast::lemma_asts_of_len(args@);
    }
    let start_main = Node::FunctionCall { name: main_text(), children: args };
    runtime.run(&start_main)
}

/// The text `main`.
fn main_text() -> (r: String)
    ensures
        r@ == main_name(),
{
    proof {
        reveal_strlit("main");
    }
    let r = "main".to_owned();
    assert(r@ =~= main_name());
    r
}

} // verus!
