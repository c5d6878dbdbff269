use vstd::prelude::*;
use crate::ast::Ast;
use crate::interpreter::{
    MAX_DEPTH, RuntimeError, State, Val, checked, compare, eval, fits_i32, initial_state,
    interpret, lookup, main_call, main_name, power, register,
};

verus! {

broadcast use vstd::seq::group_seq_axioms;

/// The program made of the single expression `a op b` on two number literals.
pub open spec fn binary_program(op: Seq<char>, a: i32, b: i32) -> Ast {
    Ast::Program {
        children: seq![
            Ast::Expression {
                children: seq![
                    Ast::MathExpression {
                        name: op,
                        children: seq![Ast::Number { value: a }, Ast::Number { value: b }],
                    },
                ],
            },
        ],
    }
}

/// The state in which the body of the `main` made for the expression `x` runs.
pub open spec fn main_body_state(x: Ast) -> State {
    State {
        funcs: seq![
            (
                main_name(),
                seq![Ast::FunctionReturn { children: seq![Ast::Expression { children: seq![x] }] }],
            ),
        ],
        stack: seq![seq![]],
    }
}

/// A program made of one expression returns what that expression evaluates to
/// in the frame of `main`.
pub proof fn lemma_single_expression(x: Ast)
    ensures
        interpret(Ast::Program { children: seq![Ast::Expression { children: seq![x] }] }) == eval(
            main_body_state(x),
            Ast::Expression { children: seq![x] },
            (MAX_DEPTH - 2) as nat,
        ).1,
{
    let e = Ast::Expression { children: seq![x] };
    let items = seq![e];
    let body = seq![Ast::FunctionReturn { children: seq![e] }];
    let funcs = seq![(main_name(), body)];
    assert(items.drop_last() =~= seq![]);
    assert(register(seq![], items.drop_last()) == Seq::<(Seq<char>, Seq<Ast>)>::empty());
    assert(Seq::<(Seq<char>, Seq<Ast>)>::empty().push((main_name(), body)) =~= funcs);
    assert(register(seq![], items) == funcs);
    let s1 = State { funcs, stack: seq![] };
    assert(eval(initial_state(), Ast::Program { children: items }, MAX_DEPTH as nat).0 == s1);
    assert(lookup(funcs, main_name()) == Some(body));
    let s2 = State { stack: s1.stack.push(seq![]), ..s1 };
    assert(s1.stack.push(seq![]) =~= seq![seq![]]);
    assert(s2 == main_body_state(x));
    let d = (MAX_DEPTH - 1) as nat;
    assert(crate::interpreter::formals_of(body) =~= seq![]);
    assert(crate::interpreter::body_start(body) == 0);
    assert(crate::interpreter::bind_args(
        s1,
        crate::interpreter::formals_of(body),
        crate::interpreter::actuals_of(seq![]),
        0,
        seq![],
        d,
    ) == (s1, Ok::<Seq<(Seq<char>, Val)>, RuntimeError>(seq![])));
    let inner = eval(s2, body[0], d);
    assert(eval(s2, body[0], d) == eval(s2, e, (d - 1) as nat));
    let fin = crate::interpreter::eval_body(s2, body, 0, d, Err(RuntimeError::MalformedNode));
    if inner.1 is Err {
        assert(fin == inner);
    } else {
        assert(fin == crate::interpreter::eval_body(inner.0, body, 1, d, inner.1));
    }
    assert(eval(s1, main_call(), MAX_DEPTH as nat).1 == fin.1);
}

/// Addition, subtraction, multiplication and division of two number literals
/// give the native checked operation on `i32` (division truncates toward zero),
/// and a division by zero fails rather than traps.
pub proof fn law_arithmetic(a: i32, b: i32)
    ensures
        interpret(binary_program(seq!['+'], a, b)) == checked(a.checked_add(b)),
        interpret(binary_program(seq!['-'], a, b)) == checked(a.checked_sub(b)),
        interpret(binary_program(seq!['*'], a, b)) == checked(a.checked_mul(b)),
        b != 0 ==> interpret(binary_program(seq!['/'], a, b)) == checked(a.checked_div(b)),
        interpret(binary_program(seq!['/'], a, 0)) == Err::<Val, RuntimeError>(
            RuntimeError::DivisionByZero,
        ),
{
    distinct_operators();
    lemma_binary(seq!['+'], a, b);
    lemma_binary(seq!['-'], a, b);
    lemma_binary(seq!['*'], a, b);
    lemma_binary(seq!['/'], a, b);
    lemma_binary(seq!['/'], a, 0);
}

/// `a ^ b` for a non-negative `b` is `a` multiplied by itself `b` times, starting
/// at 1, and fails where that leaves the range of `i32`.
pub proof fn law_power(a: i32, b: i32)
    requires
        b >= 0,
    ensures
        interpret(binary_program(seq!['^'], a, b)) == if fits_i32(power(a as int, b as nat)) {
            Ok::<Val, RuntimeError>(Val::Number(power(a as int, b as nat) as i32))
        } else {
            Err(RuntimeError::Overflow)
        },
        power(a as int, 0) == 1,
        b > 0 ==> power(a as int, b as nat) == power(a as int, (b - 1) as nat) * a,
{
    distinct_operators();
    lemma_binary(seq!['^'], a, b);
}

proof fn distinct_operators()
    ensures
        seq!['-'] != seq!['+'],
        seq!['*'] != seq!['+'],
        seq!['*'] != seq!['-'],
        seq!['/'] != seq!['+'],
        seq!['/'] != seq!['-'],
        seq!['/'] != seq!['*'],
        seq!['^'] != seq!['+'],
        seq!['^'] != seq!['-'],
        seq!['^'] != seq!['*'],
        seq!['^'] != seq!['/'],
{
    assert(seq!['-'][0] != seq!['+'][0]);
    assert(seq!['*'][0] != seq!['+'][0]);
    assert(seq!['*'][0] != seq!['-'][0]);
    assert(seq!['/'][0] != seq!['+'][0]);
    assert(seq!['/'][0] != seq!['-'][0]);
    assert(seq!['/'][0] != seq!['*'][0]);
    assert(seq!['^'][0] != seq!['+'][0]);
    assert(seq!['^'][0] != seq!['-'][0]);
    assert(seq!['^'][0] != seq!['*'][0]);
    assert(seq!['^'][0] != seq!['/'][0]);
}

proof fn lemma_binary(op: Seq<char>, a: i32, b: i32)
    ensures
        interpret(binary_program(op, a, b)) == crate::interpreter::math(
            op,
            Val::Number(a),
            Val::Number(b),
        ),
{
    let x = Ast::MathExpression {
        name: op,
        children: seq![Ast::Number { value: a }, Ast::Number { value: b }],
    };
    lemma_single_expression(x);
    let st = main_body_state(x);
    let d = (MAX_DEPTH - 2) as nat;
    assert(eval(st, Ast::Expression { children: seq![x] }, d) == eval(st, x, (d - 1) as nat));
    let d2 = (d - 2) as nat;
    assert(eval(st, Ast::Number { value: a }, d2) == (st, Ok::<Val, RuntimeError>(Val::Number(a))));
    assert(eval(st, Ast::Number { value: b }, d2) == (st, Ok::<Val, RuntimeError>(Val::Number(b))));
}

/// Calling a function that is not defined fails with `UndefinedFunction`, whatever
/// the arguments, and leaves the state as it was.
pub proof fn law_undefined_function(st: State, name: Seq<char>, args: Seq<Ast>, depth: nat)
    requires
        lookup(st.funcs, name) is None,
        depth > 0,
    ensures
        eval(st, Ast::FunctionCall { name, children: args }, depth) == (
            st,
            Err::<Val, RuntimeError>(RuntimeError::UndefinedFunction),
        ),
{
}

/// An identifier that the current frame does not bind fails with `UndefinedVariable`.
pub proof fn law_undefined_variable(st: State, name: Seq<char>, depth: nat)
    requires
        st.stack.len() > 0,
        lookup(st.stack.last(), name) is None,
        depth > 0,
    ensures
        eval(st, Ast::Identifier { value: name }, depth) == (
            st,
            Err::<Val, RuntimeError>(RuntimeError::UndefinedVariable),
        ),
{
}

/// A number never compares with a boolean or a string, in either order.
pub proof fn law_cross_type_comparison(op: Seq<char>, a: i32, b: bool, t: Seq<char>)
    ensures
        compare(op, Val::Number(a), Val::Bool(b)) == Err::<Val, RuntimeError>(
            RuntimeError::InvalidComparisonOperands,
        ),
        compare(op, Val::Bool(b), Val::Number(a)) == Err::<Val, RuntimeError>(
            RuntimeError::InvalidComparisonOperands,
        ),
        compare(op, Val::Number(a), Val::Str(t)) == Err::<Val, RuntimeError>(
            RuntimeError::InvalidComparisonOperands,
        ),
        compare(op, Val::Str(t), Val::Number(a)) == Err::<Val, RuntimeError>(
            RuntimeError::InvalidComparisonOperands,
        ),
{
}

/// A called function sees only its own frame: a function without parameters
/// whose body returns the variable `x` fails with `UndefinedVariable`, whatever
/// the caller's frames bind.
pub proof fn law_call_frame_isolated(st: State, name: Seq<char>, x: Seq<char>, depth: nat)
    requires
        lookup(st.funcs, name) == Some(
            seq![
                Ast::Statement {
                    children: seq![Ast::FunctionReturn { children: seq![Ast::Identifier { value: x }] }],
                },
            ],
        ),
        depth >= 4,
    ensures
        eval(st, Ast::FunctionCall { name, children: seq![] }, depth).1 == Err::<Val, RuntimeError>(
            RuntimeError::UndefinedVariable,
        ),
{
    let body = lookup(st.funcs, name)->0;
    let s2 = State { stack: st.stack.push(seq![]), ..st };
    let d = (depth - 1) as nat;
    assert(crate::interpreter::formals_of(body) =~= seq![]);
    assert(crate::interpreter::body_start(body) == 0);
    assert(crate::interpreter::bind_args(
        st,
        crate::interpreter::formals_of(body),
        crate::interpreter::actuals_of(seq![]),
        0,
        seq![],
        d,
    ) == (st, Ok::<Seq<(Seq<char>, Val)>, RuntimeError>(seq![])));
    assert(lookup(Seq::<(Seq<char>, Val)>::empty(), x) is None);
    let ret = Ast::FunctionReturn { children: seq![Ast::Identifier { value: x }] };
    assert(eval(s2, body[0], d) == eval(s2, ret, (d - 1) as nat));
    assert(eval(s2, ret, (d - 1) as nat) == eval(s2, Ast::Identifier { value: x }, (d - 2) as nat));
    assert(s2.stack.last() == Seq::<(Seq<char>, Val)>::empty());
    assert(crate::interpreter::eval_body(s2, body, 0, d, Err(RuntimeError::MalformedNode))
        == eval(s2, body[0], d));
}

/// What the last of `items` that registers `k` registers under it.
spec fn registered(items: Seq<Ast>, k: Seq<char>) -> Option<Seq<Ast>>
    decreases items.len(),
{
    if items.len() == 0 {
        None
    } else {
        let n = items.last();
        let here: Option<Seq<Ast>> = match n {
            Ast::FunctionDefine { children } => if children.len() > 0 && children[0] is Identifier
                && children[0]->Identifier_value == k {
                Some(children.drop_first())
            } else {
                None
            },
            Ast::Expression { .. } => if k == main_name() {
                Some(seq![Ast::FunctionReturn { children: seq![n] }])
            } else {
                None
            },
            Ast::Statement { .. } => if k == main_name() {
                Some(seq![n])
            } else {
                None
            },
            _ => None,
        };
        if here is Some {
            here
        } else {
            registered(items.drop_last(), k)
        }
    }
}

proof fn lemma_lookup_push<V>(s: Seq<(Seq<char>, V)>, e: (Seq<char>, V), k: Seq<char>)
    ensures
        lookup(s.push(e), k) == if e.0 == k {
            Some(e.1)
        } else {
            lookup(s, k)
        },
{
    assert(s.push(e).drop_last() =~= s);
}

proof fn lemma_register_lookup(g: Seq<(Seq<char>, Seq<Ast>)>, items: Seq<Ast>, k: Seq<char>)
    ensures
        lookup(register(g, items), k) == if registered(items, k) is Some {
            registered(items, k)
        } else {
            lookup(g, k)
        },
    decreases items.len(),
{
    if items.len() > 0 {
        lemma_register_lookup(g, items.drop_last(), k);
        let f = register(g, items.drop_last());
        let n = items.last();
        match n {
            Ast::FunctionDefine { children } => {
                if children.len() > 0 && children[0] is Identifier {
                    lemma_lookup_push(f, (children[0]->Identifier_value, children.drop_first()), k);
                }
            },
            Ast::Expression { .. } => {
                lemma_lookup_push(
                    f,
                    (main_name(), seq![Ast::FunctionReturn { children: seq![n] }]),
                    k,
                );
            },
            Ast::Statement { .. } => {
                lemma_lookup_push(f, (main_name(), seq![n]), k);
            },
            _ => {},
        }
    }
}

/// Registering a program's items a second time finds every name as the first
/// registration left it: running a program again only overwrites its own
/// definitions with the same bodies.
pub proof fn law_register_idempotent(
    funcs: Seq<(Seq<char>, Seq<Ast>)>,
    items: Seq<Ast>,
    k: Seq<char>,
)
    ensures
        lookup(register(register(funcs, items), items), k) == lookup(register(funcs, items), k),
{
    lemma_register_lookup(register(funcs, items), items, k);
    lemma_register_lookup(funcs, items, k);
}

/// Executing a program depends on its tree alone: two executions of the same
/// parsed program (`start_interpreter` returns `interpret` of its view) give
/// the same result.
pub proof fn law_execute_repeatable(p: Ast, q: Ast)
    requires
        p == q,
    ensures
        interpret(p) == interpret(q),
{
}

} // verus!
