use vstd::prelude::*;
use vstd::string::*;
use crate::ast::{Ast, Node, asts_of, concat, pair, prepend, single};
use crate::grammar::{
    comparison_operator, digits_value, kw_else, kw_else_if, kw_false, kw_fn, kw_if, kw_let,
    kw_return, kw_true, spec_argument_lists, spec_arguments, spec_block, spec_block_statements,
    spec_boolean, spec_comparison, spec_else_if_statement, spec_else_statement, spec_expression,
    spec_fold, spec_function_call, spec_function_body, spec_function_definition, spec_function_return,
    spec_guarded_block, spec_identifier, spec_if_statement, spec_infix, spec_item, spec_items,
    spec_l1, spec_l2, spec_l3, spec_l4, spec_number, spec_other_args,
    spec_parenthetical_expression, spec_program, spec_statement, spec_statements, spec_string,
    spec_value, spec_variable_define,
};
use crate::text::{CharClass, Source, is_digit, lemma_run_len_bound, run_len};

verus! {

broadcast use {
    vstd::std_specs::vec::group_vec_axioms,
    vstd::seq::group_seq_axioms,
    Source::lemma_len_fits,
};

/// The view of a parse result.
pub open spec fn pview(r: Option<(Node, usize)>) -> Option<(Ast, int)> {
    match r {
        Some((n, q)) => Some((n@, q as int)),
        None => None,
    }
}

/// A successful parse ends after its start and within the input.
pub open spec fn advances(r: Option<(Node, usize)>, p: usize, len: nat) -> bool {
    match r {
        Some((_, q)) => p < q <= len,
        None => true,
    }
}

proof fn lemma_digits_value_nonneg(d: Seq<char>)
    requires
        forall|i: int| 0 <= i < d.len() ==> is_digit(#[trigger] d[i]),
    ensures
        digits_value(d) >= 0,
    decreases d.len(),
{
    if d.len() > 0 {
        lemma_digits_value_nonneg(d.drop_last());
    }
}

/// A longer run of digits is worth at least as much as its prefix.
proof fn lemma_digits_value_grows(d: Seq<char>, i: int)
    requires
        0 <= i <= d.len(),
        forall|j: int| 0 <= j < d.len() ==> is_digit(#[trigger] d[j]),
    ensures
        digits_value(d) >= digits_value(d.subrange(0, i)),
    decreases d.len(),
{
    if i == d.len() {
        assert(d.subrange(0, i) =~= d);
    } else {
        lemma_digits_value_nonneg(d.drop_last());
        lemma_digits_value_grows(d.drop_last(), i);
        assert(d.drop_last().subrange(0, i) =~= d.subrange(0, i));
    }
}

pub fn identifier(src: &Source, p: usize) -> (r: Option<(Node, usize)>)
    requires
        src.wf(),
        p <= src.view().len(),
    ensures
        pview(r) == spec_identifier(src.view(), p as int),
        advances(r, p, src.view().len()),
{
    let q = src.skip(p, CharClass::Alnum);
    if q > p {
        Some((Node::Identifier { value: src.between(p, q) }, q))
    } else {
        None
    }
}

pub fn number(src: &Source, p: usize) -> (r: Option<(Node, usize)>)
    requires
        src.wf(),
        p <= src.view().len(),
    ensures
        pview(r) == spec_number(src.view(), p as int),
        advances(r, p, src.view().len()),
{
    let ghost s = src.view();
    let q = src.skip(p, CharClass::Digit);
    if q == p {
        return None;
    }
    proof {
        lemma_run_len_bound(s, p as int, CharClass::Digit);
    }
    let ghost d = s.subrange(p as int, q as int);
    let mut acc: i64 = 0;
    let mut i: usize = p;
    assert(s.subrange(p as int, p as int) =~= Seq::<char>::empty());
    while i < q
        invariant
            p <= i <= q,
            q <= s.len(),
            s == src.view(),
            d == s.subrange(p as int, q as int),
            q == p + run_len(s, p as int, CharClass::Digit),
            forall|j: int| p <= j < q ==> is_digit(#[trigger] s[j]),
            acc == digits_value(s.subrange(p as int, i as int)),
            0 <= acc <= i32::MAX,
        decreases q - i,
    {
        let c = src.get(i);
        assert(is_digit(s[i as int]));
        let v: i64 = (c as u32 - '0' as u32) as i64;
        acc = acc * 10 + v;
        assert(s.subrange(p as int, i + 1).drop_last() =~= s.subrange(p as int, i as int));
        assert(acc == digits_value(s.subrange(p as int, i + 1)));
        if acc > i32::MAX as i64 {
            proof {
                assert forall|j: int| 0 <= j < d.len() implies is_digit(#[trigger] d[j]) by {
                    assert(d[j] == s[p + j]);
                }
                lemma_digits_value_grows(d, i + 1 - p);
                assert(d.subrange(0, i + 1 - p) =~= s.subrange(p as int, i + 1));
            }
            return None;
        }
        i += 1;
    }
    Some((Node::Number { value: acc as i32 }, q))
}

pub fn boolean(src: &Source, p: usize) -> (r: Option<(Node, usize)>)
    requires
        src.wf(),
        p <= src.view().len(),
    ensures
        pview(r) == spec_boolean(src.view(), p as int),
        advances(r, p, src.view().len()),
{
    proof {
        reveal_strlit("true");
        reveal_strlit("false");
        assert("true"@ =~= kw_true());
        assert("false"@ =~= kw_false());
    }
    if src.text_at(p, "true") {
        Some((Node::Bool { value: true }, p + 4))
    } else if src.text_at(p, "false") {
        Some((Node::Bool { value: false }, p + 5))
    } else {
        None
    }
}

pub fn string(src: &Source, p: usize) -> (r: Option<(Node, usize)>)
    requires
        src.wf(),
        p <= src.view().len(),
    ensures
        pview(r) == spec_string(src.view(), p as int),
        advances(r, p, src.view().len()),
{
    if !src.char_is(p, '"') {
        return None;
    }
    let a = src.skip(p + 1, CharClass::TextChar);
    if src.char_is(a, '"') {
        Some((Node::String { value: src.between(p + 1, a) }, a + 1))
    } else {
        None
    }
}

pub fn value(src: &Source, p: usize) -> (r: Option<(Node, usize)>)
    requires
        src.wf(),
        p <= src.view().len(),
    ensures
        pview(r) == spec_value(src.view(), p as int),
        advances(r, p, src.view().len()),
{
    let found = match boolean(src, p) {
        Some(x) => Some(x),
        None => match number(src, p) {
            Some(x) => Some(x),
            None => identifier(src, p),
        },
    };
    match found {
        Some((n, q)) => Some((n, src.skip(q, CharClass::WhiteSpace))),
        None => None,
    }
}

/// The comparison operator at `p`, with the position after it.
fn comparison_operator_at(src: &Source, p: usize) -> (r: Option<(String, usize)>)
    requires
        src.wf(),
        p <= src.view().len(),
    ensures
        match r {
            Some((op, q)) => comparison_operator(src.view(), p as int) == Some(op@) && q == p
                + op@.len() && q <= src.view().len(),
            None => comparison_operator(src.view(), p as int) is None,
        },
{
    proof {
        reveal_strlit("==");
        reveal_strlit("!=");
        reveal_strlit("<=");
        reveal_strlit(">=");
        assert("=="@ =~= seq!['=', '=']);
        assert("!="@ =~= seq!['!', '=']);
        assert("<="@ =~= seq!['<', '=']);
        assert(">="@ =~= seq!['>', '=']);
    }
    let ghost s = src.view();
    let n: usize = if src.text_at(p, "==") || src.text_at(p, "!=") || src.text_at(p, "<=")
        || src.text_at(p, ">=") {
        2
    } else if src.char_is(p, '<') || src.char_is(p, '>') {
        1
    } else {
        0
    };
    if n == 0 {
        None
    } else {
        let op = src.between(p, p + n);
        assert(n == 1 ==> op@ =~= seq![s[p as int]]);
        Some((op, p + n))
    }
}

pub fn comparison(src: &Source, p: usize) -> (r: Option<(Node, usize)>)
    requires
        src.wf(),
        p <= src.view().len(),
    ensures
        pview(r) == spec_comparison(src.view(), p as int),
        advances(r, p, src.view().len()),
{
    let (l, q) = match value(src, p) {
        Some(x) => x,
        None => return None,
    };
    let q1 = src.skip(q, CharClass::Space);
    let (op, q2) = match comparison_operator_at(src, q1) {
        Some(x) => x,
        None => return None,
    };
    let q3 = src.skip(q2, CharClass::Space);
    let (rv, q4) = match value(src, q3) {
        Some(x) => x,
        None => return None,
    };
    Some((Node::ComparisonExpression { name: op, children: pair(l, rv) }, q4))
}

pub fn expression(src: &Source, p: usize) -> (r: Option<(Node, usize)>)
    requires
        src.wf(),
        p <= src.view().len(),
    ensures
        pview(r) == spec_expression(src.view(), p as int),
        advances(r, p, src.view().len()),
    decreases src.view().len() - p, 8nat,
{
    let found = match boolean(src, p) {
        Some(x) => Some(x),
        None => match comparison(src, p) {
            Some(x) => Some(x),
            None => match l1(src, p) {
                Some(x) => Some(x),
                None => match function_call(src, p) {
                    Some(x) => Some(x),
                    None => match number(src, p) {
                        Some(x) => Some(x),
                        None => match string(src, p) {
                            Some(x) => Some(x),
                            None => identifier(src, p),
                        },
                    },
                },
            },
        },
    };
    match found {
        Some((n, q)) => Some((Node::Expression { children: single(n) }, q)),
        None => None,
    }
}

pub fn arguments(src: &Source, p: usize) -> (r: Option<(Node, usize)>)
    requires
        src.wf(),
        p <= src.view().len(),
    ensures
        pview(r) == spec_arguments(src.view(), p as int),
        advances(r, p, src.view().len()),
    decreases src.view().len() - p, 9nat,
{
    match expression(src, p) {
        None => None,
        Some((e, q)) => {
            let (rest, r) = other_arg(src, q);
            Some((Node::FunctionArguments { children: prepend(e, rest) }, r))
        },
    }
}

/// The arguments after the first, each led by a comma.
pub fn other_arg(src: &Source, p: usize) -> (r: (Vec<Node>, usize))
    requires
        src.wf(),
        p <= src.view().len(),
    ensures
        (asts_of(r.0@), r.1 as int) == spec_other_args(src.view(), p as int),
        p <= r.1 <= src.view().len(),
    decreases src.view().len() - p, 1nat,
{
    if src.char_is(p, ',') {
        match expression(src, p + 1) {
            None => (Vec::new(), p),
            Some((e, q)) => {
                let (rest, r) = other_arg(src, q);
                (prepend(e, rest), r)
            },
        }
    } else {
        (Vec::new(), p)
    }
}

/// Zero or more argument lists in a row.
pub fn argument_lists(src: &Source, p: usize) -> (r: (Vec<Node>, usize))
    requires
        src.wf(),
        p <= src.view().len(),
    ensures
        (asts_of(r.0@), r.1 as int) == spec_argument_lists(src.view(), p as int),
        p <= r.1 <= src.view().len(),
    decreases src.view().len() - p, 10nat,
{
    match arguments(src, p) {
        None => (Vec::new(), p),
        Some((a, q)) => {
            let (rest, r) = argument_lists(src, q);
            (prepend(a, rest), r)
        },
    }
}

pub fn function_call(src: &Source, p: usize) -> (r: Option<(Node, usize)>)
    requires
        src.wf(),
        p <= src.view().len(),
    ensures
        pview(r) == spec_function_call(src.view(), p as int),
        advances(r, p, src.view().len()),
    decreases src.view().len() - p, 3nat,
{
    let k = src.skip(p, CharClass::Alnum);
    if k > p && src.char_is(k, '(') {
        let (args, q) = argument_lists(src, k + 1);
        if src.char_is(q, ')') {
            Some((Node::FunctionCall { name: src.between(p, k), children: args }, q + 1))
        } else {
            None
        }
    } else {
        None
    }
}

pub fn parenthetical_expression(src: &Source, p: usize) -> (r: Option<(Node, usize)>)
    requires
        src.wf(),
        p <= src.view().len(),
    ensures
        pview(r) == spec_parenthetical_expression(src.view(), p as int),
        advances(r, p, src.view().len()),
    decreases src.view().len() - p, 3nat,
{
    let a = src.skip(p, CharClass::Space);
    if !src.char_is(a, '(') {
        return None;
    }
    let b = src.skip(a + 1, CharClass::Space);
    match l1(src, b) {
        None => None,
        Some((n, q)) => {
            let c = src.skip(q, CharClass::Space);
            if src.char_is(c, ')') {
                Some((n, src.skip(c + 1, CharClass::Space)))
            } else {
                None
            }
        },
    }
}

pub fn l4(src: &Source, p: usize) -> (r: Option<(Node, usize)>)
    requires
        src.wf(),
        p <= src.view().len(),
    ensures
        pview(r) == spec_l4(src.view(), p as int),
        advances(r, p, src.view().len()),
    decreases src.view().len() - p, 4nat,
{
    match function_call(src, p) {
        Some(x) => Some(x),
        None => match number(src, p) {
            Some(x) => Some(x),
            None => match identifier(src, p) {
                Some(x) => Some(x),
                None => parenthetical_expression(src, p),
            },
        },
    }
}

/// An operator of `level` (1: `+ -`, 2: `* /`, 3: `^`) and the operand after it.
pub fn infix(src: &Source, p: usize, level: u8) -> (r: Option<(String, Node, usize)>)
    requires
        src.wf(),
        p <= src.view().len(),
        1 <= level <= 3,
    ensures
        match r {
            Some((op, n, q)) => spec_infix(src.view(), p as int, level as nat) == Some(
                (op@, n@, q as int),
            ) && p < q <= src.view().len(),
            None => spec_infix(src.view(), p as int, level as nat) is None,
        },
    decreases src.view().len() - p, 1nat,
{
    let ghost s = src.view();
    let a = src.skip(p, CharClass::Space);
    if a >= src.len() {
        return None;
    }
    let c = src.get(a);
    let is_op = if level == 1 {
        c == '+' || c == '-'
    } else if level == 2 {
        c == '*' || c == '/'
    } else {
        c == '^'
    };
    if !is_op {
        return None;
    }
    let b = src.skip(a + 1, CharClass::Space);
    let operand = if level == 1 {
        l2(src, b)
    } else if level == 2 {
        l3(src, b)
    } else {
        l4(src, b)
    };
    match operand {
        None => None,
        Some((n, q)) => {
            let op = src.between(a, a + 1);
            assert(op@ =~= seq![s[a as int]]);
            Some((op, n, q))
        },
    }
}

/// A `^` and the operand after it.
pub fn l3_infix(src: &Source, p: usize) -> (r: Option<(String, Node, usize)>)
    requires
        src.wf(),
        p <= src.view().len(),
    ensures
        match r {
            Some((op, n, q)) => spec_infix(src.view(), p as int, 3) == Some((op@, n@, q as int)),
            None => spec_infix(src.view(), p as int, 3) is None,
        },
{
    infix(src, p, 3)
}

/// A `*` or `/` and the operand after it.
pub fn l2_infix(src: &Source, p: usize) -> (r: Option<(String, Node, usize)>)
    requires
        src.wf(),
        p <= src.view().len(),
    ensures
        match r {
            Some((op, n, q)) => spec_infix(src.view(), p as int, 2) == Some((op@, n@, q as int)),
            None => spec_infix(src.view(), p as int, 2) is None,
        },
{
    infix(src, p, 2)
}

/// A `+` or `-` and the operand after it.
pub fn l1_infix(src: &Source, p: usize) -> (r: Option<(String, Node, usize)>)
    requires
        src.wf(),
        p <= src.view().len(),
    ensures
        match r {
            Some((op, n, q)) => spec_infix(src.view(), p as int, 1) == Some((op@, n@, q as int)),
            None => spec_infix(src.view(), p as int, 1) is None,
        },
{
    infix(src, p, 1)
}

/// Folds the operators of `level` from `p` on onto `head`, to the left.
pub fn fold(src: &Source, p: usize, level: u8, head: Node) -> (r: (Node, usize))
    requires
        src.wf(),
        p <= src.view().len(),
        1 <= level <= 3,
    ensures
        (r.0@, r.1 as int) == spec_fold(src.view(), p as int, level as nat, head@),
        p <= r.1 <= src.view().len(),
    decreases src.view().len() - p, 2nat,
{
    match infix(src, p, level) {
        None => (head, p),
        Some((op, n, q)) => fold(
            src,
            q,
            level,
            Node::MathExpression { name: op, children: pair(head, n) },
        ),
    }
}

pub fn l3(src: &Source, p: usize) -> (r: Option<(Node, usize)>)
    requires
        src.wf(),
        p <= src.view().len(),
    ensures
        pview(r) == spec_l3(src.view(), p as int),
        advances(r, p, src.view().len()),
    decreases src.view().len() - p, 5nat,
{
    match l4(src, p) {
        None => None,
        Some((h, q)) => Some(fold(src, q, 3, h)),
    }
}

pub fn l2(src: &Source, p: usize) -> (r: Option<(Node, usize)>)
    requires
        src.wf(),
        p <= src.view().len(),
    ensures
        pview(r) == spec_l2(src.view(), p as int),
        advances(r, p, src.view().len()),
    decreases src.view().len() - p, 6nat,
{
    match l3(src, p) {
        None => None,
        Some((h, q)) => Some(fold(src, q, 2, h)),
    }
}

pub fn l1(src: &Source, p: usize) -> (r: Option<(Node, usize)>)
    requires
        src.wf(),
        p <= src.view().len(),
    ensures
        pview(r) == spec_l1(src.view(), p as int),
        advances(r, p, src.view().len()),
    decreases src.view().len() - p, 7nat,
{
    match l2(src, p) {
        None => None,
        Some((h, q)) => Some(fold(src, q, 1, h)),
    }
}

/// An arithmetic expression: the lowest level of the ladder.
pub fn math_expression(src: &Source, p: usize) -> (r: Option<(Node, usize)>)
    requires
        src.wf(),
        p <= src.view().len(),
    ensures
        pview(r) == spec_l1(src.view(), p as int),
        advances(r, p, src.view().len()),
{
    l1(src, p)
}

pub fn variable_define(src: &Source, p: usize) -> (r: Option<(Node, usize)>)
    requires
        src.wf(),
        p <= src.view().len(),
    ensures
        pview(r) == spec_variable_define(src.view(), p as int),
        advances(r, p, src.view().len()),
{
    proof {
        reveal_strlit("let ");
        assert("let "@ =~= kw_let());
    }
    if !src.text_at(p, "let ") {
        return None;
    }
    let (id, q) = match identifier(src, p + 4) {
        Some(x) => x,
        None => return None,
    };
    let q1 = src.skip(q, CharClass::Space);
    if !src.char_is(q1, '=') {
        return None;
    }
    let q2 = src.skip(q1 + 1, CharClass::Space);
    match expression(src, q2) {
        None => None,
        Some((e, r)) => Some((Node::VariableDefine { children: pair(id, e) }, r)),
    }
}

pub fn function_return(src: &Source, p: usize) -> (r: Option<(Node, usize)>)
    requires
        src.wf(),
        p <= src.view().len(),
    ensures
        pview(r) == spec_function_return(src.view(), p as int),
        advances(r, p, src.view().len()),
{
    proof {
        reveal_strlit("return ");
        assert("return "@ =~= kw_return());
    }
    if !src.text_at(p, "return ") {
        return None;
    }
    let q = p + 7;
    let found = match function_call(src, q) {
        Some(x) => Some(x),
        None => match expression(src, q) {
            Some(x) => Some(x),
            None => identifier(src, q),
        },
    };
    match found {
        None => None,
        Some((n, r)) => Some((Node::FunctionReturn { children: single(n) }, r)),
    }
}

/// A brace-delimited block of statements at `p`.
pub fn block(src: &Source, p: usize) -> (r: Option<(Vec<Node>, usize)>)
    requires
        src.wf(),
        p <= src.view().len(),
    ensures
        match r {
            Some((v, q)) => spec_block(src.view(), p as int) == Some((asts_of(v@), q as int))
                && p < q <= src.view().len(),
            None => spec_block(src.view(), p as int) is None,
        },
    decreases src.view().len() - p, 4nat,
{
    if !src.char_is(p, '{') {
        return None;
    }
    let a = src.skip(p + 1, CharClass::Blank);
    let (stmts, q) = block_statements(src, a);
    let c = src.skip(q, CharClass::Blank);
    if src.char_is(c, '}') {
        Some((stmts, c + 1))
    } else {
        None
    }
}

/// Zero or more statements inside a block, each with the blanks around it.
pub fn block_statements(src: &Source, p: usize) -> (r: (Vec<Node>, usize))
    requires
        src.wf(),
        p <= src.view().len(),
    ensures
        (asts_of(r.0@), r.1 as int) == spec_block_statements(src.view(), p as int),
        p <= r.1 <= src.view().len(),
    decreases src.view().len() - p, 6nat,
{
    let a = src.skip(p, CharClass::Blank);
    match statement(src, a) {
        None => (Vec::new(), p),
        Some((st, q)) => {
            let q1 = src.skip(q, CharClass::Blank);
            let (rest, r) = block_statements(src, q1);
            (prepend(st, rest), r)
        },
    }
}

/// `keyword blanks comparison blanks block`, as in `if` and `else if`.
fn guarded_block(src: &Source, p: usize, kw: &str) -> (r: Option<(Node, Vec<Node>, usize)>)
    requires
        src.wf(),
        p <= src.view().len(),
        kw@.len() > 0,
    ensures
        match r {
            Some((c, v, q)) => spec_guarded_block(src.view(), p as int, kw@) == Some(
                (c@, asts_of(v@), q as int),
            ) && p < q <= src.view().len(),
            None => spec_guarded_block(src.view(), p as int, kw@) is None,
        },
    decreases src.view().len() - p, 1nat,
{
    if !src.text_at(p, kw) {
        return None;
    }
    let a = p + kw.unicode_len();
    let b = src.skip(a, CharClass::Blank);
    if b == a {
        return None;
    }
    let (c, q) = match comparison(src, b) {
        Some(x) => x,
        None => return None,
    };
    let q1 = src.skip(q, CharClass::Blank);
    match block(src, q1) {
        None => None,
        Some((stmts, r)) => Some((c, stmts, r)),
    }
}

pub fn if_statement(src: &Source, p: usize) -> (r: Option<(Node, usize)>)
    requires
        src.wf(),
        p <= src.view().len(),
    ensures
        pview(r) == spec_if_statement(src.view(), p as int),
        advances(r, p, src.view().len()),
    decreases src.view().len() - p, 2nat,
{
    proof {
        reveal_strlit("if");
        assert("if"@ =~= kw_if());
    }
    match guarded_block(src, p, "if") {
        None => None,
        Some((c, stmts, r)) => Some(
            (
                Node::IfStatement { children: pair(c, Node::Statement { children: stmts }) },
                r,
            ),
        ),
    }
}

pub fn else_if_statement(src: &Source, p: usize) -> (r: Option<(Node, usize)>)
    requires
        src.wf(),
        p <= src.view().len(),
    ensures
        pview(r) == spec_else_if_statement(src.view(), p as int),
        advances(r, p, src.view().len()),
    decreases src.view().len() - p, 2nat,
{
    proof {
        reveal_strlit("else if");
        assert("else if"@ =~= kw_else_if());
    }
    match guarded_block(src, p, "else if") {
        None => None,
        Some((c, stmts, r)) => Some(
            (
                Node::ElseIfStatement { children: pair(c, Node::Statement { children: stmts }) },
                r,
            ),
        ),
    }
}

pub fn else_statement(src: &Source, p: usize) -> (r: Option<(Node, usize)>)
    requires
        src.wf(),
        p <= src.view().len(),
    ensures
        pview(r) == spec_else_statement(src.view(), p as int),
        advances(r, p, src.view().len()),
    decreases src.view().len() - p, 2nat,
{
    proof {
        reveal_strlit("else");
        assert("else"@ =~= kw_else());
    }
    if !src.text_at(p, "else") {
        return None;
    }
    let a = src.skip(p + 4, CharClass::Blank);
    match block(src, a) {
        None => None,
        Some((stmts, r)) => Some(
            (Node::ElseStatement { children: single(Node::Statement { children: stmts }) }, r),
        ),
    }
}

pub fn statement(src: &Source, p: usize) -> (r: Option<(Node, usize)>)
    requires
        src.wf(),
        p <= src.view().len(),
    ensures
        pview(r) == spec_statement(src.view(), p as int),
        advances(r, p, src.view().len()),
    decreases src.view().len() - p, 5nat,
{
    let a = src.skip(p, CharClass::Blank);
    let found = match variable_define(src, a) {
        Some(x) => Some(x),
        None => match function_return(src, a) {
            Some(x) => Some(x),
            None => match else_if_statement(src, a) {
                Some(x) => Some(x),
                None => match else_statement(src, a) {
                    Some(x) => Some(x),
                    None => if_statement(src, a),
                },
            },
        },
    };
    match found {
        None => None,
        Some((n, q)) => {
            if src.char_is(q, ';') {
                let q1 = src.skip(q + 1, CharClass::Space);
                Some((Node::Statement { children: single(n) }, src.skip(q1, CharClass::Newline)))
            } else {
                None
            }
        },
    }
}

/// One or more statements in a row, as in a function body (none where the
/// first does not parse).
pub fn statements(src: &Source, p: usize) -> (r: (Vec<Node>, usize))
    requires
        src.wf(),
        p <= src.view().len(),
    ensures
        (asts_of(r.0@), r.1 as int) == spec_statements(src.view(), p as int),
        p <= r.1 <= src.view().len(),
    decreases src.view().len() - p,
{
    match statement(src, p) {
        None => (Vec::new(), p),
        Some((st, q)) => {
            let (rest, r) = statements(src, q);
            (prepend(st, rest), r)
        },
    }
}

pub fn function_definition(src: &Source, p: usize) -> (r: Option<(Node, usize)>)
    requires
        src.wf(),
        p <= src.view().len(),
    ensures
        pview(r) == spec_function_definition(src.view(), p as int),
        advances(r, p, src.view().len()),
{
    proof {
        reveal_strlit("fn ");
        assert("fn "@ =~= kw_fn());
    }
    if !src.text_at(p, "fn ") {
        return None;
    }
    let (name, q) = match identifier(src, p + 3) {
        Some(x) => x,
        None => return None,
    };
    if !src.char_is(q, '(') {
        return None;
    }
    let (args, q1) = argument_lists(src, q + 1);
    if !src.char_is(q1, ')') {
        return None;
    }
    let q2 = src.skip(q1 + 1, CharClass::Space);
    if !src.char_is(q2, '{') {
        return None;
    }
    function_body(src, q2 + 1, prepend(name, args))
}

/// The statements of a function after its `{`, and the closing `}`; `head` holds
/// the name and the parameter lists.
fn function_body(src: &Source, p: usize, head: Vec<Node>) -> (r: Option<(Node, usize)>)
    requires
        src.wf(),
        p <= src.view().len(),
    ensures
        pview(r) == spec_function_body(src.view(), p as int, asts_of(head@)),
        advances(r, p, src.view().len()),
{
    let q = src.skip(p, CharClass::Newline);
    let (stmts, r) = statements(src, q);
    proof {
        crate::ast::lemma_asts_of_len(stmts@);
    }
    if stmts.len() == 0 || !src.char_is(r, '}') {
        return None;
    }
    let end = src.skip(r + 1, CharClass::NewlineOrSpace);
    Some((Node::FunctionDefine { children: concat(head, stmts) }, end))
}

/// A top-level item: a function definition, a statement or an expression.
pub fn item(src: &Source, p: usize) -> (r: Option<(Node, usize)>)
    requires
        src.wf(),
        p <= src.view().len(),
    ensures
        pview(r) == spec_item(src.view(), p as int),
        advances(r, p, src.view().len()),
{
    match function_definition(src, p) {
        Some(x) => Some(x),
        None => match statement(src, p) {
            Some(x) => Some(x),
            None => expression(src, p),
        },
    }
}

/// Zero or more top-level items in a row.
pub fn items(src: &Source, p: usize) -> (r: (Vec<Node>, usize))
    requires
        src.wf(),
        p <= src.view().len(),
    ensures
        (asts_of(r.0@), r.1 as int) == spec_items(src.view(), p as int),
        p <= r.1 <= src.view().len(),
    decreases src.view().len() - p,
{
    match item(src, p) {
        None => (Vec::new(), p),
        Some((n, q)) => {
            let (rest, r) = items(src, q);
            (prepend(n, rest), r)
        },
    }
}

/// A failed parse, with the input that could not be read.
#[derive(Debug, PartialEq)]
pub struct ParseError<'a> {
    pub rest: &'a str,
}

/// Parses a program, handing back the input left after it.
pub fn program<'a>(input: &'a str) -> (r: Result<(&'a str, Node), ParseError<'a>>)
    ensures
        match spec_program(input@) {
            Some((n, q)) => r is Ok && r->Ok_0.1@ == n && 0 <= q <= input@.len()
                && r->Ok_0.0@ == input@.subrange(q, input@.len() as int),
            None => r is Err && r->Err_0.rest@ == input@,
        },
{
    let src = Source::new(input);
    let (found, q) = items(&src, 0);
    proof {
        crate::ast::lemma_asts_of_len(found@);
        reveal(spec_program);
    }
    if found.len() == 0 {
        Err(ParseError { rest: input })
    } else {
        let rest = input.substring_char(q, src.len());
        Ok((rest, Node::Program { children: found }))
    }
}

/// Parses a program that must take up the whole input.
pub fn parse<'a>(input: &'a str) -> (r: Result<Node, ParseError<'a>>)
    ensures
        match spec_program(input@) {
            Some((n, q)) => if q == input@.len() {
                r is Ok && r->Ok_0@ == n
            } else {
                r is Err && r->Err_0.rest@ == input@.subrange(q, input@.len() as int)
            },
            None => r is Err && r->Err_0.rest@ == input@,
        },
{
    match program(input) {
        Err(e) => Err(e),
        Ok((rest, n)) => {
            if rest.unicode_len() == 0 {
                Ok(n)
            } else {
                Err(ParseError { rest })
            }
        },
    }
}

} // verus!
