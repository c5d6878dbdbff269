use vstd::prelude::*;
use crate::ast::Ast;
use crate::text::{CharClass, run_len, char_at, lit_at, is_digit};

verus! {

broadcast use vstd::seq::group_seq_axioms;

// The grammar as parsing functions on a character sequence: each takes a start
// position and gives the node it recognises with the position after it, or
// `None`. Alternatives are tried in order and the first that matches wins.
pub open spec fn kw_true() -> Seq<char> {
    seq!['t', 'r', 'u', 'e']
}

pub open spec fn kw_false() -> Seq<char> {
    seq!['f', 'a', 'l', 's', 'e']
}

pub open spec fn kw_let() -> Seq<char> {
    seq!['l', 'e', 't', ' ']
}

pub open spec fn kw_return() -> Seq<char> {
    seq!['r', 'e', 't', 'u', 'r', 'n', ' ']
}

pub open spec fn kw_fn() -> Seq<char> {
    seq!['f', 'n', ' ']
}

pub open spec fn kw_if() -> Seq<char> {
    seq!['i', 'f']
}

pub open spec fn kw_else() -> Seq<char> {
    seq!['e', 'l', 's', 'e']
}

pub open spec fn kw_else_if() -> Seq<char> {
    seq!['e', 'l', 's', 'e', ' ', 'i', 'f']
}

/// Whether `q` lies between `p` and the end of `s`.
pub open spec fn ahead(s: Seq<char>, p: int, q: int) -> bool {
    p <= q <= s.len()
}

/// The first alternative that matches.
pub open spec fn first<T>(a: Option<T>, b: Option<T>) -> Option<T> {
    if a is Some {
        a
    } else {
        b
    }
}

/// The value of a run of decimal digits.
pub open spec fn digits_value(d: Seq<char>) -> int
    decreases d.len(),
{
    if d.len() == 0 {
        0
    } else {
        digits_value(d.drop_last()) * 10 + (d.last() as int - '0' as int)
    }
}

pub open spec fn spec_identifier(s: Seq<char>, p: int) -> Option<(Ast, int)> {
    let k = run_len(s, p, CharClass::Alnum);
    if k > 0 {
        Some((Ast::Identifier { value: s.subrange(p, p + k) }, p + k))
    } else {
        None
    }
}

pub open spec fn spec_number(s: Seq<char>, p: int) -> Option<(Ast, int)> {
    let k = run_len(s, p, CharClass::Digit);
    let v = digits_value(s.subrange(p, p + k));
    if k > 0 && v <= i32::MAX {
        Some((Ast::Number { value: v as i32 }, p + k))
    } else {
        None
    }
}

pub open spec fn spec_boolean(s: Seq<char>, p: int) -> Option<(Ast, int)> {
    if lit_at(s, p, kw_true()) {
        Some((Ast::Bool { value: true }, p + 4))
    } else if lit_at(s, p, kw_false()) {
        Some((Ast::Bool { value: false }, p + 5))
    } else {
        None
    }
}

pub open spec fn spec_string(s: Seq<char>, p: int) -> Option<(Ast, int)> {
    let k = run_len(s, p + 1, CharClass::TextChar);
    if char_at(s, p, '"') && char_at(s, p + 1 + k, '"') {
        Some((Ast::Str { value: s.subrange(p + 1, p + 1 + k) }, p + 2 + k))
    } else {
        None
    }
}

/// An operand of a comparison, with the white space after it.
pub open spec fn spec_value(s: Seq<char>, p: int) -> Option<(Ast, int)> {
    match first(spec_boolean(s, p), first(spec_number(s, p), spec_identifier(s, p))) {
        Some((n, q)) => Some((n, q + run_len(s, q, CharClass::WhiteSpace))),
        None => None,
    }
}

/// A comparison operator at `p`.
pub open spec fn comparison_operator(s: Seq<char>, p: int) -> Option<Seq<char>> {
    if lit_at(s, p, seq!['=', '=']) {
        Some(seq!['=', '='])
    } else if lit_at(s, p, seq!['!', '=']) {
        Some(seq!['!', '='])
    } else if lit_at(s, p, seq!['<', '=']) {
        Some(seq!['<', '='])
    } else if lit_at(s, p, seq!['>', '=']) {
        Some(seq!['>', '='])
    } else if char_at(s, p, '<') {
        Some(seq!['<'])
    } else if char_at(s, p, '>') {
        Some(seq!['>'])
    } else {
        None
    }
}

pub open spec fn spec_comparison(s: Seq<char>, p: int) -> Option<(Ast, int)> {
    match spec_value(s, p) {
        None => None,
        Some((l, q)) => {
            let q1 = q + run_len(s, q, CharClass::Space);
            match comparison_operator(s, q1) {
                None => None,
                Some(op) => {
                    let q2 = q1 + op.len();
                    let q3 = q2 + run_len(s, q2, CharClass::Space);
                    match spec_value(s, q3) {
                        None => None,
                        Some((r, q4)) => Some(
                            (Ast::ComparisonExpression { name: op, children: seq![l, r] }, q4),
                        ),
                    }
                },
            }
        },
    }
}

pub open spec fn spec_expression(s: Seq<char>, p: int) -> Option<(Ast, int)>
    decreases s.len() - p, 8nat,
{
    let alt = first(
        spec_boolean(s, p),
        first(
            spec_comparison(s, p),
            first(
                spec_l1(s, p),
                first(
                    spec_function_call(s, p),
                    first(spec_number(s, p), first(spec_string(s, p), spec_identifier(s, p))),
                ),
            ),
        ),
    );
    match alt {
        Some((n, q)) => Some((Ast::Expression { children: seq![n] }, q)),
        None => None,
    }
}

/// A list of arguments: expressions separated by commas.
pub open spec fn spec_arguments(s: Seq<char>, p: int) -> Option<(Ast, int)>
    decreases s.len() - p, 9nat,
{
    match spec_expression(s, p) {
        None => None,
        Some((e, q)) => if p < q <= s.len() {
            let (rest, r) = spec_other_args(s, q);
            Some((Ast::FunctionArguments { children: seq![e] + rest }, r))
        } else {
            None
        },
    }
}

/// The arguments after the first, each led by a comma.
pub open spec fn spec_other_args(s: Seq<char>, p: int) -> (Seq<Ast>, int)
    decreases s.len() - p, 1nat,
{
    if char_at(s, p, ',') {
        match spec_expression(s, p + 1) {
            None => (seq![], p),
            Some((e, q)) => if p < q <= s.len() {
                let (rest, r) = spec_other_args(s, q);
                (seq![e] + rest, r)
            } else {
                (seq![], p)
            },
        }
    } else {
        (seq![], p)
    }
}

/// Zero or more argument lists in a row.
pub open spec fn spec_argument_lists(s: Seq<char>, p: int) -> (Seq<Ast>, int)
    decreases s.len() - p, 10nat,
{
    match spec_arguments(s, p) {
        None => (seq![], p),
        Some((a, q)) => if p < q <= s.len() {
            let (rest, r) = spec_argument_lists(s, q);
            (seq![a] + rest, r)
        } else {
            (seq![], p)
        },
    }
}

pub open spec fn spec_function_call(s: Seq<char>, p: int) -> Option<(Ast, int)>
    decreases s.len() - p, 3nat,
{
    let k = run_len(s, p, CharClass::Alnum);
    if k > 0 && char_at(s, p + k, '(') {
        let (args, q) = spec_argument_lists(s, p + k + 1);
        if char_at(s, q, ')') {
            Some((Ast::FunctionCall { name: s.subrange(p, p + k), children: args }, q + 1))
        } else {
            None
        }
    } else {
        None
    }
}

pub open spec fn spec_parenthetical_expression(s: Seq<char>, p: int) -> Option<(Ast, int)>
    decreases s.len() - p, 3nat,
{
    let a = p + run_len(s, p, CharClass::Space);
    let b = a + 1 + run_len(s, a + 1, CharClass::Space);
    if char_at(s, a, '(') && b <= s.len() {
        match spec_l1(s, b) {
            None => None,
            Some((n, q)) => {
                let c = q + run_len(s, q, CharClass::Space);
                if char_at(s, c, ')') {
                    Some((n, c + 1 + run_len(s, c + 1, CharClass::Space)))
                } else {
                    None
                }
            },
        }
    } else {
        None
    }
}

pub open spec fn spec_l4(s: Seq<char>, p: int) -> Option<(Ast, int)>
    decreases s.len() - p, 4nat,
{
    first(
        spec_function_call(s, p),
        first(
            spec_number(s, p),
            first(spec_identifier(s, p), spec_parenthetical_expression(s, p)),
        ),
    )
}

/// The operator characters of each level of the arithmetic ladder.
pub open spec fn is_level_operator(c: char, level: nat) -> bool {
    if level == 1 {
        c == '+' || c == '-'
    } else if level == 2 {
        c == '*' || c == '/'
    } else {
        c == '^'
    }
}

/// An operator of `level` and the operand after it.
pub open spec fn spec_infix(s: Seq<char>, p: int, level: nat) -> Option<(Seq<char>, Ast, int)>
    decreases s.len() - p, 1nat,
{
    let a = p + run_len(s, p, CharClass::Space);
    let b = a + 1 + run_len(s, a + 1, CharClass::Space);
    if 0 <= a < s.len() && is_level_operator(s[a], level) && b <= s.len() && 1 <= level <= 3 {
        let operand = if level == 1 {
            spec_l2(s, b)
        } else if level == 2 {
            spec_l3(s, b)
        } else {
            spec_l4(s, b)
        };
        match operand {
            None => None,
            Some((n, q)) => Some((seq![s[a]], n, q)),
        }
    } else {
        None
    }
}

/// Folds the operators of `level` from `p` on onto `head`, to the left.
pub open spec fn spec_fold(s: Seq<char>, p: int, level: nat, head: Ast) -> (Ast, int)
    decreases s.len() - p, 2nat,
{
    match spec_infix(s, p, level) {
        None => (head, p),
        Some((op, n, q)) => if p < q <= s.len() {
            spec_fold(s, q, level, Ast::MathExpression { name: op, children: seq![head, n] })
        } else {
            (head, p)
        },
    }
}

pub open spec fn spec_l3(s: Seq<char>, p: int) -> Option<(Ast, int)>
    decreases s.len() - p, 5nat,
{
    match spec_l4(s, p) {
        None => None,
        Some((h, q)) => if ahead(s, p, q) {
            Some(spec_fold(s, q, 3, h))
        } else {
            None
        },
    }
}

pub open spec fn spec_l2(s: Seq<char>, p: int) -> Option<(Ast, int)>
    decreases s.len() - p, 6nat,
{
    match spec_l3(s, p) {
        None => None,
        Some((h, q)) => if ahead(s, p, q) {
            Some(spec_fold(s, q, 2, h))
        } else {
            None
        },
    }
}

pub open spec fn spec_l1(s: Seq<char>, p: int) -> Option<(Ast, int)>
    decreases s.len() - p, 7nat,
{
    match spec_l2(s, p) {
        None => None,
        Some((h, q)) => if ahead(s, p, q) {
            Some(spec_fold(s, q, 1, h))
        } else {
            None
        },
    }
}

pub open spec fn spec_variable_define(s: Seq<char>, p: int) -> Option<(Ast, int)> {
    if lit_at(s, p, kw_let()) {
        match spec_identifier(s, p + 4) {
            None => None,
            Some((id, q)) => {
                let q1 = q + run_len(s, q, CharClass::Space);
                let q2 = q1 + 1 + run_len(s, q1 + 1, CharClass::Space);
                if char_at(s, q1, '=') {
                    match spec_expression(s, q2) {
                        None => None,
                        Some((e, r)) => Some((Ast::VariableDefine { children: seq![id, e] }, r)),
                    }
                } else {
                    None
                }
            },
        }
    } else {
        None
    }
}

pub open spec fn spec_function_return(s: Seq<char>, p: int) -> Option<(Ast, int)> {
    if lit_at(s, p, kw_return()) {
        let q = p + 7;
        match first(
            spec_function_call(s, q),
            first(spec_expression(s, q), spec_identifier(s, q)),
        ) {
            None => None,
            Some((n, r)) => Some((Ast::FunctionReturn { children: seq![n] }, r)),
        }
    } else {
        None
    }
}

/// A brace-delimited block `{ statements }` at `p`, with blanks around the statements.
pub open spec fn spec_block(s: Seq<char>, p: int) -> Option<(Seq<Ast>, int)>
    decreases s.len() - p, 4nat,
{
    let a = p + 1 + run_len(s, p + 1, CharClass::Blank);
    if char_at(s, p, '{') && a <= s.len() {
        let (stmts, q) = spec_block_statements(s, a);
        let c = q + run_len(s, q, CharClass::Blank);
        if ahead(s, a, q) && char_at(s, c, '}') {
            Some((stmts, c + 1))
        } else {
            None
        }
    } else {
        None
    }
}

/// Zero or more statements inside a block, each with the blanks around it.
pub open spec fn spec_block_statements(s: Seq<char>, p: int) -> (Seq<Ast>, int)
    decreases s.len() - p, 6nat,
{
    let a = p + run_len(s, p, CharClass::Blank);
    if a <= s.len() {
        match spec_statement(s, a) {
            None => (seq![], p),
            Some((st, q)) => {
                let q1 = q + run_len(s, q, CharClass::Blank);
                if p < q1 <= s.len() {
                    let (rest, r) = spec_block_statements(s, q1);
                    (seq![st] + rest, r)
                } else {
                    (seq![], p)
                }
            },
        }
    } else {
        (seq![], p)
    }
}

/// `keyword blanks comparison blanks block`, as in `if` and `else if`.
pub open spec fn spec_guarded_block(s: Seq<char>, p: int, kw: Seq<char>) -> Option<(Ast, Seq<Ast>, int)>
    decreases s.len() - p, 1nat,
{
    let a = p + kw.len();
    let k = run_len(s, a, CharClass::Blank);
    if lit_at(s, p, kw) && kw.len() > 0 && k > 0 {
        match spec_comparison(s, a + k) {
            None => None,
            Some((c, q)) => {
                let q1 = q + run_len(s, q, CharClass::Blank);
                if p < q1 <= s.len() {
                    match spec_block(s, q1) {
                        None => None,
                        Some((stmts, r)) => Some((c, stmts, r)),
                    }
                } else {
                    None
                }
            },
        }
    } else {
        None
    }
}

pub open spec fn spec_if_statement(s: Seq<char>, p: int) -> Option<(Ast, int)>
    decreases s.len() - p, 2nat,
{
    match spec_guarded_block(s, p, kw_if()) {
        None => None,
        Some((c, stmts, r)) => Some(
            (Ast::IfStatement { children: seq![c, Ast::Statement { children: stmts }] }, r),
        ),
    }
}

pub open spec fn spec_else_if_statement(s: Seq<char>, p: int) -> Option<(Ast, int)>
    decreases s.len() - p, 2nat,
{
    match spec_guarded_block(s, p, kw_else_if()) {
        None => None,
        Some((c, stmts, r)) => Some(
            (Ast::ElseIfStatement { children: seq![c, Ast::Statement { children: stmts }] }, r),
        ),
    }
}

pub open spec fn spec_else_statement(s: Seq<char>, p: int) -> Option<(Ast, int)>
    decreases s.len() - p, 2nat,
{
    let a = p + 4 + run_len(s, p + 4, CharClass::Blank);
    if lit_at(s, p, kw_else()) && a <= s.len() {
        match spec_block(s, a) {
            None => None,
            Some((stmts, r)) => Some(
                (Ast::ElseStatement { children: seq![Ast::Statement { children: stmts }] }, r),
            ),
        }
    } else {
        None
    }
}

pub open spec fn spec_statement(s: Seq<char>, p: int) -> Option<(Ast, int)>
    decreases s.len() - p, 5nat,
{
    let a = p + run_len(s, p, CharClass::Blank);
    if ahead(s, p, a) {
        match first(
            spec_variable_define(s, a),
            first(
                spec_function_return(s, a),
                first(
                    spec_else_if_statement(s, a),
                    first(spec_else_statement(s, a), spec_if_statement(s, a)),
                ),
            ),
        ) {
            None => None,
            Some((n, q)) => if char_at(s, q, ';') {
                let q1 = q + 1 + run_len(s, q + 1, CharClass::Space);
                Some((Ast::Statement { children: seq![n] }, q1 + run_len(s, q1, CharClass::Newline)))
            } else {
                None
            },
        }
    } else {
        None
    }
}

/// One or more statements in a row, as in a function body.
pub open spec fn spec_statements(s: Seq<char>, p: int) -> (Seq<Ast>, int)
    decreases s.len() - p,
{
    match spec_statement(s, p) {
        None => (seq![], p),
        Some((st, q)) => if p < q <= s.len() {
            let (rest, r) = spec_statements(s, q);
            (seq![st] + rest, r)
        } else {
            (seq![], p)
        },
    }
}

pub open spec fn spec_function_definition(s: Seq<char>, p: int) -> Option<(Ast, int)> {
    if lit_at(s, p, kw_fn()) {
        match spec_identifier(s, p + 3) {
            None => None,
            Some((name, q)) => if char_at(s, q, '(') {
                let (args, q1) = spec_argument_lists(s, q + 1);
                let q2 = q1 + 1 + run_len(s, q1 + 1, CharClass::Space);
                if char_at(s, q1, ')') && char_at(s, q2, '{') {
                    spec_function_body(s, q2 + 1, seq![name] + args)
                } else {
                    None
                }
            } else {
                None
            },
        }
    } else {
        None
    }
}

/// The statements of a function after its `{`, and the closing `}`; `head` holds
/// the name and the parameter lists.
pub open spec fn spec_function_body(s: Seq<char>, p: int, head: Seq<Ast>) -> Option<(Ast, int)> {
    let q = p + run_len(s, p, CharClass::Newline);
    let (stmts, r) = spec_statements(s, q);
    if stmts.len() > 0 && char_at(s, r, '}') {
        Some(
            (
                Ast::FunctionDefine { children: head + stmts },
                r + 1 + run_len(s, r + 1, CharClass::NewlineOrSpace),
            ),
        )
    } else {
        None
    }
}

/// A top-level item: a function definition, a statement or an expression.
pub open spec fn spec_item(s: Seq<char>, p: int) -> Option<(Ast, int)> {
    first(
        spec_function_definition(s, p),
        first(spec_statement(s, p), spec_expression(s, p)),
    )
}

/// Zero or more top-level items in a row.
pub open spec fn spec_items(s: Seq<char>, p: int) -> (Seq<Ast>, int)
    decreases s.len() - p,
{
    match spec_item(s, p) {
        None => (seq![], p),
        Some((n, q)) => if p < q <= s.len() {
            let (rest, r) = spec_items(s, q);
            (seq![n] + rest, r)
        } else {
            (seq![], p)
        },
    }
}

/// A whole program: one or more items, and the position where they end.
#[verifier::opaque]
pub open spec fn spec_program(s: Seq<char>) -> Option<(Ast, int)> {
    let (items, q) = spec_items(s, 0);
    if items.len() > 0 {
        Some((Ast::Program { children: items }, q))
    } else {
        None
    }
}

} // verus!
