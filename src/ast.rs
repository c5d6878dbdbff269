use vstd::prelude::*;

verus! {

broadcast use {vstd::std_specs::vec::group_vec_axioms, vstd::seq::group_seq_axioms};

/// A node of the syntax tree, as built by the parser and walked by the interpreter.
#[derive(Debug)]
pub enum Node {
    Program { children: Vec<Node> },
    Statement { children: Vec<Node> },
    FunctionReturn { children: Vec<Node> },
    FunctionDefine { children: Vec<Node> },
    FunctionArguments { children: Vec<Node> },
    FunctionStatements { children: Vec<Node> },
    Expression { children: Vec<Node> },
    MathExpression { name: String, children: Vec<Node> },
    FunctionCall { name: String, children: Vec<Node> },
    VariableDefine { children: Vec<Node> },
    Number { value: i32 },
    Bool { value: bool },
    Identifier { value: String },
    String { value: String },
    ComparisonExpression { name: String, children: Vec<Node> },
    IfStatement { children: Vec<Node> },
    ElseStatement { children: Vec<Node> },
    ElseIfStatement { children: Vec<Node> },
}

/// The mathematical content of a `Node`: texts as character sequences,
/// child lists as sequences.
pub enum Ast {
    Program { children: Seq<Ast> },
    Statement { children: Seq<Ast> },
    FunctionReturn { children: Seq<Ast> },
    FunctionDefine { children: Seq<Ast> },
    FunctionArguments { children: Seq<Ast> },
    FunctionStatements { children: Seq<Ast> },
    Expression { children: Seq<Ast> },
    MathExpression { name: Seq<char>, children: Seq<Ast> },
    FunctionCall { name: Seq<char>, children: Seq<Ast> },
    VariableDefine { children: Seq<Ast> },
    Number { value: i32 },
    Bool { value: bool },
    Identifier { value: Seq<char> },
    Str { value: Seq<char> },
    ComparisonExpression { name: Seq<char>, children: Seq<Ast> },
    IfStatement { children: Seq<Ast> },
    ElseStatement { children: Seq<Ast> },
    ElseIfStatement { children: Seq<Ast> },
}

pub open spec fn ast_of(n: Node) -> Ast
    decreases n, 1nat,
{
    match n {
        Node::Program { children } => Ast::Program { children: asts_of(children@) },
        Node::Statement { children } => Ast::Statement { children: asts_of(children@) },
        Node::FunctionReturn { children } => Ast::FunctionReturn { children: asts_of(children@) },
        Node::FunctionDefine { children } => Ast::FunctionDefine { children: asts_of(children@) },
        Node::FunctionArguments { children } => Ast::FunctionArguments {
            children: asts_of(children@),
        },
        Node::FunctionStatements { children } => Ast::FunctionStatements {
            children: asts_of(children@),
        },
        Node::Expression { children } => Ast::Expression { children: asts_of(children@) },
        Node::MathExpression { name, children } => Ast::MathExpression {
            name: name@,
            children: asts_of(children@),
        },
        Node::FunctionCall { name, children } => Ast::FunctionCall {
            name: name@,
            children: asts_of(children@),
        },
        Node::VariableDefine { children } => Ast::VariableDefine { children: asts_of(children@) },
        Node::Number { value } => Ast::Number { value },
        Node::Bool { value } => Ast::Bool { value },
        Node::Identifier { value } => Ast::Identifier { value: value@ },
        Node::String { value } => Ast::Str { value: value@ },
        Node::ComparisonExpression { name, children } => Ast::ComparisonExpression {
            name: name@,
            children: asts_of(children@),
        },
        Node::IfStatement { children } => Ast::IfStatement { children: asts_of(children@) },
        Node::ElseStatement { children } => Ast::ElseStatement { children: asts_of(children@) },
        Node::ElseIfStatement { children } => Ast::ElseIfStatement {
            children: asts_of(children@),
        },
    }
}

pub open spec fn asts_of(s: Seq<Node>) -> Seq<Ast>
    decreases s, 0nat,
{
    if s.len() == 0 {
        Seq::empty()
    } else {
        asts_of(s.drop_last()).push(ast_of(s.last()))
    }
}

impl View for Node {
    type V = Ast;

    open spec fn view(&self) -> Ast {
        ast_of(*self)
    }
}

/// `asts_of` keeps the length and views each element in place.
pub proof fn lemma_asts_of(s: Seq<Node>)
    ensures
        asts_of(s).len() == s.len(),
        forall|i: int| 0 <= i < s.len() ==> #[trigger] asts_of(s)[i] == ast_of(s[i]),
    decreases s.len(),
{
    if s.len() > 0 {
        lemma_asts_of(s.drop_last());
    }
}

/// `asts_of` keeps the length.
pub proof fn lemma_asts_of_len(s: Seq<Node>)
    ensures
        asts_of(s).len() == s.len(),
    decreases s.len(),
{
    if s.len() > 0 {
        lemma_asts_of_len(s.drop_last());
    }
}

/// Views of a prefix: the view of the first `i + 1` nodes extends that of the first `i`.
pub proof fn lemma_asts_of_prefix(s: Seq<Node>, i: int)
    requires
        0 <= i < s.len(),
    ensures
        asts_of(s.subrange(0, i + 1)) == asts_of(s.subrange(0, i)).push(ast_of(s[i])),
{
    assert(s.subrange(0, i + 1).drop_last() =~= s.subrange(0, i));
}

/// A copy of a whole tree, with the same view.
pub fn copy_node(n: &Node) -> (r: Node)
    ensures
        r@ == n@,
    decreases n,
{
    match n {
        Node::Program { children } => Node::Program { children: copy_nodes(children) },
        Node::Statement { children } => Node::Statement { children: copy_nodes(children) },
        Node::FunctionReturn { children } => Node::FunctionReturn { children: copy_nodes(children) },
        Node::FunctionDefine { children } => Node::FunctionDefine { children: copy_nodes(children) },
        Node::FunctionArguments { children } => Node::FunctionArguments {
            children: copy_nodes(children),
        },
        Node::FunctionStatements { children } => Node::FunctionStatements {
            children: copy_nodes(children),
        },
        Node::Expression { children } => Node::Expression { children: copy_nodes(children) },
        Node::MathExpression { name, children } => Node::MathExpression {
            name: name.clone(),
            children: copy_nodes(children),
        },
        Node::FunctionCall { name, children } => Node::FunctionCall {
            name: name.clone(),
            children: copy_nodes(children),
        },
        Node::VariableDefine { children } => Node::VariableDefine { children: copy_nodes(children) },
        Node::Number { value } => Node::Number { value: *value },
        Node::Bool { value } => Node::Bool { value: *value },
        Node::Identifier { value } => Node::Identifier { value: value.clone() },
        Node::String { value } => Node::String { value: value.clone() },
        Node::ComparisonExpression { name, children } => Node::ComparisonExpression {
            name: name.clone(),
            children: copy_nodes(children),
        },
        Node::IfStatement { children } => Node::IfStatement { children: copy_nodes(children) },
        Node::ElseStatement { children } => Node::ElseStatement { children: copy_nodes(children) },
        Node::ElseIfStatement { children } => Node::ElseIfStatement {
            children: copy_nodes(children),
        },
    }
}

/// A copy of a list of trees, with the same view.
pub fn copy_nodes(v: &Vec<Node>) -> (r: Vec<Node>)
    ensures
        asts_of(r@) == asts_of(v@),
    decreases v,
{
    let mut r: Vec<Node> = Vec::new();
    let mut i: usize = 0;
    while i < v.len()
        invariant
            0 <= i <= v.len(),
            asts_of(r@) == asts_of(v@.subrange(0, i as int)),
        decreases v.len() - i,
    {
        let c = copy_node(&v[i]);
        proof {
            lemma_asts_of_prefix(v@, i as int);
            assert(r@.push(c).drop_last() =~= r@);
        }
        r.push(c);
        i += 1;
    }
    assert(v@.subrange(0, v.len() as int) =~= v@);
    r
}

/// A copy of the nodes of `v` from index `start` on.
pub fn copy_nodes_from(v: &Vec<Node>, start: usize) -> (r: Vec<Node>)
    requires
        start <= v.len(),
    ensures
        asts_of(r@) == asts_of(v@).subrange(start as int, v.len() as int),
{
    let mut r: Vec<Node> = Vec::new();
    let mut i: usize = start;
    while i < v.len()
        invariant
            start <= i <= v.len(),
            r@.len() == i - start,
            forall|k: int| 0 <= k < r@.len() ==> #[trigger] ast_of(r@[k]) == ast_of(v@[start + k]),
        decreases v.len() - i,
    {
        let c = copy_node(&v[i]);
        r.push(c);
        i += 1;
    }
    proof {
        lemma_asts_of(r@);
        lemma_asts_of(v@);
        assert(asts_of(r@) =~= asts_of(v@).subrange(start as int, v.len() as int));
    }
    r
}

/// `asts_of` distributes over concatenation.
pub proof fn lemma_asts_of_concat(a: Seq<Node>, b: Seq<Node>)
    ensures
        asts_of(a + b) == asts_of(a) + asts_of(b),
{
    lemma_asts_of(a + b);
    lemma_asts_of(a);
    lemma_asts_of(b);
    assert(asts_of(a + b) =~= asts_of(a) + asts_of(b));
}

/// The nodes of `a` followed by those of `b`.
pub fn concat(a: Vec<Node>, b: Vec<Node>) -> (r: Vec<Node>)
    ensures
        asts_of(r@) == asts_of(a@) + asts_of(b@),
{
    let mut r = a;
    let mut b = b;
    let ghost a0 = r@;
    let ghost b0 = b@;
    r.append(&mut b);
    proof {
        lemma_asts_of_concat(a0, b0);
    }
    r
}

/// A list of one node.
pub fn single(n: Node) -> (r: Vec<Node>)
    ensures
        asts_of(r@) == seq![n@],
{
    let r = vec![n];
    proof {
        lemma_asts_of(r@);
    }
    assert(asts_of(r@) =~= seq![r@[0]@]);
    r
}

/// `n` followed by the nodes of `rest`.
pub fn prepend(n: Node, rest: Vec<Node>) -> (r: Vec<Node>)
    ensures
        asts_of(r@) == seq![n@] + asts_of(rest@),
{
    concat(single(n), rest)
}

/// A list of two nodes.
pub fn pair(a: Node, b: Node) -> (r: Vec<Node>)
    ensures
        asts_of(r@) == seq![a@, b@],
{
    let r = prepend(a, single(b));
    assert(seq![a@] + seq![b@] =~= seq![a@, b@]);
    r
}

} // verus!
