use super::statements::{Statement, StatementView};
use vstd::prelude::*;

verus! {

broadcast use vstd::std_specs::vec::group_vec_axioms;

/// An expression of the language.
#[derive(Debug, PartialEq)]
pub enum Expression {
    Identifier(Identifier),
    Integer(Integer),
    Prefix(Prefix),
    Infix(Infix),
    Boolean(Boolean),
    If(If),
    Function(Function),
    Call(Call),
    Str(Str),
    Array(Array),
    Index(Index),
    Block(StmtBlock),
    Hash(Hash),
}

/// The mathematical value of an [`Expression`]: a tree whose texts and lists
/// are sequences.
pub enum ExpressionView {
    /// A name.
    Identifier(Seq<char>),
    /// An integer literal.
    Integer(i64),
    /// An operator and its operand.
    Prefix(PrefixOp, Box<ExpressionView>),
    /// Left operand, operator, right operand.
    Infix(Box<ExpressionView>, InfixOp, Box<ExpressionView>),
    /// `true` or `false`.
    Boolean(bool),
    /// Condition, consequence, alternative.
    If(Box<ExpressionView>, Seq<StatementView>, Option<Seq<StatementView>>),
    /// Parameter names and body.
    Function(Seq<Seq<char>>, Seq<StatementView>),
    /// Callee and arguments.
    Call(Box<ExpressionView>, Seq<ExpressionView>),
    /// A string literal.
    Str(Seq<char>),
    /// The elements of an array literal.
    Array(Seq<ExpressionView>),
    /// Indexed expression and index.
    Index(Box<ExpressionView>, Box<ExpressionView>),
    /// The statements of a block.
    Block(Seq<StatementView>),
    /// The key-value pairs of a hash literal.
    Hash(Seq<(ExpressionView, ExpressionView)>),
}

#[derive(Debug, PartialEq)]
pub struct Identifier {
    pub value: String,
}

#[derive(Debug, PartialEq)]
pub struct Integer {
    pub value: i64,
}

#[derive(Debug, PartialEq, Eq, Clone, Copy)]
pub enum PrefixOp {
    Bang,
    Minus,
}

#[derive(Debug, PartialEq)]
pub struct Prefix {
    pub operator: PrefixOp,
    pub right: Box<Expression>,
}

#[derive(Debug, PartialEq, Eq, Clone, Copy)]
pub enum InfixOp {
    Plus,
    Minus,
    Asterisk,
    ForwardSlash,
    Equal,
    NotEqual,
    LessThan,
    GreaterThan,
}

#[derive(Debug, PartialEq)]
pub struct Infix {
    pub left: Box<Expression>,
    pub operator: InfixOp,
    pub right: Box<Expression>,
}

#[derive(Debug, PartialEq)]
pub struct Boolean {
    pub value: bool,
}

#[derive(Debug, PartialEq)]
pub struct If {
    pub condition: Box<Expression>,
    pub consequence: StmtBlock,
    pub alternative: Option<StmtBlock>,
}

#[derive(Debug, PartialEq)]
pub struct Function {
    pub parameters: Vec<Identifier>,
    pub body: StmtBlock,
}

#[derive(Debug, PartialEq)]
pub struct Call {
    pub function: Box<Expression>,
    pub arguments: Vec<Expression>,
}

#[derive(Debug, PartialEq)]
pub struct Str {
    pub value: String,
}

#[derive(Debug, PartialEq)]
pub struct Array {
    pub value: Vec<Expression>,
}

#[derive(Debug, PartialEq)]
pub struct Index {
    pub left: Box<Expression>,
    pub index: Box<Expression>,
}

#[derive(Debug, PartialEq)]
pub struct StmtBlock {
    pub statements: Vec<Statement>,
}

#[derive(Debug, PartialEq)]
pub struct Hash {
    pub entries: Vec<(Expression, Expression)>,
}

/// The names of a list of identifiers.
pub open spec fn names_of(v: &Vec<Identifier>) -> Seq<Seq<char>> {
    Seq::new(v.len() as nat, |k: int| v[k].value@)
}

/// The values of a list of expressions.
pub open spec fn expressions_model(v: &Vec<Expression>) -> Seq<ExpressionView>
    decreases v,
{
    Seq::new(
        v.len() as nat,
        |k: int|
            if 0 <= k < v.len() {
                v[k].model()
            } else {
                ExpressionView::Boolean(false)
            },
    )
}

/// The values of a list of pairs of expressions.
pub open spec fn entries_model(v: &Vec<(Expression, Expression)>) -> Seq<
    (ExpressionView, ExpressionView),
>
    decreases v,
{
    Seq::new(
        v.len() as nat,
        |k: int|
            if 0 <= k < v.len() {
                (v[k].0.model(), v[k].1.model())
            } else {
                (ExpressionView::Boolean(false), ExpressionView::Boolean(false))
            },
    )
}

/// The values of a list of statements.
pub open spec fn statements_model(v: &Vec<Statement>) -> Seq<StatementView>
    decreases v,
{
    Seq::new(
        v.len() as nat,
        |k: int|
            if 0 <= k < v.len() {
                v[k].model()
            } else {
                StatementView::EOF
            },
    )
}

impl Expression {
    /// The value of this expression; `self@` is the same.
    pub open spec fn model(&self) -> ExpressionView
        decreases self,
    {
        match self {
            Expression::Identifier(i) => ExpressionView::Identifier(i.value@),
            Expression::Integer(i) => ExpressionView::Integer(i.value),
            Expression::Prefix(p) => ExpressionView::Prefix(p.operator, Box::new(p.right.model())),
            Expression::Infix(i) => ExpressionView::Infix(
                Box::new(i.left.model()),
                i.operator,
                Box::new(i.right.model()),
            ),
            Expression::Boolean(b) => ExpressionView::Boolean(b.value),
            Expression::If(i) => ExpressionView::If(
                Box::new(i.condition.model()),
                statements_model(&i.consequence.statements),
                match &i.alternative {
                    Some(b) => Some(statements_model(&b.statements)),
                    None => None,
                },
            ),
            Expression::Function(f) => ExpressionView::Function(
                names_of(&f.parameters),
                statements_model(&f.body.statements),
            ),
            Expression::Call(c) => ExpressionView::Call(
                Box::new(c.function.model()),
                expressions_model(&c.arguments),
            ),
            Expression::Str(s) => ExpressionView::Str(s.value@),
            Expression::Array(a) => ExpressionView::Array(expressions_model(&a.value)),
            Expression::Index(i) => ExpressionView::Index(
                Box::new(i.left.model()),
                Box::new(i.index.model()),
            ),
            Expression::Block(b) => ExpressionView::Block(statements_model(&b.statements)),
            Expression::Hash(h) => ExpressionView::Hash(entries_model(&h.entries)),
        }
    }
}

impl View for Expression {
    type V = ExpressionView;

    open spec fn view(&self) -> ExpressionView {
        self.model()
    }
}

impl View for Identifier {
    type V = Seq<char>;

    open spec fn view(&self) -> Seq<char> {
        self.value@
    }
}

impl View for Integer {
    type V = ExpressionView;

    open spec fn view(&self) -> ExpressionView {
        ExpressionView::Integer(self.value)
    }
}

impl View for Prefix {
    type V = ExpressionView;

    open spec fn view(&self) -> ExpressionView {
        ExpressionView::Prefix(self.operator, Box::new(self.right@))
    }
}

impl View for Infix {
    type V = ExpressionView;

    open spec fn view(&self) -> ExpressionView {
        ExpressionView::Infix(Box::new(self.left@), self.operator, Box::new(self.right@))
    }
}

impl View for Boolean {
    type V = ExpressionView;

    open spec fn view(&self) -> ExpressionView {
        ExpressionView::Boolean(self.value)
    }
}

impl View for StmtBlock {
    type V = Seq<StatementView>;

    open spec fn view(&self) -> Seq<StatementView> {
        statements_model(&self.statements)
    }
}

impl View for If {
    type V = ExpressionView;

    open spec fn view(&self) -> ExpressionView {
        ExpressionView::If(
            Box::new(self.condition@),
            self.consequence@,
            match &self.alternative {
                Some(b) => Some(b@),
                None => None,
            },
        )
    }
}

impl View for Function {
    type V = ExpressionView;

    open spec fn view(&self) -> ExpressionView {
        ExpressionView::Function(names_of(&self.parameters), self.body@)
    }
}

impl View for Call {
    type V = ExpressionView;

    open spec fn view(&self) -> ExpressionView {
        ExpressionView::Call(Box::new(self.function@), expressions_model(&self.arguments))
    }
}

impl View for Str {
    type V = ExpressionView;

    open spec fn view(&self) -> ExpressionView {
        ExpressionView::Str(self.value@)
    }
}

impl View for Array {
    type V = ExpressionView;

    open spec fn view(&self) -> ExpressionView {
        ExpressionView::Array(expressions_model(&self.value))
    }
}

impl View for Index {
    type V = ExpressionView;

    open spec fn view(&self) -> ExpressionView {
        ExpressionView::Index(Box::new(self.left@), Box::new(self.index@))
    }
}

impl View for Hash {
    type V = ExpressionView;

    open spec fn view(&self) -> ExpressionView {
        ExpressionView::Hash(entries_model(&self.entries))
    }
}

/// A copy of a list of identifiers.
pub fn clone_identifiers(v: &Vec<Identifier>) -> (r: Vec<Identifier>)
    ensures
        names_of(&r) == names_of(v),
{
    let mut out: Vec<Identifier> = Vec::new();
    let mut i: usize = 0;
    while i < v.len()
        invariant
            i <= v.len(),
            out.len() == i,
            forall|j: int| 0 <= j < i ==> out[j].value@ == v[j].value@,
        decreases v.len() - i,
    {
        out.push(Identifier { value: v[i].value.clone() });
        i += 1;
    }
    assert(names_of(&out) =~= names_of(v));
    out
}

/// A copy of a list of expressions.
pub fn clone_expressions(v: &Vec<Expression>) -> (r: Vec<Expression>)
    ensures
        expressions_model(&r) == expressions_model(v),
    decreases v,
{
    let mut out: Vec<Expression> = Vec::new();
    let mut i: usize = 0;
    while i < v.len()
        invariant
            i <= v.len(),
            out.len() == i,
            forall|j: int| 0 <= j < i ==> out[j].model() == v[j].model(),
        decreases v.len() - i,
    {
        out.push(v[i].clone());
        i += 1;
    }
    assert(expressions_model(&out) =~= expressions_model(v));
    out
}

/// A copy of a list of pairs of expressions.
pub fn clone_entries(v: &Vec<(Expression, Expression)>) -> (r: Vec<(Expression, Expression)>)
    ensures
        entries_model(&r) == entries_model(v),
    decreases v,
{
    let mut out: Vec<(Expression, Expression)> = Vec::new();
    let mut i: usize = 0;
    while i < v.len()
        invariant
            i <= v.len(),
            out.len() == i,
            forall|j: int|
                0 <= j < i ==> out[j].0.model() == v[j].0.model() && out[j].1.model()
                    == v[j].1.model(),
        decreases v.len() - i,
    {
        out.push((v[i].0.clone(), v[i].1.clone()));
        i += 1;
    }
    assert(entries_model(&out) =~= entries_model(v));
    out
}

/// A copy of a list of statements.
pub fn clone_statements(v: &Vec<Statement>) -> (r: Vec<Statement>)
    ensures
        statements_model(&r) == statements_model(v),
    decreases v,
{
    let mut out: Vec<Statement> = Vec::new();
    let mut i: usize = 0;
    while i < v.len()
        invariant
            i <= v.len(),
            out.len() == i,
            forall|j: int| 0 <= j < i ==> out[j].model() == v[j].model(),
        decreases v.len() - i,
    {
        out.push(v[i].clone());
        i += 1;
    }
    assert(statements_model(&out) =~= statements_model(v));
    out
}

impl Clone for Expression {
    fn clone(&self) -> (r: Self)
        ensures
            r@ == self@,
        decreases self,
    {
        match self {
            Expression::Identifier(i) => Expression::Identifier(
                Identifier { value: i.value.clone() },
            ),
            Expression::Integer(i) => Expression::Integer(Integer { value: i.value }),
            Expression::Prefix(p) => Expression::Prefix(
                Prefix { operator: p.operator, right: Box::new((*p.right).clone()) },
            ),
            Expression::Infix(i) => Expression::Infix(
                Infix {
                    left: Box::new((*i.left).clone()),
                    operator: i.operator,
                    right: Box::new((*i.right).clone()),
                },
            ),
            Expression::Boolean(b) => Expression::Boolean(Boolean { value: b.value }),
            Expression::If(i) => Expression::If(
                If {
                    condition: Box::new((*i.condition).clone()),
                    consequence: StmtBlock {
                        statements: clone_statements(&i.consequence.statements),
                    },
                    alternative: match &i.alternative {
                        Some(b) => Some(StmtBlock { statements: clone_statements(&b.statements) }),
                        None => None,
                    },
                },
            ),
            Expression::Function(f) => Expression::Function(
                Function {
                    parameters: clone_identifiers(&f.parameters),
                    body: StmtBlock { statements: clone_statements(&f.body.statements) },
                },
            ),
            Expression::Call(c) => Expression::Call(
                Call {
                    function: Box::new((*c.function).clone()),
                    arguments: clone_expressions(&c.arguments),
                },
            ),
            Expression::Str(s) => Expression::Str(Str { value: s.value.clone() }),
            Expression::Array(a) => Expression::Array(Array { value: clone_expressions(&a.value) }),
            Expression::Index(i) => Expression::Index(
                Index { left: Box::new((*i.left).clone()), index: Box::new((*i.index).clone()) },
            ),
            Expression::Block(b) => Expression::Block(
                StmtBlock { statements: clone_statements(&b.statements) },
            ),
            Expression::Hash(h) => Expression::Hash(Hash { entries: clone_entries(&h.entries) }),
        }
    }
}

impl Clone for Identifier {
    fn clone(&self) -> (r: Self)
        ensures
            r@ == self@,
    {
        Identifier { value: self.value.clone() }
    }
}

impl Clone for StmtBlock {
    fn clone(&self) -> (r: Self)
        ensures
            r@ == self@,
    {
        StmtBlock { statements: clone_statements(&self.statements) }
    }
}

impl Clone for Function {
    fn clone(&self) -> (r: Self)
        ensures
            r@ == self@,
    {
        Function { parameters: clone_identifiers(&self.parameters), body: self.body.clone() }
    }
}

} // verus!
