use super::expressions::{
    entries_model, expressions_model, names_of, Array, Boolean, Call, Expression,
    ExpressionView, Function, Identifier, If, Index, Infix, InfixOp, Integer, Prefix, PrefixOp,
    StmtBlock, Str,
};
use super::statements::{ExpressionStmt, Let, Return, Statement, StatementView};
use crate::text::{chopped, decimal, indent, indented, integer_to_string, without_last};
use vstd::prelude::*;
use vstd::string::StringExecFns;

verus! {

broadcast use vstd::std_specs::vec::group_vec_axioms;

// The canonical text of a piece of syntax. Every operator application stands
// in parentheses, so the text shows how an expression was grouped.

/// The text of a unary operator.
pub open spec fn prefix_op(op: PrefixOp) -> Seq<char> {
    match op {
        PrefixOp::Bang => "!"@,
        PrefixOp::Minus => "-"@,
    }
}

/// The text of a binary operator.
pub open spec fn infix_op(op: InfixOp) -> Seq<char> {
    match op {
        InfixOp::Plus => "+"@,
        InfixOp::Minus => "-"@,
        InfixOp::Asterisk => "*"@,
        InfixOp::ForwardSlash => "/"@,
        InfixOp::Equal => "=="@,
        InfixOp::NotEqual => "!="@,
        InfixOp::LessThan => "<"@,
        InfixOp::GreaterThan => ">"@,
    }
}

/// The first `n` of `items`, separated by `, `.
pub open spec fn names(items: Seq<Seq<char>>, n: int) -> Seq<char>
    decreases n,
{
    if n <= 0 || n > items.len() {
        Seq::empty()
    } else if n == 1 {
        items[0]
    } else {
        names(items, n - 1) + ", "@ + items[n - 1]
    }
}

/// The text of a block as it stands after `if`, `else` and a parameter
/// list: with its lines indented by two spaces, but for the closing brace.
pub open spec fn tabbed(block: Seq<char>) -> Seq<char> {
    without_last(indent(block), 3) + "}"@
}

/// The text of an expression.
pub open spec fn expression(e: ExpressionView) -> Seq<char>
    decreases e, 0nat,
{
    match e {
        ExpressionView::Identifier(name) => name,
        ExpressionView::Integer(i) => decimal(i as int),
        ExpressionView::Prefix(op, right) => "("@ + prefix_op(op) + expression(*right) + ")"@,
        ExpressionView::Infix(left, op, right) => "("@ + expression(*left) + " "@ + infix_op(op)
            + " "@ + expression(*right) + ")"@,
        ExpressionView::Boolean(b) => if b {
            "true"@
        } else {
            "false"@
        },
        ExpressionView::If(condition, consequence, alternative) => {
            let head = "if ("@ + expression(*condition) + ") "@ + tabbed(block(consequence));
            match alternative {
                Some(b) => head + " else "@ + tabbed(block(b)),
                None => head,
            }
        },
        ExpressionView::Function(parameters, body) => "fn("@ + names(
            parameters,
            parameters.len() as int,
        ) + ") "@ + tabbed(block(body)),
        ExpressionView::Call(function, arguments) => expression(*function) + "("@ + list(
            arguments,
            arguments.len() as int,
        ) + ")"@,
        ExpressionView::Str(s) => "\""@ + s + "\""@,
        ExpressionView::Array(elements) => "["@ + list(elements, elements.len() as int) + "]"@,
        ExpressionView::Index(left, index) => expression(*left) + "["@ + expression(*index)
            + "]"@,
        ExpressionView::Block(statements) => block(statements),
        ExpressionView::Hash(pairs) => "hash!{\n"@ + entries(pairs, pairs.len() as int) + "}"@,
    }
}

/// The texts of the first `n` of `items`, separated by `, `.
pub open spec fn list(items: Seq<ExpressionView>, n: int) -> Seq<char>
    decreases items, n,
{
    if n <= 0 || n > items.len() {
        Seq::empty()
    } else if n == 1 {
        expression(items[0])
    } else {
        list(items, n - 1) + ", "@ + expression(items[n - 1])
    }
}

/// The texts of the first `n` pairs of a hash literal, each on a line that
/// ends in a comma.
pub open spec fn entries(pairs: Seq<(ExpressionView, ExpressionView)>, n: int) -> Seq<char>
    decreases pairs, n,
{
    if n <= 0 || n > pairs.len() {
        Seq::empty()
    } else {
        entries(pairs, n - 1) + expression(pairs[n - 1].0) + ": "@ + expression(pairs[n - 1].1)
            + ",\n"@
    }
}

/// The text of a block: its statements, each on a line, between braces.
pub open spec fn block(statements: Seq<StatementView>) -> Seq<char>
    decreases statements, statements.len() + 1,
{
    "{\n"@ + lines(statements, statements.len() as int) + "}"@
}

/// The texts of the first `n` of `statements`, each on a line.
pub open spec fn lines(statements: Seq<StatementView>, n: int) -> Seq<char>
    decreases statements, n,
{
    if n <= 0 || n > statements.len() {
        Seq::empty()
    } else {
        lines(statements, n - 1) + statement(statements[n - 1]) + "\n"@
    }
}

/// The text of a statement.
pub open spec fn statement(s: StatementView) -> Seq<char>
    decreases s, 0nat,
{
    match s {
        StatementView::Let(name, value) => "let "@ + name + " = "@ + expression(value) + ";"@,
        StatementView::Return(value) => "return "@ + expression(value) + ";"@,
        StatementView::Expression(value) => expression(value) + ";"@,
        StatementView::EOF => "EOF"@,
    }
}

impl PrefixOp {
    /// The text of this operator.
    pub fn to_string(&self) -> (s: String)
        ensures
            s@ == prefix_op(*self),
    {
        match self {
            PrefixOp::Bang => "!".to_owned(),
            PrefixOp::Minus => "-".to_owned(),
        }
    }
}

impl InfixOp {
    /// The text of this operator.
    pub fn to_string(&self) -> (s: String)
        ensures
            s@ == infix_op(*self),
    {
        match self {
            InfixOp::Plus => "+".to_owned(),
            InfixOp::Minus => "-".to_owned(),
            InfixOp::Asterisk => "*".to_owned(),
            InfixOp::ForwardSlash => "/".to_owned(),
            InfixOp::Equal => "==".to_owned(),
            InfixOp::NotEqual => "!=".to_owned(),
            InfixOp::LessThan => "<".to_owned(),
            InfixOp::GreaterThan => ">".to_owned(),
        }
    }
}

/// The text of a block after `if`, `else` and a parameter list.
fn tabbed_block(block: &StmtBlock) -> (s: String)
    ensures
        s@ == tabbed(self::block(block@)),
    decreases block, 1nat,
{
    let text = block.to_string();
    let shifted = indented(text.as_str());
    let mut s = chopped(shifted.as_str(), 3);
    s.append("}");
    s
}

/// The names of `items`, separated by `, `.
fn names_to_string(items: &Vec<Identifier>) -> (s: String)
    ensures
        s@ == names(names_of(items), items.len() as int),
{
    let mut s = String::new();
    let mut i: usize = 0;
    while i < items.len()
        invariant
            i <= items.len(),
            s@ == names(names_of(items), i as int),
        decreases items.len() - i,
    {
        if i > 0 {
            s.append(", ");
        }
        s.append(items[i].value.as_str());
        i += 1;
        assert(s@ =~= names(names_of(items), i as int));
    }
    s
}

/// The texts of `items`, separated by `, `.
fn list_to_string(items: &Vec<Expression>) -> (s: String)
    ensures
        s@ == list(expressions_model(items), items.len() as int),
    decreases items, 0nat,
{
    let mut s = String::new();
    let mut i: usize = 0;
    while i < items.len()
        invariant
            i <= items.len(),
            s@ == list(expressions_model(items), i as int),
        decreases items.len() - i,
    {
        if i > 0 {
            s.append(", ");
        }
        s.append(items[i].to_string().as_str());
        i += 1;
        assert(s@ =~= list(expressions_model(items), i as int));
    }
    s
}

impl Expression {
    /// The canonical text of this expression.
    pub fn to_string(&self) -> (s: String)
        ensures
            s@ == expression(self@),
        decreases self, 0nat,
    {
        match self {
            Expression::Identifier(i) => i.to_string(),
            Expression::Integer(i) => i.to_string(),
            Expression::Prefix(p) => p.to_string(),
            Expression::Infix(i) => i.to_string(),
            Expression::Boolean(b) => b.to_string(),
            Expression::If(i) => i.to_string(),
            Expression::Function(func) => func.to_string(),
            Expression::Call(c) => c.to_string(),
            Expression::Str(s) => s.to_string(),
            Expression::Array(a) => a.to_string(),
            Expression::Index(i) => i.to_string(),
            Expression::Block(b) => b.to_string(),
            Expression::Hash(h) => h.to_string(),
        }
    }
}

impl Identifier {
    /// The text of this name.
    pub fn to_string(&self) -> (s: String)
        ensures
            s@ == expression(ExpressionView::Identifier(self@)),
    {
        self.value.clone()
    }
}

impl Integer {
    /// The text of this literal.
    pub fn to_string(&self) -> (s: String)
        ensures
            s@ == expression(self@),
    {
        integer_to_string(self.value)
    }
}

impl Prefix {
    /// The canonical text of this expression.
    pub fn to_string(&self) -> (s: String)
        ensures
            s@ == expression(self@),
        decreases self, 0nat,
    {
        let mut s = "(".to_owned();
        s.append(self.operator.to_string().as_str());
        s.append(self.right.to_string().as_str());
        s.append(")");
        assert(s@ =~= expression(self@));
        s
    }
}

impl Infix {
    /// The canonical text of this expression.
    pub fn to_string(&self) -> (s: String)
        ensures
            s@ == expression(self@),
        decreases self, 0nat,
    {
        let mut s = "(".to_owned();
        s.append(self.left.to_string().as_str());
        s.append(" ");
        s.append(self.operator.to_string().as_str());
        s.append(" ");
        s.append(self.right.to_string().as_str());
        s.append(")");
        assert(s@ =~= expression(self@));
        s
    }
}

impl Boolean {
    /// The text of this literal.
    pub fn to_string(&self) -> (s: String)
        ensures
            s@ == expression(self@),
    {
        if self.value {
            "true".to_owned()
        } else {
            "false".to_owned()
        }
    }
}

impl If {
    /// The canonical text of this expression.
    pub fn to_string(&self) -> (s: String)
        ensures
            s@ == expression(self@),
        decreases self, 0nat,
    {
        let mut s = "if (".to_owned();
        s.append(self.condition.to_string().as_str());
        s.append(") ");
        s.append(tabbed_block(&self.consequence).as_str());

        match &self.alternative {
            Some(alt) => {
                s.append(" else ");
                s.append(tabbed_block(alt).as_str());
            },
            None => {},
        }
        assert(s@ =~= expression(self@));
        s
    }
}

impl Function {
    /// The canonical text of this function literal.
    pub fn to_string(&self) -> (s: String)
        ensures
            s@ == expression(self@),
        decreases self, 0nat,
    {
        let mut s = "fn(".to_owned();
        s.append(names_to_string(&self.parameters).as_str());
        s.append(") ");
        s.append(tabbed_block(&self.body).as_str());
        assert(s@ =~= expression(self@));
        s
    }
}

impl Call {
    /// The canonical text of this call.
    pub fn to_string(&self) -> (s: String)
        ensures
            s@ == expression(self@),
        decreases self, 0nat,
    {
        let mut s = self.function.to_string();
        s.append("(");
        s.append(list_to_string(&self.arguments).as_str());
        s.append(")");
        assert(s@ =~= expression(self@));
        s
    }
}

impl Str {
    /// The text of this literal, in quotes.
    pub fn to_string(&self) -> (s: String)
        ensures
            s@ == expression(self@),
    {
        let mut s = "\"".to_owned();
        s.append(self.value.as_str());
        s.append("\"");
        assert(s@ =~= expression(self@));
        s
    }
}

impl Array {
    /// The canonical text of this array literal.
    pub fn to_string(&self) -> (s: String)
        ensures
            s@ == expression(self@),
        decreases self, 0nat,
    {
        let mut s = "[".to_owned();
        s.append(list_to_string(&self.value).as_str());
        s.append("]");
        assert(s@ =~= expression(self@));
        s
    }
}

impl Index {
    /// The canonical text of this indexing.
    pub fn to_string(&self) -> (s: String)
        ensures
            s@ == expression(self@),
        decreases self, 0nat,
    {
        let mut s = self.left.to_string();
        s.append("[");
        s.append(self.index.to_string().as_str());
        s.append("]");
        assert(s@ =~= expression(self@));
        s
    }
}

impl StmtBlock {
    /// The text of this block, a statement to a line.
    pub fn to_string(&self) -> (s: String)
        ensures
            s@ == block(self@),
        decreases self, 0nat,
    {
        let mut s = "{\n".to_owned();
        let mut i: usize = 0;
        while i < self.statements.len()
            invariant
                i <= self.statements.len(),
                s@ == "{\n"@ + lines(self@, i as int),
            decreases self.statements.len() - i,
        {
            s.append(self.statements[i].to_string().as_str());
            s.append("\n");
            i += 1;
            assert(s@ =~= "{\n"@ + lines(self@, i as int));
        }
        s.append("}");
        s
    }
}

impl crate::parser::ast::expressions::Hash {
    /// The text of this hash literal, an entry to a line.
    pub fn to_string(&self) -> (s: String)
        ensures
            s@ == expression(self@),
        decreases self, 0nat,
    {
        let mut s = "hash!{\n".to_owned();
        let mut i: usize = 0;
        while i < self.entries.len()
            invariant
                i <= self.entries.len(),
                s@ == "hash!{\n"@ + entries(entries_model(&self.entries), i as int),
            decreases self.entries.len() - i,
        {
            s.append(self.entries[i].0.to_string().as_str());
            s.append(": ");
            s.append(self.entries[i].1.to_string().as_str());
            s.append(",\n");
            i += 1;
            assert(s@ =~= "hash!{\n"@ + entries(entries_model(&self.entries), i as int));
        }
        s.append("}");
        s
    }
}

impl Statement {
    /// The canonical text of this statement.
    pub fn to_string(&self) -> (s: String)
        ensures
            s@ == statement(self@),
        decreases self, 0nat,
    {
        match self {
            Statement::Let(l) => l.to_string(),
            Statement::Return(r) => r.to_string(),
            Statement::Expression(e) => e.to_string(),
            Statement::EOF => "EOF".to_owned(),
        }
    }
}

impl Let {
    /// The canonical text of this statement.
    pub fn to_string(&self) -> (s: String)
        ensures
            s@ == statement(self@),
        decreases self, 0nat,
    {
        let mut s = "let ".to_owned();
        s.append(self.name.value.as_str());
        s.append(" = ");
        s.append(self.value.to_string().as_str());
        s.append(";");
        assert(s@ =~= statement(self@));
        s
    }
}

impl Return {
    /// The canonical text of this statement.
    pub fn to_string(&self) -> (s: String)
        ensures
            s@ == statement(self@),
        decreases self, 0nat,
    {
        let mut s = "return ".to_owned();
        s.append(self.return_value.to_string().as_str());
        s.append(";");
        assert(s@ =~= statement(self@));
        s
    }
}

impl ExpressionStmt {
    /// The canonical text of this statement.
    pub fn to_string(&self) -> (s: String)
        ensures
            s@ == statement(self@),
        decreases self, 0nat,
    {
        let mut s = self.expression.to_string();
        s.append(";");
        s
    }
}

} // verus!
