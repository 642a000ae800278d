use vstd::prelude::*;

verus! {

/// A value of the language at run time.
///
/// A number is held as its canonical decimal text: no leading zeros in the
/// integer part (but one `0` where it is empty), no trailing zeros in the
/// fraction, and no dot when the fraction is empty.
///
/// The value is the exact decimal that the text denotes. A 64-bit float holds
/// only about 15 to 17 significant digits, so literals with more differ from
/// their float: here `0.1 == 0.10000000000000000001` is false (as floats the
/// two are equal), and such a literal shows all its digits. Up to 15
/// significant digits the decimal and the float agree in comparisons and in
/// how they show. Floating-point numbers are outside what this library
/// verifies.
#[derive(Debug, PartialEq)]
pub enum RuntimeValue {
    Number(String),
    String(String),
    Boolean(bool),
    Script(String),
    Function { params: Vec<String>, body: Vec<Statement>, return_type: Option<String> },
    Null,
}

#[derive(Debug, PartialEq)]
pub enum Expression {
    Literal(RuntimeValue),
    Variable(String),
    BinaryOp { left: Box<Expression>, op: String, right: Box<Expression> },
    FunctionCall { name: String, args: Vec<(Option<String>, Expression)> },
}

#[derive(Debug, PartialEq)]
pub enum Statement {
    VarDeclaration { immutable: bool, name: String, value: Expression },
    FuncDeclaration {
        name: String,
        params: Vec<String>,
        return_type: Option<String>,
        body: Vec<Statement>,
    },
    IfStatement { condition: Expression, then_branch: Vec<Statement> },
    Expression(Expression),
    Return(Expression),
}

/// The mathematical form of a [`RuntimeValue`].
pub enum ValueV {
    Number(Seq<char>),
    Str(Seq<char>),
    Boolean(bool),
    Script(Seq<char>),
    Function { params: Seq<Seq<char>>, body: Seq<StmtV>, return_type: Option<Seq<char>> },
    Null,
}

/// The mathematical form of an [`Expression`].
pub enum ExprV {
    Literal(ValueV),
    Variable(Seq<char>),
    BinaryOp { left: Box<ExprV>, op: Seq<char>, right: Box<ExprV> },
    FunctionCall { name: Seq<char>, args: Seq<(Option<Seq<char>>, ExprV)> },
}

/// The mathematical form of a [`Statement`].
pub enum StmtV {
    VarDeclaration { immutable: bool, name: Seq<char>, value: ExprV },
    FuncDeclaration {
        name: Seq<char>,
        params: Seq<Seq<char>>,
        return_type: Option<Seq<char>>,
        body: Seq<StmtV>,
    },
    IfStatement { condition: ExprV, then_branch: Seq<StmtV> },
    Expression(ExprV),
    Return(ExprV),
}

pub open spec fn opt_text_view(o: Option<String>) -> Option<Seq<char>> {
    match o {
        Some(t) => Some(t@),
        None => None,
    }
}

pub open spec fn texts_view(v: Vec<String>) -> Seq<Seq<char>> {
    v@.map_values(|t: String| t@)
}

pub open spec fn value_view(v: RuntimeValue) -> ValueV
    decreases v,
{
    match v {
        RuntimeValue::Number(s) => ValueV::Number(s@),
        RuntimeValue::String(s) => ValueV::Str(s@),
        RuntimeValue::Boolean(b) => ValueV::Boolean(b),
        RuntimeValue::Script(s) => ValueV::Script(s@),
        RuntimeValue::Function { params, body, return_type } => ValueV::Function {
            params: texts_view(params),
            body: stmts_view(body),
            return_type: opt_text_view(return_type),
        },
        RuntimeValue::Null => ValueV::Null,
    }
}

pub open spec fn stmts_view(v: Vec<Statement>) -> Seq<StmtV>
    decreases v,
{
    Seq::new(
        v.len() as nat,
        |i: int|
            if 0 <= i < v.len() {
                stmt_view(v[i])
            } else {
                StmtV::Return(ExprV::Literal(ValueV::Null))
            },
    )
}

pub open spec fn args_view(v: Vec<(Option<String>, Expression)>) -> Seq<(Option<Seq<char>>, ExprV)>
    decreases v,
{
    Seq::new(
        v.len() as nat,
        |i: int|
            if 0 <= i < v.len() {
                (opt_text_view(v[i].0), expr_view(v[i].1))
            } else {
                (None, ExprV::Literal(ValueV::Null))
            },
    )
}

pub open spec fn expr_view(e: Expression) -> ExprV
    decreases e,
{
    match e {
        Expression::Literal(v) => ExprV::Literal(value_view(v)),
        Expression::Variable(n) => ExprV::Variable(n@),
        Expression::BinaryOp { left, op, right } => ExprV::BinaryOp {
            left: Box::new(expr_view(*left)),
            op: op@,
            right: Box::new(expr_view(*right)),
        },
        Expression::FunctionCall { name, args } => ExprV::FunctionCall {
            name: name@,
            args: args_view(args),
        },
    }
}

pub open spec fn stmt_view(s: Statement) -> StmtV
    decreases s,
{
    match s {
        Statement::VarDeclaration { immutable, name, value } => StmtV::VarDeclaration {
            immutable,
            name: name@,
            value: expr_view(value),
        },
        Statement::FuncDeclaration { name, params, return_type, body } => StmtV::FuncDeclaration {
            name: name@,
            params: texts_view(params),
            return_type: opt_text_view(return_type),
            body: stmts_view(body),
        },
        Statement::IfStatement { condition, then_branch } => StmtV::IfStatement {
            condition: expr_view(condition),
            then_branch: stmts_view(then_branch),
        },
        Statement::Expression(e) => StmtV::Expression(expr_view(e)),
        Statement::Return(e) => StmtV::Return(expr_view(e)),
    }
}

impl View for RuntimeValue {
    type V = ValueV;

    open spec fn view(&self) -> ValueV {
        value_view(*self)
    }
}

impl View for Expression {
    type V = ExprV;

    open spec fn view(&self) -> ExprV {
        expr_view(*self)
    }
}

impl View for Statement {
    type V = StmtV;

    open spec fn view(&self) -> StmtV {
        stmt_view(*self)
    }
}

// ---------------------------------------------------------------------------
// Copies and comparisons that keep the mathematical form
// ---------------------------------------------------------------------------

pub fn clone_opt_text(o: &Option<String>) -> (r: Option<String>)
    ensures
        opt_text_view(r) == opt_text_view(*o),
{
    match o {
        Some(t) => Some(t.clone()),
        None => None,
    }
}

pub fn clone_texts(v: &Vec<String>) -> (r: Vec<String>)
    ensures
        texts_view(r) == texts_view(*v),
{
    let mut r: Vec<String> = Vec::new();
    let mut i: usize = 0;
    while i < v.len()
        invariant
            i <= v.len(),
            r@.len() == i,
            forall|j: int| 0 <= j < i ==> #[trigger] r@[j]@ == v@[j]@,
        decreases v.len() - i,
    {
        r.push(v[i].clone());
        i = i + 1;
    }
    assert(texts_view(r) =~= texts_view(*v));
    r
}

pub fn clone_value(v: &RuntimeValue) -> (r: RuntimeValue)
    ensures
        r@ == v@,
    decreases v,
{
    match v {
        RuntimeValue::Number(s) => RuntimeValue::Number(s.clone()),
        RuntimeValue::String(s) => RuntimeValue::String(s.clone()),
        RuntimeValue::Boolean(b) => RuntimeValue::Boolean(*b),
        RuntimeValue::Script(s) => RuntimeValue::Script(s.clone()),
        RuntimeValue::Function { params, body, return_type } => RuntimeValue::Function {
            params: clone_texts(params),
            body: clone_stmts(body),
            return_type: clone_opt_text(return_type),
        },
        RuntimeValue::Null => RuntimeValue::Null,
    }
}

pub fn clone_expr(e: &Expression) -> (r: Expression)
    ensures
        r@ == e@,
    decreases e,
{
    match e {
        Expression::Literal(v) => Expression::Literal(clone_value(v)),
        Expression::Variable(n) => Expression::Variable(n.clone()),
        Expression::BinaryOp { left, op, right } => Expression::BinaryOp {
            left: Box::new(clone_expr(left)),
            op: op.clone(),
            right: Box::new(clone_expr(right)),
        },
        Expression::FunctionCall { name, args } => Expression::FunctionCall {
            name: name.clone(),
            args: clone_args(args),
        },
    }
}

pub fn clone_args(args: &Vec<(Option<String>, Expression)>) -> (r: Vec<(Option<String>, Expression)>)
    ensures
        args_view(r) == args_view(*args),
    decreases args,
{
    let mut r: Vec<(Option<String>, Expression)> = Vec::new();
    let mut i: usize = 0;
    while i < args.len()
        invariant
            i <= args.len(),
            r@.len() == i,
            forall|j: int|
                0 <= j < i ==> opt_text_view(#[trigger] r@[j].0) == opt_text_view(args@[j].0)
                    && expr_view(r@[j].1) == expr_view(args@[j].1),
        decreases args.len() - i,
    {
        let item = (clone_opt_text(&args[i].0), clone_expr(&args[i].1));
        r.push(item);
        i = i + 1;
    }
    assert(args_view(r) =~= args_view(*args));
    r
}

pub fn clone_stmt(s: &Statement) -> (r: Statement)
    ensures
        r@ == s@,
    decreases s,
{
    match s {
        Statement::VarDeclaration { immutable, name, value } => Statement::VarDeclaration {
            immutable: *immutable,
            name: name.clone(),
            value: clone_expr(value),
        },
        Statement::FuncDeclaration { name, params, return_type, body } => Statement::FuncDeclaration {
            name: name.clone(),
            params: clone_texts(params),
            return_type: clone_opt_text(return_type),
            body: clone_stmts(body),
        },
        Statement::IfStatement { condition, then_branch } => Statement::IfStatement {
            condition: clone_expr(condition),
            then_branch: clone_stmts(then_branch),
        },
        Statement::Expression(e) => Statement::Expression(clone_expr(e)),
        Statement::Return(e) => Statement::Return(clone_expr(e)),
    }
}

pub fn clone_stmts(ss: &Vec<Statement>) -> (r: Vec<Statement>)
    ensures
        stmts_view(r) == stmts_view(*ss),
    decreases ss,
{
    let mut r: Vec<Statement> = Vec::new();
    let mut i: usize = 0;
    while i < ss.len()
        invariant
            i <= ss.len(),
            r@.len() == i,
            forall|j: int| 0 <= j < i ==> stmt_view(#[trigger] r@[j]) == stmt_view(ss@[j]),
        decreases ss.len() - i,
    {
        r.push(clone_stmt(&ss[i]));
        i = i + 1;
    }
    assert(stmts_view(r) =~= stmts_view(*ss));
    r
}

pub fn opt_text_equal(a: &Option<String>, b: &Option<String>) -> (r: bool)
    ensures
        r == (opt_text_view(*a) == opt_text_view(*b)),
{
    match (a, b) {
        (Some(x), Some(y)) => x.eq(y),
        (None, None) => true,
        _ => false,
    }
}

pub fn texts_equal(a: &Vec<String>, b: &Vec<String>) -> (r: bool)
    ensures
        r == (texts_view(*a) == texts_view(*b)),
{
    if a.len() != b.len() {
        assert(texts_view(*a).len() != texts_view(*b).len());
        return false;
    }
    let mut i: usize = 0;
    while i < a.len()
        invariant
            i <= a.len(),
            a.len() == b.len(),
            forall|j: int| 0 <= j < i ==> #[trigger] a@[j]@ == b@[j]@,
        decreases a.len() - i,
    {
        if !a[i].eq(&b[i]) {
            assert(texts_view(*a)[i as int] != texts_view(*b)[i as int]);
            return false;
        }
        i = i + 1;
    }
    assert(texts_view(*a) =~= texts_view(*b));
    true
}

pub fn values_equal(a: &RuntimeValue, b: &RuntimeValue) -> (r: bool)
    ensures
        r == (a@ == b@),
    decreases a,
{
    match a {
        RuntimeValue::Number(x) => match b {
            RuntimeValue::Number(y) => x.eq(y),
            _ => false,
        },
        RuntimeValue::String(x) => match b {
            RuntimeValue::String(y) => x.eq(y),
            _ => false,
        },
        RuntimeValue::Boolean(x) => match b {
            RuntimeValue::Boolean(y) => *x == *y,
            _ => false,
        },
        RuntimeValue::Script(x) => match b {
            RuntimeValue::Script(y) => x.eq(y),
            _ => false,
        },
        RuntimeValue::Function { params, body, return_type } => match b {
            RuntimeValue::Function { params: p2, body: b2, return_type: r2 } => texts_equal(params, p2)
                && opt_text_equal(return_type, r2) && stmts_equal(body, b2),
            _ => false,
        },
        RuntimeValue::Null => matches!(b, RuntimeValue::Null),
    }
}

pub fn exprs_equal(a: &Expression, b: &Expression) -> (r: bool)
    ensures
        r == (a@ == b@),
    decreases a,
{
    match a {
        Expression::Literal(x) => match b {
            Expression::Literal(y) => values_equal(x, y),
            _ => false,
        },
        Expression::Variable(x) => match b {
            Expression::Variable(y) => x.eq(y),
            _ => false,
        },
        Expression::BinaryOp { left, op, right } => match b {
            Expression::BinaryOp { left: l2, op: o2, right: r2 } => op.eq(o2) && exprs_equal(left, l2)
                && exprs_equal(right, r2),
            _ => false,
        },
        Expression::FunctionCall { name, args } => match b {
            Expression::FunctionCall { name: n2, args: a2 } => name.eq(n2) && args_equal(args, a2),
            _ => false,
        },
    }
}

pub fn args_equal(a: &Vec<(Option<String>, Expression)>, b: &Vec<(Option<String>, Expression)>) -> (r:
    bool)
    ensures
        r == (args_view(*a) == args_view(*b)),
    decreases a,
{
    if a.len() != b.len() {
        assert(args_view(*a).len() != args_view(*b).len());
        return false;
    }
    let mut i: usize = 0;
    while i < a.len()
        invariant
            i <= a.len(),
            a.len() == b.len(),
            forall|j: int|
                0 <= j < i ==> opt_text_view(#[trigger] a@[j].0) == opt_text_view(b@[j].0)
                    && expr_view(a@[j].1) == expr_view(b@[j].1),
        decreases a.len() - i,
    {
        if !(opt_text_equal(&a[i].0, &b[i].0) && exprs_equal(&a[i].1, &b[i].1)) {
            assert(args_view(*a)[i as int] != args_view(*b)[i as int]);
            return false;
        }
        i = i + 1;
    }
    assert(args_view(*a) =~= args_view(*b));
    true
}

pub fn stmt_equal(a: &Statement, b: &Statement) -> (r: bool)
    ensures
        r == (a@ == b@),
    decreases a,
{
    match a {
        Statement::VarDeclaration { immutable, name, value } => match b {
            Statement::VarDeclaration { immutable: i2, name: n2, value: v2 } => *immutable == *i2
                && name.eq(n2) && exprs_equal(value, v2),
            _ => false,
        },
        Statement::FuncDeclaration { name, params, return_type, body } => match b {
            Statement::FuncDeclaration { name: n2, params: p2, return_type: r2, body: b2 } => name.eq(
                n2,
            ) && texts_equal(params, p2) && opt_text_equal(return_type, r2) && stmts_equal(body, b2),
            _ => false,
        },
        Statement::IfStatement { condition, then_branch } => match b {
            Statement::IfStatement { condition: c2, then_branch: t2 } => exprs_equal(condition, c2)
                && stmts_equal(then_branch, t2),
            _ => false,
        },
        Statement::Expression(e) => match b {
            Statement::Expression(e2) => exprs_equal(e, e2),
            _ => false,
        },
        Statement::Return(e) => match b {
            Statement::Return(e2) => exprs_equal(e, e2),
            _ => false,
        },
    }
}

pub fn stmts_equal(a: &Vec<Statement>, b: &Vec<Statement>) -> (r: bool)
    ensures
        r == (stmts_view(*a) == stmts_view(*b)),
    decreases a,
{
    if a.len() != b.len() {
        assert(stmts_view(*a).len() != stmts_view(*b).len());
        return false;
    }
    let mut i: usize = 0;
    while i < a.len()
        invariant
            i <= a.len(),
            a.len() == b.len(),
            forall|j: int| 0 <= j < i ==> stmt_view(#[trigger] a@[j]) == stmt_view(b@[j]),
        decreases a.len() - i,
    {
        if !stmt_equal(&a[i], &b[i]) {
            assert(stmts_view(*a)[i as int] != stmts_view(*b)[i as int]);
            return false;
        }
        i = i + 1;
    }
    assert(stmts_view(*a) =~= stmts_view(*b));
    true
}

} // verus!
