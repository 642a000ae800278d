use vstd::prelude::*;

use crate::ast::{ExprV, StmtV, ValueV};
use crate::env::{env_define, env_lookup, lemma_define_then_lookup, scope_define, ScopeV};
use crate::error::ErrorV;
use crate::grammar::{eq_op, ne_op};

verus! {

/// How deep calls of user functions may nest.
///
/// The meaning of a program is defined by recursion on this count, which
/// must go down for the definition to be well founded. It is the largest
/// `u64`, so no run ever reaches it: the interpreter's stack runs out long
/// before, and a script that recurses without end aborts the process. A
/// script that ends is run to its end, however deep its calls nest within
/// the stack. `CallDepthExceeded` comes only from evaluation started with a
/// smaller count (see [`crate::eval::evaluate_expression`]).
pub const MAX_CALL_DEPTH: u64 = 0xffff_ffff_ffff_ffff;

// The meaning of a program: what it does to the outside world (a sequence of
// actions), what it yields, and how its variables end up. Calls of user
// functions nest at most `fuel` deep.

/// The mathematical form of an [`crate::eval::Action`].
pub enum ActionV {
    Log { html: Seq<char> },
    TimeOut { ms: Seq<char> },
    Sleep { ms: Seq<char> },
    StartServer { port: Seq<char>, file_descriptor: Seq<char>, time_out: ValueV },
    EndServer { port: Seq<char> },
    StartCoroutine { routine_name: Seq<char>, func: ValueV, env: Seq<ScopeV> },
    EndCoroutine { routine_name: Seq<char> },
}

/// What evaluating an expression does: its actions and its value or error.
pub type EvalV = (Seq<ActionV>, Result<ValueV, ErrorV>);

/// What running statements does: actions, the value of a `return` met (if
/// any) or an error, and the variables afterwards.
pub type ExecV = (Seq<ActionV>, Result<Option<ValueV>, ErrorV>, Seq<ScopeV>);

/// The names that the interpreter itself answers.
pub open spec fn builtin_name(name: Seq<char>) -> bool {
    name == "time_out"@ || name == "sleep"@ || name == "start_server"@ || name == "end_server"@
        || name == "start_coroutine"@ || name == "end_coroutine"@
}

/// The name of a value's kind, as error messages give it.
pub open spec fn kind_name(v: ValueV) -> Seq<char> {
    match v {
        ValueV::Number(_) => "number"@,
        ValueV::Str(_) => "string"@,
        ValueV::Boolean(_) => "boolean"@,
        ValueV::Script(_) => "script"@,
        ValueV::Function { .. } => "function"@,
        ValueV::Null => "null/undefined"@,
    }
}

/// The text a value shows inside an HTML tag.
pub open spec fn display_text(v: ValueV) -> Seq<char> {
    match v {
        ValueV::Number(n) => n,
        ValueV::Str(s) => s,
        ValueV::Boolean(b) => if b {
            "true"@
        } else {
            "false"@
        },
        ValueV::Script(s) => s,
        ValueV::Null => Seq::empty(),
        ValueV::Function { .. } => "<function>"@,
    }
}

/// `<tag>text</tag>`
pub open spec fn html_element(tag: Seq<char>, text: Seq<char>) -> Seq<char> {
    "<"@ + tag + ">"@ + text + "</"@ + tag + ">"@
}

/// The value of `l op r`.
pub open spec fn compare_values(op: Seq<char>, l: ValueV, r: ValueV) -> ValueV {
    if op == ne_op() {
        ValueV::Boolean(l != r)
    } else if op == eq_op() {
        ValueV::Boolean(l == r)
    } else {
        ValueV::Null
    }
}

pub open spec fn runtime_number(v: ValueV, label: Seq<char>) -> Result<Seq<char>, ErrorV> {
    match v {
        ValueV::Number(n) => Ok(n),
        _ => Err(ErrorV::ExpectedNumber { label, found: kind_name(v) }),
    }
}

pub open spec fn runtime_string(v: ValueV, label: Seq<char>) -> Result<Seq<char>, ErrorV> {
    match v {
        ValueV::Str(s) => Ok(s),
        _ => Err(ErrorV::ExpectedString { label, found: kind_name(v) }),
    }
}

/// A function declared `-> script` must return a script.
pub open spec fn check_return_type(rt: Option<Seq<char>>, v: ValueV) -> Result<(), ErrorV> {
    if rt == Some("script"@) && !(v is Script) {
        Err(ErrorV::ScriptExpected { found: kind_name(v) })
    } else {
        Ok(())
    }
}

pub open spec fn all_labelled(args: Seq<(Option<Seq<char>>, ExprV)>) -> bool {
    forall|i: int| 0 <= i < args.len() ==> (#[trigger] args[i]).0 is Some
}

/// Prefixes the actions `a` to an evaluation.
pub open spec fn after(a: Seq<ActionV>, r: EvalV) -> EvalV {
    (a + r.0, r.1)
}

/// Prefixes the actions `a` to an execution.
pub open spec fn after_exec(a: Seq<ActionV>, r: ExecV) -> ExecV {
    (a + r.0, r.1, r.2)
}

pub open spec fn eval_expr(fuel: nat, env: Seq<ScopeV>, e: ExprV) -> EvalV
    decreases fuel, e, 0nat,
{
    match e {
        ExprV::Literal(v) => (Seq::empty(), Ok(v)),
        ExprV::Variable(n) => (
            Seq::empty(),
            match env_lookup(env, n) {
                Some(v) => Ok(v),
                None => Err(ErrorV::UndefinedVariable { name: n }),
            },
        ),
        ExprV::BinaryOp { left, op, right } => {
            let l = eval_expr(fuel, env, *left);
            match l.1 {
                Err(x) => (l.0, Err(x)),
                Ok(lv) => {
                    let r = eval_expr(fuel, env, *right);
                    match r.1 {
                        Err(x) => (l.0 + r.0, Err(x)),
                        Ok(rv) => (l.0 + r.0, Ok(compare_values(op, lv, rv))),
                    }
                },
            }
        },
        ExprV::FunctionCall { name, args } => eval_call(fuel, env, name, args),
    }
}

/// The value of the first argument labelled `label` (`None` where there is
/// none), evaluated.
pub open spec fn find_arg(
    fuel: nat,
    env: Seq<ScopeV>,
    args: Seq<(Option<Seq<char>>, ExprV)>,
    label: Seq<char>,
    i: int,
) -> (Seq<ActionV>, Option<Result<ValueV, ErrorV>>)
    decreases fuel, args, args.len() - i,
{
    if i < 0 || i >= args.len() {
        (Seq::empty(), None)
    } else if args[i].0 == Some(label) {
        let r = eval_expr(fuel, env, args[i].1);
        (r.0, Some(r.1))
    } else {
        find_arg(fuel, env, args, label, i + 1)
    }
}

/// A labelled argument that must be there.
pub open spec fn required_arg(found: (Seq<ActionV>, Option<Result<ValueV, ErrorV>>), label: Seq<char>) -> EvalV {
    match found.1 {
        Some(r) => (found.0, r),
        None => (found.0, Err(ErrorV::MissingArgument { label })),
    }
}

/// A labelled argument that may be left out: `null` then.
pub open spec fn optional_arg(found: (Seq<ActionV>, Option<Result<ValueV, ErrorV>>)) -> EvalV {
    match found.1 {
        Some(r) => (found.0, r),
        None => (found.0, Ok(ValueV::Null)),
    }
}

pub open spec fn eval_call(
    fuel: nat,
    env: Seq<ScopeV>,
    name: Seq<char>,
    args: Seq<(Option<Seq<char>>, ExprV)>,
) -> EvalV
    decreases fuel, args, args.len() + 3,
{
    let user = if builtin_name(name) {
        None
    } else {
        env_lookup(env, name)
    };
    if let Some(ValueV::Function { params, body, return_type }) = user {
        call_function(fuel, env, params, body, return_type, args)
    } else if name == "time_out"@ || name == "sleep"@ {
        builtin_wait(fuel, env, name, args)
    } else if name == "start_server"@ {
        builtin_start_server(fuel, env, args)
    } else if name == "end_server"@ {
        builtin_end_server(fuel, env, args)
    } else if name == "start_coroutine"@ {
        builtin_start_coroutine(fuel, env, args)
    } else if name == "end_coroutine"@ {
        builtin_end_coroutine(fuel, env, args)
    } else {
        html_tag(fuel, env, name, args)
    }
}

/// `time_out(time: ms)` waits, `sleep(time: ms)` starts a sleeping thread;
/// where `time` is not a number, neither does anything.
pub open spec fn builtin_wait(
    fuel: nat,
    env: Seq<ScopeV>,
    name: Seq<char>,
    args: Seq<(Option<Seq<char>>, ExprV)>,
) -> EvalV
    decreases fuel, args, args.len() + 2,
{
    let t = required_arg(find_arg(fuel, env, args, "time"@, 0), "time"@);
    match t.1 {
        Err(x) => (t.0, Err(x)),
        Ok(v) => {
            let wait = if let ValueV::Number(ms) = v {
                if name == "time_out"@ {
                    seq![ActionV::TimeOut { ms }]
                } else {
                    seq![ActionV::Sleep { ms }]
                }
            } else {
                Seq::empty()
            };
            (t.0 + wait, Ok(ValueV::Null))
        },
    }
}

/// `start_server(port:, file_descriptor:, time_out:)`: the arguments are
/// evaluated in that order, then checked, then the server is asked for.
pub open spec fn builtin_start_server(
    fuel: nat,
    env: Seq<ScopeV>,
    args: Seq<(Option<Seq<char>>, ExprV)>,
) -> EvalV
    decreases fuel, args, args.len() + 2,
{
    let p = required_arg(find_arg(fuel, env, args, "port"@, 0), "port"@);
    if let Err(x) = p.1 {
        (p.0, Err(x))
    } else {
        let f = required_arg(find_arg(fuel, env, args, "file_descriptor"@, 0), "file_descriptor"@);
        if let Err(x) = f.1 {
            (p.0 + f.0, Err(x))
        } else {
            let t = optional_arg(find_arg(fuel, env, args, "time_out"@, 0));
            let acts = p.0 + f.0 + t.0;
            if let Err(x) = t.1 {
                (acts, Err(x))
            } else {
                match runtime_number(p.1->Ok_0, "port"@) {
                    Err(x) => (acts, Err(x)),
                    Ok(port) => match runtime_string(f.1->Ok_0, "file_descriptor"@) {
                        Err(x) => (acts, Err(x)),
                        Ok(fd) => (
                            acts.push(
                                ActionV::StartServer { port, file_descriptor: fd, time_out: t.1->Ok_0 },
                            ),
                            Ok(ValueV::Null),
                        ),
                    },
                }
            }
        }
    }
}

/// `end_server(port:)`
pub open spec fn builtin_end_server(
    fuel: nat,
    env: Seq<ScopeV>,
    args: Seq<(Option<Seq<char>>, ExprV)>,
) -> EvalV
    decreases fuel, args, args.len() + 2,
{
    let p = required_arg(find_arg(fuel, env, args, "port"@, 0), "port"@);
    match p.1 {
        Err(x) => (p.0, Err(x)),
        Ok(v) => match runtime_number(v, "port"@) {
            Err(x) => (p.0, Err(x)),
            Ok(port) => (p.0.push(ActionV::EndServer { port }), Ok(ValueV::Null)),
        },
    }
}

/// `start_coroutine(routine_name:, func:)`: the function runs on its own in
/// a new scope inside the variables of the moment.
///
/// The coroutine gets a copy of those variables. Sharing them instead would
/// let it see definitions that the program makes while both run, but then
/// what it sees would depend on how the two threads happen to be scheduled (a
/// race on the variables). The copy fixes one of those schedules: the one in
/// which the coroutine reads its variables when it starts.
pub open spec fn builtin_start_coroutine(
    fuel: nat,
    env: Seq<ScopeV>,
    args: Seq<(Option<Seq<char>>, ExprV)>,
) -> EvalV
    decreases fuel, args, args.len() + 2,
{
    let n = required_arg(find_arg(fuel, env, args, "routine_name"@, 0), "routine_name"@);
    if let Err(x) = n.1 {
        (n.0, Err(x))
    } else {
        let f = required_arg(find_arg(fuel, env, args, "func"@, 0), "func"@);
        let acts = n.0 + f.0;
        if let Err(x) = f.1 {
            (acts, Err(x))
        } else {
            match runtime_string(n.1->Ok_0, "routine_name"@) {
                Err(x) => (acts, Err(x)),
                Ok(rn) => if f.1->Ok_0 is Function {
                    (
                        acts.push(
                            ActionV::StartCoroutine {
                                routine_name: rn,
                                func: f.1->Ok_0,
                                env: env.push(Seq::empty()),
                            },
                        ),
                        Ok(ValueV::Null),
                    )
                } else {
                    (acts, Err(ErrorV::NotAFunction))
                },
            }
        }
    }
}

/// `end_coroutine(routine_name:)`
pub open spec fn builtin_end_coroutine(
    fuel: nat,
    env: Seq<ScopeV>,
    args: Seq<(Option<Seq<char>>, ExprV)>,
) -> EvalV
    decreases fuel, args, args.len() + 2,
{
    let n = required_arg(find_arg(fuel, env, args, "routine_name"@, 0), "routine_name"@);
    match n.1 {
        Err(x) => (n.0, Err(x)),
        Ok(v) => match runtime_string(v, "routine_name"@) {
            Err(x) => (n.0, Err(x)),
            Ok(rn) => (n.0.push(ActionV::EndCoroutine { routine_name: rn }), Ok(ValueV::Null)),
        },
    }
}

/// What a coroutine does: `f`, called without arguments in `env`.
pub open spec fn run_routine(env: Seq<ScopeV>, f: ValueV) -> EvalV {
    match f {
        ValueV::Function { params, body, return_type } => call_function(
            MAX_CALL_DEPTH as nat,
            env,
            params,
            body,
            return_type,
            Seq::empty(),
        ),
        _ => (Seq::empty(), Err(ErrorV::NotAFunction)),
    }
}

/// A call of any other name makes an HTML element of that tag, around the
/// text of the first argument.
pub open spec fn html_tag(
    fuel: nat,
    env: Seq<ScopeV>,
    tag: Seq<char>,
    args: Seq<(Option<Seq<char>>, ExprV)>,
) -> EvalV
    decreases fuel, args, args.len() + 1,
{
    if args.len() == 0 {
        (Seq::empty(), Ok(ValueV::Script(html_element(tag, Seq::empty()))))
    } else {
        let r = eval_expr(fuel, env, args[0].1);
        match r.1 {
            Err(x) => (r.0, Err(x)),
            Ok(v) => (r.0, Ok(ValueV::Script(html_element(tag, display_text(v))))),
        }
    }
}

/// Calls a user function: binds the arguments in a new scope inside the
/// caller's variables, runs the body there, and checks the declared return
/// type.
pub open spec fn call_function(
    fuel: nat,
    env: Seq<ScopeV>,
    params: Seq<Seq<char>>,
    body: Seq<StmtV>,
    return_type: Option<Seq<char>>,
    args: Seq<(Option<Seq<char>>, ExprV)>,
) -> EvalV
    decreases fuel, args, args.len() + 2,
{
    if fuel == 0 {
        (Seq::empty(), Err(ErrorV::CallDepthExceeded))
    } else {
        let b = bind_args(fuel, env, params, args);
        match b.1 {
            Err(x) => (b.0, Err(x)),
            Ok(scope) => {
                let run = exec_stmts((fuel - 1) as nat, env.push(scope), body, 0);
                match run.1 {
                    Err(x) => (b.0 + run.0, Err(x)),
                    Ok(ret) => {
                        let v = match ret {
                            Some(v) => v,
                            None => ValueV::Null,
                        };
                        match check_return_type(return_type, v) {
                            Err(x) => (b.0 + run.0, Err(x)),
                            Ok(()) => (b.0 + run.0, Ok(v)),
                        }
                    },
                }
            },
        }
    }
}

/// The scope of a call's parameters: by label when every argument has one,
/// by position otherwise.
pub open spec fn bind_args(
    fuel: nat,
    env: Seq<ScopeV>,
    params: Seq<Seq<char>>,
    args: Seq<(Option<Seq<char>>, ExprV)>,
) -> (Seq<ActionV>, Result<ScopeV, ErrorV>)
    decreases fuel, args, args.len() + 1,
{
    if args.len() == 0 {
        (Seq::empty(), Ok(Seq::empty()))
    } else if all_labelled(args) {
        bind_labelled(fuel, env, params, args, 0, Seq::empty())
    } else {
        bind_positional(fuel, env, params, args, 0, Seq::empty())
    }
}

pub open spec fn bind_labelled(
    fuel: nat,
    env: Seq<ScopeV>,
    params: Seq<Seq<char>>,
    args: Seq<(Option<Seq<char>>, ExprV)>,
    i: int,
    scope: ScopeV,
) -> (Seq<ActionV>, Result<ScopeV, ErrorV>)
    decreases fuel, args, args.len() - i,
{
    if i < 0 || i >= args.len() {
        (Seq::empty(), Ok(scope))
    } else {
        let label = match args[i].0 {
            Some(l) => l,
            None => Seq::empty(),
        };
        if !params.contains(label) {
            (Seq::empty(), Err(ErrorV::UnknownArgument { label }))
        } else {
            let r = eval_expr(fuel, env, args[i].1);
            match r.1 {
                Err(x) => (r.0, Err(x)),
                Ok(v) => match scope_define(scope, label, v) {
                    Err(x) => (r.0, Err(x)),
                    Ok(s2) => {
                        let rest = bind_labelled(fuel, env, params, args, i + 1, s2);
                        (r.0 + rest.0, rest.1)
                    },
                },
            }
        }
    }
}

pub open spec fn bind_positional(
    fuel: nat,
    env: Seq<ScopeV>,
    params: Seq<Seq<char>>,
    args: Seq<(Option<Seq<char>>, ExprV)>,
    i: int,
    scope: ScopeV,
) -> (Seq<ActionV>, Result<ScopeV, ErrorV>)
    decreases fuel, args, args.len() - i,
{
    if i < 0 || i >= args.len() {
        (Seq::empty(), Ok(scope))
    } else if i >= params.len() {
        (
            Seq::empty(),
            Err(ErrorV::TooManyArguments { expected: params.len(), got: args.len() }),
        )
    } else {
        let r = eval_expr(fuel, env, args[i].1);
        match r.1 {
            Err(x) => (r.0, Err(x)),
            Ok(v) => match scope_define(scope, params[i], v) {
                Err(x) => (r.0, Err(x)),
                Ok(s2) => {
                    let rest = bind_positional(fuel, env, params, args, i + 1, s2);
                    (r.0 + rest.0, rest.1)
                },
            },
        }
    }
}

/// Runs the statements from `i` on, stopping at the first `return` or error.
pub open spec fn exec_stmts(fuel: nat, env: Seq<ScopeV>, ss: Seq<StmtV>, i: int) -> ExecV
    decreases fuel, ss, ss.len() - i,
{
    if i < 0 || i >= ss.len() {
        (Seq::empty(), Ok(None), env)
    } else {
        let r = exec_stmt(fuel, env, ss[i]);
        match r.1 {
            Ok(None) => after_exec(r.0, exec_stmts(fuel, r.2, ss, i + 1)),
            _ => r,
        }
    }
}

pub open spec fn exec_stmt(fuel: nat, env: Seq<ScopeV>, s: StmtV) -> ExecV
    decreases fuel, s, 0nat,
{
    match s {
        StmtV::VarDeclaration { immutable, name, value } => {
            let r = eval_expr(fuel, env, value);
            match r.1 {
                Err(x) => (r.0, Err(x), env),
                Ok(v) => match env_define(env, name, v) {
                    Err(x) => (r.0, Err(x), env),
                    Ok(env2) => (r.0, Ok(None), env2),
                },
            }
        },
        StmtV::FuncDeclaration { name, params, return_type, body } => {
            let f = ValueV::Function { params, body, return_type };
            match env_define(env, name, f) {
                Err(x) => (Seq::empty(), Err(x), env),
                Ok(env2) => (Seq::empty(), Ok(None), env2),
            }
        },
        StmtV::IfStatement { condition, then_branch } => {
            let c = eval_expr(fuel, env, condition);
            match c.1 {
                Err(x) => (c.0, Err(x), env),
                Ok(v) => if v == ValueV::Boolean(true) {
                    let run = exec_stmts(fuel, env.push(Seq::empty()), then_branch, 0);
                    (c.0 + run.0, run.1, env)
                } else {
                    (c.0, Ok(None), env)
                },
            }
        },
        StmtV::Expression(e) => {
            let r = eval_expr(fuel, env, e);
            match r.1 {
                Err(x) => (r.0, Err(x), env),
                Ok(v) => (
                    r.0 + if let ValueV::Script(html) = v {
                        seq![ActionV::Log { html }]
                    } else {
                        Seq::empty()
                    },
                    Ok(None),
                    env,
                ),
            }
        },
        StmtV::Return(e) => {
            let r = eval_expr(fuel, env, e);
            match r.1 {
                Err(x) => (r.0, Err(x), env),
                Ok(v) => (r.0, Ok(Some(v)), env),
            }
        },
    }
}

/// A definition changes only the innermost scope.
pub proof fn lemma_define_frame(env: Seq<ScopeV>, name: Seq<char>, v: ValueV)
    requires
        env.len() >= 1,
        env_define(env, name, v) is Ok,
    ensures
        env_define(env, name, v)->Ok_0.len() == env.len(),
        env_define(env, name, v)->Ok_0.drop_last() == env.drop_last(),
{
    let e2 = env_define(env, name, v)->Ok_0;
    assert(e2.drop_last() =~= env.drop_last());
}

/// A statement changes at most the innermost scope, and never the number of
/// scopes.
pub proof fn lemma_exec_stmt_frame(fuel: nat, env: Seq<ScopeV>, s: StmtV)
    requires
        env.len() >= 1,
    ensures
        exec_stmt(fuel, env, s).2.len() == env.len(),
        exec_stmt(fuel, env, s).2.drop_last() == env.drop_last(),
{
    match s {
        StmtV::VarDeclaration { immutable, name, value } => {
            let r = eval_expr(fuel, env, value);
            if let Ok(v) = r.1 {
                if env_define(env, name, v) is Ok {
                    lemma_define_frame(env, name, v);
                }
            }
        },
        StmtV::FuncDeclaration { name, params, return_type, body } => {
            let f = ValueV::Function { params, body, return_type };
            if env_define(env, name, f) is Ok {
                lemma_define_frame(env, name, f);
            }
        },
        _ => {},
    }
}

/// Statements change at most the innermost scope, and never the number of
/// scopes.
pub proof fn lemma_exec_stmts_frame(fuel: nat, env: Seq<ScopeV>, ss: Seq<StmtV>, i: int)
    requires
        env.len() >= 1,
    ensures
        exec_stmts(fuel, env, ss, i).2.len() == env.len(),
        exec_stmts(fuel, env, ss, i).2.drop_last() == env.drop_last(),
    decreases ss.len() - i,
{
    if 0 <= i < ss.len() {
        let r = exec_stmt(fuel, env, ss[i]);
        lemma_exec_stmt_frame(fuel, env, ss[i]);
        if r.1 == Ok::<Option<ValueV>, ErrorV>(None) {
            lemma_exec_stmts_frame(fuel, r.2, ss, i + 1);
        }
    }
}

/// `!=` is the negation of `==`, on any two values.
pub proof fn lemma_ne_is_not_eq(l: ValueV, r: ValueV)
    ensures
        compare_values(eq_op(), l, r) == ValueV::Boolean(l == r),
        compare_values(ne_op(), l, r) == ValueV::Boolean(!(compare_values(eq_op(), l, r)->Boolean_0)),
{
    assert(ne_op() != eq_op()) by {
        assert(ne_op()[0] != eq_op()[0]);
    }
}

/// Once a statement returns or fails, the statements after it do not run:
/// adding more statements behind changes nothing.
pub proof fn lemma_return_stops(fuel: nat, env: Seq<ScopeV>, ss: Seq<StmtV>, more: Seq<StmtV>)
    requires
        exec_stmts(fuel, env, ss, 0).1 != Ok::<Option<ValueV>, ErrorV>(None),
    ensures
        exec_stmts(fuel, env, ss + more, 0) == exec_stmts(fuel, env, ss, 0),
{
    lemma_return_stops_from(fuel, env, ss, more, 0);
}

proof fn lemma_return_stops_from(
    fuel: nat,
    env: Seq<ScopeV>,
    ss: Seq<StmtV>,
    more: Seq<StmtV>,
    i: int,
)
    requires
        0 <= i <= ss.len(),
        exec_stmts(fuel, env, ss, i).1 != Ok::<Option<ValueV>, ErrorV>(None),
    ensures
        exec_stmts(fuel, env, ss + more, i) == exec_stmts(fuel, env, ss, i),
    decreases ss.len() - i,
{
    if i < ss.len() {
        assert((ss + more)[i] == ss[i]);
        let r = exec_stmt(fuel, env, ss[i]);
        if r.1 == Ok::<Option<ValueV>, ErrorV>(None) {
            lemma_return_stops_from(fuel, r.2, ss, more, i + 1);
        }
    }
}

/// Running `ss` and then `more` is running `ss`, then running `more` in the
/// variables that `ss` left, when `ss` neither returned nor failed.
pub proof fn lemma_run_in_sequence(fuel: nat, env: Seq<ScopeV>, ss: Seq<StmtV>, more: Seq<StmtV>)
    requires
        exec_stmts(fuel, env, ss, 0).1 == Ok::<Option<ValueV>, ErrorV>(None),
    ensures
        exec_stmts(fuel, env, ss + more, 0) == after_exec(
            exec_stmts(fuel, env, ss, 0).0,
            exec_stmts(fuel, exec_stmts(fuel, env, ss, 0).2, more, 0),
        ),
{
    lemma_run_in_sequence_from(fuel, env, ss, more, 0);
}

proof fn lemma_run_in_sequence_from(
    fuel: nat,
    env: Seq<ScopeV>,
    ss: Seq<StmtV>,
    more: Seq<StmtV>,
    i: int,
)
    requires
        0 <= i <= ss.len(),
        exec_stmts(fuel, env, ss, i).1 == Ok::<Option<ValueV>, ErrorV>(None),
    ensures
        exec_stmts(fuel, env, ss + more, i) == after_exec(
            exec_stmts(fuel, env, ss, i).0,
            exec_stmts(fuel, exec_stmts(fuel, env, ss, i).2, more, 0),
        ),
    decreases ss.len() - i,
{
    if i < ss.len() {
        assert((ss + more)[i] == ss[i]);
        let r = exec_stmt(fuel, env, ss[i]);
        lemma_run_in_sequence_from(fuel, r.2, ss, more, i + 1);
        let tail = exec_stmts(fuel, r.2, ss, i + 1);
        let rest = exec_stmts(fuel, tail.2, more, 0);
        assert(r.0 + (tail.0 + rest.0) =~= (r.0 + tail.0) + rest.0);
    } else {
        lemma_run_suffix(fuel, env, ss, more, 0);
        let rest = exec_stmts(fuel, env, more, 0);
        assert(Seq::<ActionV>::empty() + rest.0 =~= rest.0);
    }
}

/// Past the end of `ss`, running `ss + more` is running `more`.
proof fn lemma_run_suffix(fuel: nat, env: Seq<ScopeV>, ss: Seq<StmtV>, more: Seq<StmtV>, j: int)
    requires
        0 <= j <= more.len(),
    ensures
        exec_stmts(fuel, env, ss + more, ss.len() + j) == exec_stmts(fuel, env, more, j),
    decreases more.len() - j,
{
    if j < more.len() {
        assert((ss + more)[ss.len() + j] == more[j]);
        let r = exec_stmt(fuel, env, more[j]);
        lemma_run_suffix(fuel, r.2, ss, more, j + 1);
    }
}

/// An `if` leaves the variables as they were: what its block defines lives
/// in a scope of its own.
pub proof fn lemma_if_keeps_variables(
    fuel: nat,
    env: Seq<ScopeV>,
    condition: ExprV,
    then_branch: Seq<StmtV>,
)
    ensures
        exec_stmt(fuel, env, StmtV::IfStatement { condition, then_branch }).2 == env,
{
}

/// A call of a function declared `-> script` that succeeds gives a script.
pub proof fn lemma_script_functions_give_scripts(
    fuel: nat,
    env: Seq<ScopeV>,
    params: Seq<Seq<char>>,
    body: Seq<StmtV>,
    args: Seq<(Option<Seq<char>>, ExprV)>,
)
    requires
        call_function(fuel, env, params, body, Some("script"@), args).1 is Ok,
    ensures
        call_function(fuel, env, params, body, Some("script"@), args).1->Ok_0 is Script,
{
}

/// Calls nest at most `fuel` deep: a call with no depth left fails.
pub proof fn lemma_call_depth_bounded(
    env: Seq<ScopeV>,
    params: Seq<Seq<char>>,
    body: Seq<StmtV>,
    return_type: Option<Seq<char>>,
    args: Seq<(Option<Seq<char>>, ExprV)>,
)
    ensures
        call_function(0, env, params, body, return_type, args) == (
            Seq::<ActionV>::empty(),
            Err::<ValueV, ErrorV>(ErrorV::CallDepthExceeded),
        ),
{
}

/// A call of a name that is neither a built-in nor a user function makes an
/// HTML element of that tag around the text of its first argument: the
/// element is `<tag>`, the first argument's text, then `</tag>`, and the only
/// actions are those of evaluating that argument. The arguments after the
/// first play no part: the call gives what the call with the first argument
/// alone gives.
pub proof fn lemma_tag_wraps_first_argument(
    fuel: nat,
    env: Seq<ScopeV>,
    tag: Seq<char>,
    args: Seq<(Option<Seq<char>>, ExprV)>,
)
    requires
        args.len() >= 1,
        !builtin_name(tag),
        !(env_lookup(env, tag) matches Some(ValueV::Function { .. })),
    ensures
        eval_call(fuel, env, tag, args) == eval_call(fuel, env, tag, seq![args[0]]),
        eval_expr(fuel, env, args[0].1).1 matches Ok(v) ==> eval_call(fuel, env, tag, args) == (
            eval_expr(fuel, env, args[0].1).0,
            Ok::<ValueV, ErrorV>(
                ValueV::Script("<"@ + tag + ">"@ + display_text(v) + "</"@ + tag + ">"@),
            ),
        ),
{
    assert(!(tag == "time_out"@ || tag == "sleep"@ || tag == "start_server"@ || tag
        == "end_server"@ || tag == "start_coroutine"@ || tag == "end_coroutine"@));
    let one = seq![args[0]];
    assert(one[0] == args[0]);
    assert(eval_call(fuel, env, tag, args) == html_tag(fuel, env, tag, args));
    assert(eval_call(fuel, env, tag, one) == html_tag(fuel, env, tag, one));
}

/// A declaration asks nothing of the outside world beyond what evaluating its
/// value asks (it logs nothing, even when the value is a script), neither
/// returns nor fails once its value is there and its name is new, and then
/// binds the name to that value.
pub proof fn lemma_declaration_only_defines(
    fuel: nat,
    env: Seq<ScopeV>,
    immutable: bool,
    name: Seq<char>,
    value: ExprV,
)
    ensures
        exec_stmt(fuel, env, StmtV::VarDeclaration { immutable, name, value }).0 == eval_expr(
            fuel,
            env,
            value,
        ).0,
        eval_expr(fuel, env, value).1 matches Ok(v) ==> (env_define(env, name, v) is Ok ==> {
            let r = exec_stmt(fuel, env, StmtV::VarDeclaration { immutable, name, value });
            &&& r.1 == Ok::<Option<ValueV>, ErrorV>(None)
            &&& env_lookup(r.2, name) == Some(v)
        }),
{
    if let Ok(v) = eval_expr(fuel, env, value).1 {
        if env_define(env, name, v) is Ok {
            lemma_define_then_lookup(env, name, v);
        }
    }
}

/// A function declaration asks nothing of the outside world.
pub proof fn lemma_function_declaration_is_silent(
    fuel: nat,
    env: Seq<ScopeV>,
    name: Seq<char>,
    params: Seq<Seq<char>>,
    return_type: Option<Seq<char>>,
    body: Seq<StmtV>,
)
    ensures
        exec_stmt(fuel, env, StmtV::FuncDeclaration { name, params, return_type, body }).0
            == Seq::<ActionV>::empty(),
{
}

/// A call of a user function gives back exactly what its body returned
/// (`null` where the body ran to its end), unchanged; a declared return
/// type only decides whether the call fails. Declared `-> script`, the call
/// succeeds exactly when the body returned a script, and otherwise fails
/// naming the kind of what it returned (a string gives `string`).
pub proof fn lemma_call_returns_body_value(
    fuel: nat,
    env: Seq<ScopeV>,
    params: Seq<Seq<char>>,
    body: Seq<StmtV>,
    return_type: Option<Seq<char>>,
    args: Seq<(Option<Seq<char>>, ExprV)>,
)
    requires
        fuel > 0,
        bind_args(fuel, env, params, args).1 is Ok,
        exec_stmts(
            (fuel - 1) as nat,
            env.push(bind_args(fuel, env, params, args).1->Ok_0),
            body,
            0,
        ).1 is Ok,
    ensures
        ({
            let run = exec_stmts(
                (fuel - 1) as nat,
                env.push(bind_args(fuel, env, params, args).1->Ok_0),
                body,
                0,
            );
            let returned = match run.1->Ok_0 {
                Some(x) => x,
                None => ValueV::Null,
            };
            let call = call_function(fuel, env, params, body, return_type, args).1;
            &&& call matches Ok(v) ==> v == returned
            &&& return_type != Some("script"@) ==> call == Ok::<ValueV, ErrorV>(returned)
            &&& return_type == Some("script"@) ==> (call is Ok <==> returned is Script)
            &&& return_type == Some("script"@) && returned is Str ==> call == Err::<ValueV, ErrorV>(
                ErrorV::ScriptExpected { found: "string"@ },
            )
        }),
{
}

/// A comparison evaluates its left side first: an error there is the
/// comparison's error, and the right side is not evaluated. With both sides
/// evaluated, `==` gives whether the two values are equal and `!=` whether
/// they differ, and the actions are the left side's, then the right side's.
pub proof fn lemma_comparison_order(
    fuel: nat,
    env: Seq<ScopeV>,
    left: ExprV,
    op: Seq<char>,
    right: ExprV,
)
    ensures
        ({
            let e = ExprV::BinaryOp { left: Box::new(left), op, right: Box::new(right) };
            let l = eval_expr(fuel, env, left);
            let r = eval_expr(fuel, env, right);
            &&& l.1 is Err ==> eval_expr(fuel, env, e) == l
            &&& l.1 is Ok && r.1 is Ok ==> {
                let a = l.1->Ok_0;
                let b = r.1->Ok_0;
                &&& eval_expr(fuel, env, e).0 == l.0 + r.0
                &&& op == eq_op() ==> eval_expr(fuel, env, e).1 == Ok::<ValueV, ErrorV>(
                    ValueV::Boolean(a == b),
                )
                &&& op == ne_op() ==> eval_expr(fuel, env, e).1 == Ok::<ValueV, ErrorV>(
                    ValueV::Boolean(a != b),
                )
            }
        }),
{
    let e = ExprV::BinaryOp { left: Box::new(left), op, right: Box::new(right) };
    let l = eval_expr(fuel, env, left);
    if let Err(x) = l.1 {
        assert(eval_expr(fuel, env, e) == (l.0, Err::<ValueV, ErrorV>(x)));
    }
    lemma_ne_is_not_eq(ValueV::Null, ValueV::Null);
}

/// An `if` whose condition is anything but `true` runs nothing of its block:
/// it asks only what the condition asks, and neither returns nor fails.
pub proof fn lemma_if_not_true_skips(
    fuel: nat,
    env: Seq<ScopeV>,
    condition: ExprV,
    then_branch: Seq<StmtV>,
)
    requires
        eval_expr(fuel, env, condition).1 is Ok,
        eval_expr(fuel, env, condition).1->Ok_0 != ValueV::Boolean(true),
    ensures
        exec_stmt(fuel, env, StmtV::IfStatement { condition, then_branch }) == (
            eval_expr(fuel, env, condition).0,
            Ok::<Option<ValueV>, ErrorV>(None),
            env,
        ),
{
}

/// An argument is found only by its label: where no argument carries the
/// label, nothing is evaluated and a required argument is missing.
pub proof fn lemma_unlabelled_is_missing(
    fuel: nat,
    env: Seq<ScopeV>,
    args: Seq<(Option<Seq<char>>, ExprV)>,
    label: Seq<char>,
    i: int,
)
    requires
        0 <= i,
        forall|j: int| i <= j < args.len() ==> args[j].0 != Some(label),
    ensures
        required_arg(find_arg(fuel, env, args, label, i), label) == (
            Seq::<ActionV>::empty(),
            Err::<ValueV, ErrorV>(ErrorV::MissingArgument { label }),
        ),
    decreases args.len() - i,
{
    if i < args.len() {
        lemma_unlabelled_is_missing(fuel, env, args, label, i + 1);
    }
}

/// The first argument that carries the label is the one evaluated, whatever
/// follows it.
pub proof fn lemma_first_labelled_argument(
    fuel: nat,
    env: Seq<ScopeV>,
    args: Seq<(Option<Seq<char>>, ExprV)>,
    label: Seq<char>,
    k: int,
)
    requires
        0 <= k < args.len(),
        args[k].0 == Some(label),
        forall|j: int| 0 <= j < k ==> args[j].0 != Some(label),
    ensures
        required_arg(find_arg(fuel, env, args, label, 0), label) == eval_expr(fuel, env, args[k].1),
{
    lemma_find_from(fuel, env, args, label, 0, k);
}

proof fn lemma_find_from(
    fuel: nat,
    env: Seq<ScopeV>,
    args: Seq<(Option<Seq<char>>, ExprV)>,
    label: Seq<char>,
    i: int,
    k: int,
)
    requires
        0 <= i <= k < args.len(),
        args[k].0 == Some(label),
        forall|j: int| i <= j < k ==> args[j].0 != Some(label),
    ensures
        find_arg(fuel, env, args, label, i) == (
            eval_expr(fuel, env, args[k].1).0,
            Some(eval_expr(fuel, env, args[k].1).1),
        ),
    decreases k - i,
{
    if i < k {
        lemma_find_from(fuel, env, args, label, i + 1, k);
    }
}

} // verus!
