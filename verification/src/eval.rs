use vstd::prelude::*;

use crate::ast::{
    args_view, clone_opt_text, clone_stmts, clone_texts, clone_value, opt_text_view, stmts_view,
    texts_view, values_equal, Expression, RuntimeValue, Statement, ValueV,
};
use crate::env::{find_in_scope, scope_define, scope_view, Environment, ScopeV};
use crate::error::{ErrorV, RuntimeError};
use crate::grammar::{eq_op, ne_op};
use crate::semantics::{
    after_exec, all_labelled, bind_args, bind_labelled, bind_positional, builtin_end_coroutine,
    builtin_end_server, builtin_name, builtin_start_coroutine, builtin_start_server, builtin_wait,
    call_function, check_return_type, compare_values, display_text, eval_call, eval_expr,
    exec_stmt, exec_stmts, find_arg, html_element, html_tag, kind_name, lemma_exec_stmts_frame,
    optional_arg, required_arg, run_routine, runtime_number, runtime_string, ActionV,
    MAX_CALL_DEPTH,
};

verus! {

/// What a program asks of the world outside the interpreter, in order.
#[derive(Debug)]
pub enum Action {
    /// Print the HTML that an expression statement produced.
    Log { html: String },
    /// Wait this many milliseconds before going on.
    TimeOut { ms: String },
    /// Start a thread that sleeps this many milliseconds.
    Sleep { ms: String },
    /// Serve a file over HTTP on a port (stopping what served there before).
    StartServer { port: String, file_descriptor: String, time_out: RuntimeValue },
    /// Stop the server on a port.
    EndServer { port: String },
    /// Run a function on a thread of its own, in the given variables (a copy
    /// of the program's variables when it asked, with a new scope inside).
    StartCoroutine { routine_name: String, func: RuntimeValue, env: Environment },
    /// Wait for a coroutine to finish.
    EndCoroutine { routine_name: String },
}

impl View for Action {
    type V = ActionV;

    open spec fn view(&self) -> ActionV {
        match self {
            Action::Log { html } => ActionV::Log { html: html@ },
            Action::TimeOut { ms } => ActionV::TimeOut { ms: ms@ },
            Action::Sleep { ms } => ActionV::Sleep { ms: ms@ },
            Action::StartServer { port, file_descriptor, time_out } => ActionV::StartServer {
                port: port@,
                file_descriptor: file_descriptor@,
                time_out: time_out@,
            },
            Action::EndServer { port } => ActionV::EndServer { port: port@ },
            Action::StartCoroutine { routine_name, func, env } => ActionV::StartCoroutine {
                routine_name: routine_name@,
                func: func@,
                env: env@,
            },
            Action::EndCoroutine { routine_name } => ActionV::EndCoroutine {
                routine_name: routine_name@,
            },
        }
    }
}

pub open spec fn actions_view(a: Seq<Action>) -> Seq<ActionV> {
    a.map_values(|x: Action| x@)
}

/// The actions `a` were added to `before`, giving `after`.
pub open spec fn emitted(before: Seq<Action>, after: Seq<Action>, a: Seq<ActionV>) -> bool {
    actions_view(after) == actions_view(before) + a
}

pub open spec fn value_result_view(r: Result<RuntimeValue, RuntimeError>) -> Result<ValueV, ErrorV> {
    match r {
        Ok(v) => Ok(v@),
        Err(e) => Err(e@),
    }
}

pub open spec fn return_result_view(r: Result<Option<RuntimeValue>, RuntimeError>) -> Result<
    Option<ValueV>,
    ErrorV,
> {
    match r {
        Ok(Some(v)) => Ok(Some(v@)),
        Ok(None) => Ok(None),
        Err(e) => Err(e@),
    }
}

pub open spec fn scope_result_view(r: Result<Vec<(String, RuntimeValue)>, RuntimeError>) -> Result<
    ScopeV,
    ErrorV,
> {
    match r {
        Ok(s) => Ok(scope_view(s@)),
        Err(e) => Err(e@),
    }
}

pub open spec fn found_view(r: Option<Result<RuntimeValue, RuntimeError>>) -> Option<
    Result<ValueV, ErrorV>,
> {
    match r {
        Some(x) => Some(value_result_view(x)),
        None => None,
    }
}

pub proof fn lemma_emitted_chain(
    a: Seq<Action>,
    b: Seq<Action>,
    c: Seq<Action>,
    x: Seq<ActionV>,
    y: Seq<ActionV>,
)
    requires
        emitted(a, b, x),
        emitted(b, c, y),
    ensures
        emitted(a, c, x + y),
{
    assert(actions_view(a) + (x + y) =~= actions_view(a) + x + y);
}

pub proof fn lemma_emitted_nothing(a: Seq<Action>)
    ensures
        emitted(a, a, Seq::empty()),
{
    assert(actions_view(a) + Seq::<ActionV>::empty() =~= actions_view(a));
}

fn push_action(actions: &mut Vec<Action>, a: Action)
    ensures
        emitted(old(actions)@, final(actions)@, seq![a@]),
{
    let ghost before = actions@;
    actions.push(a);
    assert(actions_view(actions@) =~= actions_view(before) + seq![a@]);
}

/// Whether `s` is the text `lit`.
fn text_is(s: &String, lit: &str) -> (r: bool)
    ensures
        r == (s@ == lit@),
{
    let t = String::from_str(lit);
    s.eq(&t)
}

/// Whether the interpreter itself answers calls of `name`.
pub fn is_builtin(name: &str) -> (r: bool)
    ensures
        r == builtin_name(name@),
{
    let name = String::from_str(name);
    text_is(&name, "time_out") || text_is(&name, "sleep") || text_is(&name, "start_server")
        || text_is(&name, "end_server") || text_is(&name, "start_coroutine") || text_is(
        &name,
        "end_coroutine",
    )
}

/// The name of a value's kind, as error messages give it.
pub fn value_type_name(v: &RuntimeValue) -> (r: &'static str)
    ensures
        r@ == kind_name(v@),
{
    match v {
        RuntimeValue::Number(_) => "number",
        RuntimeValue::String(_) => "string",
        RuntimeValue::Boolean(_) => "boolean",
        RuntimeValue::Script(_) => "script",
        RuntimeValue::Function { .. } => "function",
        RuntimeValue::Null => "null/undefined",
    }
}

impl RuntimeValue {
    /// The text the value shows inside an HTML tag.
    pub fn to_display_string(&self) -> (r: String)
        ensures
            r@ == display_text(self@),
    {
        match self {
            RuntimeValue::Number(n) => n.clone(),
            RuntimeValue::String(s) => s.clone(),
            RuntimeValue::Boolean(b) => if *b {
                String::from_str("true")
            } else {
                String::from_str("false")
            },
            RuntimeValue::Script(s) => s.clone(),
            RuntimeValue::Null => String::new(),
            RuntimeValue::Function { .. } => String::from_str("<function>"),
        }
    }
}

/// `<tag>text</tag>`
fn element(tag: &String, text: &String) -> (r: String)
    ensures
        r@ == html_element(tag@, text@),
{
    let mut r = String::from_str("<");
    r.append(tag.as_str());
    r.append(">");
    r.append(text.as_str());
    r.append("</");
    r.append(tag.as_str());
    r.append(">");
    r
}

fn compare(op: &String, l: &RuntimeValue, r: &RuntimeValue) -> (v: RuntimeValue)
    ensures
        v@ == compare_values(op@, l@, r@),
{
    proof {
        reveal_strlit("!=");
        reveal_strlit("==");
        assert("!="@ =~= ne_op());
        assert("=="@ =~= eq_op());
    }
    if text_is(op, "!=") {
        RuntimeValue::Boolean(!values_equal(l, r))
    } else if text_is(op, "==") {
        RuntimeValue::Boolean(values_equal(l, r))
    } else {
        RuntimeValue::Null
    }
}

fn runtime_number_arg(val: RuntimeValue, label: &str) -> (r: Result<String, RuntimeError>)
    ensures
        match runtime_number(val@, label@) {
            Ok(n) => r matches Ok(s) && s@ == n,
            Err(x) => r matches Err(e) && e@ == x,
        },
{
    match val {
        RuntimeValue::Number(n) => Ok(n),
        other => Err(
            RuntimeError::ExpectedNumber {
                label: String::from_str(label),
                found: String::from_str(value_type_name(&other)),
            },
        ),
    }
}

fn runtime_string_arg(val: RuntimeValue, label: &str) -> (r: Result<String, RuntimeError>)
    ensures
        match runtime_string(val@, label@) {
            Ok(n) => r matches Ok(s) && s@ == n,
            Err(x) => r matches Err(e) && e@ == x,
        },
{
    match val {
        RuntimeValue::String(s) => Ok(s),
        other => Err(
            RuntimeError::ExpectedString {
                label: String::from_str(label),
                found: String::from_str(value_type_name(&other)),
            },
        ),
    }
}

/// A function declared `-> script` must return a script; no other
/// declared type is checked.
pub fn validate_return_type(return_type: &Option<String>, value: &RuntimeValue) -> (r: Result<
    (),
    RuntimeError,
>)
    ensures
        match check_return_type(opt_text_view(*return_type), value@) {
            Ok(()) => r is Ok,
            Err(x) => r matches Err(e) && e@ == x,
        },
{
    match return_type {
        Some(t) => {
            if text_is(t, "script") && !matches!(value, RuntimeValue::Script(_)) {
                return Err(
                    RuntimeError::ScriptExpected {
                        found: String::from_str(value_type_name(value)),
                    },
                );
            }
            Ok(())
        },
        None => Ok(()),
    }
}

fn params_contain(params: &Vec<String>, label: &String) -> (r: bool)
    ensures
        r == texts_view(*params).contains(label@),
{
    let mut i: usize = 0;
    while i < params.len()
        invariant
            i <= params@.len(),
            forall|j: int| 0 <= j < i ==> texts_view(*params)[j] != label@,
        decreases params.len() - i,
    {
        if params[i].eq(label) {
            assert(texts_view(*params)[i as int] == label@);
            return true;
        }
        i = i + 1;
    }
    false
}

fn define_in_scope(scope: &mut Vec<(String, RuntimeValue)>, name: String, value: RuntimeValue) -> (r:
    Result<(), RuntimeError>)
    ensures
        match scope_define(scope_view(old(scope)@), name@, value@) {
            Ok(s) => r is Ok && scope_view(final(scope)@) == s,
            Err(x) => r matches Err(e) && e@ == x && final(scope)@ == old(scope)@,
        },
{
    if find_in_scope(scope, &name).is_some() {
        return Err(RuntimeError::AlreadyDefined { name });
    }
    let ghost before = scope_view(scope@);
    scope.push((name, value));
    assert(scope_view(scope@) =~= before.push((name@, value@)));
    Ok(())
}


// ---------------------------------------------------------------------------
// Arguments of built-in calls
// ---------------------------------------------------------------------------

/// Whether an argument carries the label `label`.
fn has_label(opt: &Option<String>, label: &String) -> (r: bool)
    ensures
        r == (opt_text_view(*opt) == Some(label@)),
{
    match opt {
        Some(l) => l.eq(label),
        None => false,
    }
}

/// Evaluates the first argument labelled `label`; `None` where there is none.
fn find_argument(
    fuel: u64,
    args: &Vec<(Option<String>, Expression)>,
    label: &String,
    env: &mut Environment,
    actions: &mut Vec<Action>,
) -> (r: Option<Result<RuntimeValue, RuntimeError>>)
    ensures
        final(env)@ == old(env)@,
        emitted(
            old(actions)@,
            final(actions)@,
            find_arg(fuel as nat, old(env)@, args_view(*args), label@, 0).0,
        ),
        found_view(r) == find_arg(fuel as nat, old(env)@, args_view(*args), label@, 0).1,
    decreases fuel, args_view(*args), 0nat,
{
    let ghost av = args_view(*args);
    let ghost e0 = env@;
    let ghost a0 = actions@;
    let mut i: usize = 0;
    while i < args.len()
        invariant
            i <= args@.len(),
            av == args_view(*args),
            env@ == e0,
            e0 == old(env)@,
            actions@ == a0,
            a0 == old(actions)@,
            find_arg(fuel as nat, e0, av, label@, 0) == find_arg(fuel as nat, e0, av, label@, i as int),
        decreases args.len() - i,
    {
        assert(av[i as int] == (opt_text_view(args@[i as int].0), args@[i as int].1@));
        if has_label(&args[i].0, label) {
            let r = evaluate_expression(fuel, &args[i].1, env, actions);
            return Some(r);
        }
        i = i + 1;
    }
    proof {
        lemma_emitted_nothing(a0);
    }
    None
}

/// A labelled argument that must be there, evaluated.
fn required_argument(
    fuel: u64,
    args: &Vec<(Option<String>, Expression)>,
    label: &str,
    env: &mut Environment,
    actions: &mut Vec<Action>,
) -> (r: Result<RuntimeValue, RuntimeError>)
    ensures
        final(env)@ == old(env)@,
        emitted(
            old(actions)@,
            final(actions)@,
            required_arg(find_arg(fuel as nat, old(env)@, args_view(*args), label@, 0), label@).0,
        ),
        value_result_view(r) == required_arg(
            find_arg(fuel as nat, old(env)@, args_view(*args), label@, 0),
            label@,
        ).1,
    decreases fuel, args_view(*args), 1nat,
{
    let key = String::from_str(label);
    match find_argument(fuel, args, &key, env, actions) {
        Some(r) => r,
        None => Err(RuntimeError::MissingArgument { label: key }),
    }
}

/// A labelled argument that may be left out (`null` then), evaluated.
fn optional_argument(
    fuel: u64,
    args: &Vec<(Option<String>, Expression)>,
    label: &str,
    env: &mut Environment,
    actions: &mut Vec<Action>,
) -> (r: Result<RuntimeValue, RuntimeError>)
    ensures
        final(env)@ == old(env)@,
        emitted(
            old(actions)@,
            final(actions)@,
            optional_arg(find_arg(fuel as nat, old(env)@, args_view(*args), label@, 0)).0,
        ),
        value_result_view(r) == optional_arg(
            find_arg(fuel as nat, old(env)@, args_view(*args), label@, 0),
        ).1,
    decreases fuel, args_view(*args), 1nat,
{
    let key = String::from_str(label);
    match find_argument(fuel, args, &key, env, actions) {
        Some(r) => r,
        None => Ok(RuntimeValue::Null),
    }
}

// ---------------------------------------------------------------------------
// Expressions and calls
// ---------------------------------------------------------------------------

/// Evaluates an expression with `fuel` levels of user calls left; the
/// variables are the same afterwards.
pub fn evaluate_expression(
    fuel: u64,
    expr: &Expression,
    env: &mut Environment,
    actions: &mut Vec<Action>,
) -> (r: Result<RuntimeValue, RuntimeError>)
    ensures
        final(env)@ == old(env)@,
        emitted(old(actions)@, final(actions)@, eval_expr(fuel as nat, old(env)@, expr@).0),
        value_result_view(r) == eval_expr(fuel as nat, old(env)@, expr@).1,
    decreases fuel, expr@, 0nat,
{
    let ghost a0 = actions@;
    match expr {
        Expression::Literal(v) => {
            proof {
                lemma_emitted_nothing(a0);
            }
            Ok(clone_value(v))
        },
        Expression::Variable(name) => {
            proof {
                lemma_emitted_nothing(a0);
            }
            match env.lookup(name) {
                Some(v) => Ok(v),
                None => Err(RuntimeError::UndefinedVariable { name: name.clone() }),
            }
        },
        Expression::BinaryOp { left, op, right } => {
            let ghost e0 = env@;
            let ghost l_spec = eval_expr(fuel as nat, e0, (**left)@);
            let ghost r_spec = eval_expr(fuel as nat, e0, (**right)@);
            let l = match evaluate_expression(fuel, &**left, env, actions) {
                Ok(v) => v,
                Err(x) => return Err(x),
            };
            let ghost a1 = actions@;
            let r = match evaluate_expression(fuel, &**right, env, actions) {
                Ok(v) => v,
                Err(x) => {
                    proof {
                        lemma_emitted_chain(a0, a1, actions@, l_spec.0, r_spec.0);
                    }
                    return Err(x);
                },
            };
            proof {
                lemma_emitted_chain(a0, a1, actions@, l_spec.0, r_spec.0);
            }
            Ok(compare(op, &l, &r))
        },
        Expression::FunctionCall { name, args } => evaluate_call(fuel, name, args, env, actions),
    }
}

/// Evaluates a call: a user function where `name` is one and not a
/// built-in, a built-in, or else an HTML tag.
pub fn evaluate_call(
    fuel: u64,
    name: &String,
    args: &Vec<(Option<String>, Expression)>,
    env: &mut Environment,
    actions: &mut Vec<Action>,
) -> (r: Result<RuntimeValue, RuntimeError>)
    ensures
        final(env)@ == old(env)@,
        emitted(
            old(actions)@,
            final(actions)@,
            eval_call(fuel as nat, old(env)@, name@, args_view(*args)).0,
        ),
        value_result_view(r) == eval_call(fuel as nat, old(env)@, name@, args_view(*args)).1,
    decreases fuel, args_view(*args), 3nat,
{
    if !is_builtin(name.as_str()) {
        match env.lookup(name) {
            Some(RuntimeValue::Function { params, body, return_type }) => {
                return call_user_function(fuel, &params, &body, &return_type, args, env, actions);
            },
            _ => {},
        }
    }
    if text_is(name, "time_out") || text_is(name, "sleep") {
        call_wait(fuel, name, args, env, actions)
    } else if text_is(name, "start_server") {
        call_start_server(fuel, args, env, actions)
    } else if text_is(name, "end_server") {
        call_end_server(fuel, args, env, actions)
    } else if text_is(name, "start_coroutine") {
        call_start_coroutine(fuel, args, env, actions)
    } else if text_is(name, "end_coroutine") {
        call_end_coroutine(fuel, args, env, actions)
    } else {
        html_tag_macro(fuel, name, args, env, actions)
    }
}

/// `time_out` and `sleep`.
fn call_wait(
    fuel: u64,
    name: &String,
    args: &Vec<(Option<String>, Expression)>,
    env: &mut Environment,
    actions: &mut Vec<Action>,
) -> (r: Result<RuntimeValue, RuntimeError>)
    ensures
        final(env)@ == old(env)@,
        emitted(
            old(actions)@,
            final(actions)@,
            builtin_wait(fuel as nat, old(env)@, name@, args_view(*args)).0,
        ),
        value_result_view(r) == builtin_wait(fuel as nat, old(env)@, name@, args_view(*args)).1,
    decreases fuel, args_view(*args), 2nat,
{
    let ghost a0 = actions@;
    let ghost t = required_arg(
        find_arg(fuel as nat, env@, args_view(*args), "time"@, 0),
        "time"@,
    );
    let time = match required_argument(fuel, args, "time", env, actions) {
        Ok(v) => v,
        Err(x) => return Err(x),
    };
    let ghost a1 = actions@;
    match time {
        RuntimeValue::Number(ms) => {
            let ghost m = ms@;
            if text_is(name, "time_out") {
                push_action(actions, Action::TimeOut { ms });
                proof {
                    lemma_emitted_chain(a0, a1, actions@, t.0, seq![ActionV::TimeOut { ms: m }]);
                }
            } else {
                push_action(actions, Action::Sleep { ms });
                proof {
                    lemma_emitted_chain(a0, a1, actions@, t.0, seq![ActionV::Sleep { ms: m }]);
                }
            }
        },
        _ => {
            proof {
                lemma_emitted_nothing(a1);
                lemma_emitted_chain(a0, a1, a1, t.0, Seq::empty());
            }
        },
    }
    Ok(RuntimeValue::Null)
}

/// `start_server`.
fn call_start_server(
    fuel: u64,
    args: &Vec<(Option<String>, Expression)>,
    env: &mut Environment,
    actions: &mut Vec<Action>,
) -> (r: Result<RuntimeValue, RuntimeError>)
    ensures
        final(env)@ == old(env)@,
        emitted(
            old(actions)@,
            final(actions)@,
            builtin_start_server(fuel as nat, old(env)@, args_view(*args)).0,
        ),
        value_result_view(r) == builtin_start_server(fuel as nat, old(env)@, args_view(*args)).1,
    decreases fuel, args_view(*args), 2nat,
{
    let ghost a0 = actions@;
    let ghost e = env@;
    let ghost av = args_view(*args);
    let ghost f = fuel as nat;
    let ghost p = required_arg(find_arg(f, e, av, "port"@, 0), "port"@);
    let ghost fd = required_arg(find_arg(f, e, av, "file_descriptor"@, 0), "file_descriptor"@);
    let ghost t = optional_arg(find_arg(f, e, av, "time_out"@, 0));
    let port_val = match required_argument(fuel, args, "port", env, actions) {
        Ok(v) => v,
        Err(x) => return Err(x),
    };
    let ghost a1 = actions@;
    let file_val = match required_argument(fuel, args, "file_descriptor", env, actions) {
        Ok(v) => v,
        Err(x) => {
            proof {
                lemma_emitted_chain(a0, a1, actions@, p.0, fd.0);
            }
            return Err(x);
        },
    };
    let ghost a2 = actions@;
    proof {
        lemma_emitted_chain(a0, a1, a2, p.0, fd.0);
    }
    let timeout_val = match optional_argument(fuel, args, "time_out", env, actions) {
        Ok(v) => v,
        Err(x) => {
            proof {
                lemma_emitted_chain(a0, a2, actions@, p.0 + fd.0, t.0);
            }
            return Err(x);
        },
    };
    proof {
        lemma_emitted_chain(a0, a2, actions@, p.0 + fd.0, t.0);
    }
    let ghost a3 = actions@;
    let port = match runtime_number_arg(port_val, "port") {
        Ok(n) => n,
        Err(x) => return Err(x),
    };
    let file_descriptor = match runtime_string_arg(file_val, "file_descriptor") {
        Ok(s) => s,
        Err(x) => return Err(x),
    };
    let action = Action::StartServer { port, file_descriptor, time_out: timeout_val };
    let ghost act = action@;
    push_action(actions, action);
    proof {
        lemma_emitted_chain(a0, a3, actions@, p.0 + fd.0 + t.0, seq![act]);
        assert((p.0 + fd.0 + t.0).push(act) =~= (p.0 + fd.0 + t.0) + seq![act]);
    }
    Ok(RuntimeValue::Null)
}

/// `end_server`.
fn call_end_server(
    fuel: u64,
    args: &Vec<(Option<String>, Expression)>,
    env: &mut Environment,
    actions: &mut Vec<Action>,
) -> (r: Result<RuntimeValue, RuntimeError>)
    ensures
        final(env)@ == old(env)@,
        emitted(
            old(actions)@,
            final(actions)@,
            builtin_end_server(fuel as nat, old(env)@, args_view(*args)).0,
        ),
        value_result_view(r) == builtin_end_server(fuel as nat, old(env)@, args_view(*args)).1,
    decreases fuel, args_view(*args), 2nat,
{
    let ghost a0 = actions@;
    let ghost p = required_arg(find_arg(fuel as nat, env@, args_view(*args), "port"@, 0), "port"@);
    let port_val = match required_argument(fuel, args, "port", env, actions) {
        Ok(v) => v,
        Err(x) => return Err(x),
    };
    let ghost a1 = actions@;
    let port = match runtime_number_arg(port_val, "port") {
        Ok(n) => n,
        Err(x) => return Err(x),
    };
    let action = Action::EndServer { port };
    let ghost act = action@;
    push_action(actions, action);
    proof {
        lemma_emitted_chain(a0, a1, actions@, p.0, seq![act]);
        assert(p.0.push(act) =~= p.0 + seq![act]);
    }
    Ok(RuntimeValue::Null)
}

/// `start_coroutine`.
fn call_start_coroutine(
    fuel: u64,
    args: &Vec<(Option<String>, Expression)>,
    env: &mut Environment,
    actions: &mut Vec<Action>,
) -> (r: Result<RuntimeValue, RuntimeError>)
    ensures
        final(env)@ == old(env)@,
        emitted(
            old(actions)@,
            final(actions)@,
            builtin_start_coroutine(fuel as nat, old(env)@, args_view(*args)).0,
        ),
        value_result_view(r) == builtin_start_coroutine(fuel as nat, old(env)@, args_view(*args)).1,
    decreases fuel, args_view(*args), 2nat,
{
    let ghost a0 = actions@;
    let ghost e = env@;
    let ghost av = args_view(*args);
    let ghost n = required_arg(find_arg(fuel as nat, e, av, "routine_name"@, 0), "routine_name"@);
    let ghost fv = required_arg(find_arg(fuel as nat, e, av, "func"@, 0), "func"@);
    let name_val = match required_argument(fuel, args, "routine_name", env, actions) {
        Ok(v) => v,
        Err(x) => return Err(x),
    };
    let ghost a1 = actions@;
    let func_val = match required_argument(fuel, args, "func", env, actions) {
        Ok(v) => v,
        Err(x) => {
            proof {
                lemma_emitted_chain(a0, a1, actions@, n.0, fv.0);
            }
            return Err(x);
        },
    };
    proof {
        lemma_emitted_chain(a0, a1, actions@, n.0, fv.0);
    }
    let ghost a2 = actions@;
    let routine_name = match runtime_string_arg(name_val, "routine_name") {
        Ok(s) => s,
        Err(x) => return Err(x),
    };
    if !matches!(func_val, RuntimeValue::Function { .. }) {
        return Err(RuntimeError::NotAFunction);
    }
    let mut child = env.snapshot();
    child.push_scope(Vec::new());
    proof {
        assert(scope_view(Seq::<(String, RuntimeValue)>::empty()) =~= Seq::empty());
    }
    let action = Action::StartCoroutine { routine_name, func: func_val, env: child };
    let ghost act = action@;
    push_action(actions, action);
    proof {
        lemma_emitted_chain(a0, a2, actions@, n.0 + fv.0, seq![act]);
        assert((n.0 + fv.0).push(act) =~= (n.0 + fv.0) + seq![act]);
    }
    Ok(RuntimeValue::Null)
}

/// `end_coroutine`.
fn call_end_coroutine(
    fuel: u64,
    args: &Vec<(Option<String>, Expression)>,
    env: &mut Environment,
    actions: &mut Vec<Action>,
) -> (r: Result<RuntimeValue, RuntimeError>)
    ensures
        final(env)@ == old(env)@,
        emitted(
            old(actions)@,
            final(actions)@,
            builtin_end_coroutine(fuel as nat, old(env)@, args_view(*args)).0,
        ),
        value_result_view(r) == builtin_end_coroutine(fuel as nat, old(env)@, args_view(*args)).1,
    decreases fuel, args_view(*args), 2nat,
{
    let ghost a0 = actions@;
    let ghost n = required_arg(
        find_arg(fuel as nat, env@, args_view(*args), "routine_name"@, 0),
        "routine_name"@,
    );
    let name_val = match required_argument(fuel, args, "routine_name", env, actions) {
        Ok(v) => v,
        Err(x) => return Err(x),
    };
    let ghost a1 = actions@;
    let routine_name = match runtime_string_arg(name_val, "routine_name") {
        Ok(s) => s,
        Err(x) => return Err(x),
    };
    let action = Action::EndCoroutine { routine_name };
    let ghost act = action@;
    push_action(actions, action);
    proof {
        lemma_emitted_chain(a0, a1, actions@, n.0, seq![act]);
        assert(n.0.push(act) =~= n.0 + seq![act]);
    }
    Ok(RuntimeValue::Null)
}

/// Any other call makes an HTML element: `tag(x)` is `<tag>x</tag>`.
fn html_tag_macro(
    fuel: u64,
    tag: &String,
    args: &Vec<(Option<String>, Expression)>,
    env: &mut Environment,
    actions: &mut Vec<Action>,
) -> (r: Result<RuntimeValue, RuntimeError>)
    ensures
        final(env)@ == old(env)@,
        emitted(old(actions)@, final(actions)@, html_tag(fuel as nat, old(env)@, tag@, args_view(*args)).0),
        value_result_view(r) == html_tag(fuel as nat, old(env)@, tag@, args_view(*args)).1,
    decreases fuel, args_view(*args), 1nat,
{
    if args.len() == 0 {
        proof {
            lemma_emitted_nothing(actions@);
        }
        let empty = String::new();
        return Ok(RuntimeValue::Script(element(tag, &empty)));
    }
    assert(args_view(*args)[0].1 == args@[0].1@);
    let inner = match evaluate_expression(fuel, &args[0].1, env, actions) {
        Ok(v) => v,
        Err(x) => return Err(x),
    };
    let text = match inner {
        RuntimeValue::String(s) => s,
        RuntimeValue::Script(s) => s,
        other => other.to_display_string(),
    };
    Ok(RuntimeValue::Script(element(tag, &text)))
}

// ---------------------------------------------------------------------------
// User functions
// ---------------------------------------------------------------------------

/// Whether every argument carries a label.
fn args_all_labelled(args: &Vec<(Option<String>, Expression)>) -> (r: bool)
    ensures
        r == all_labelled(args_view(*args)),
{
    let mut i: usize = 0;
    while i < args.len()
        invariant
            i <= args@.len(),
            forall|j: int| 0 <= j < i ==> (#[trigger] args_view(*args)[j]).0 is Some,
        decreases args.len() - i,
    {
        assert(args_view(*args)[i as int].0 == opt_text_view(args@[i as int].0));
        if args[i].0.is_none() {
            return false;
        }
        i = i + 1;
    }
    true
}

/// Evaluates the arguments of a call in the caller's variables, and binds
/// them to the parameters in a new scope.
fn bind_call_arguments(
    fuel: u64,
    params: &Vec<String>,
    args: &Vec<(Option<String>, Expression)>,
    env: &mut Environment,
    actions: &mut Vec<Action>,
) -> (r: Result<Vec<(String, RuntimeValue)>, RuntimeError>)
    ensures
        final(env)@ == old(env)@,
        emitted(
            old(actions)@,
            final(actions)@,
            bind_args(fuel as nat, old(env)@, texts_view(*params), args_view(*args)).0,
        ),
        scope_result_view(r) == bind_args(
            fuel as nat,
            old(env)@,
            texts_view(*params),
            args_view(*args),
        ).1,
    decreases fuel, args_view(*args), 1nat,
{
    let ghost f = fuel as nat;
    let ghost e0 = env@;
    let ghost pv = texts_view(*params);
    let ghost av = args_view(*args);
    let ghost a0 = actions@;
    let mut scope: Vec<(String, RuntimeValue)> = Vec::new();
    proof {
        lemma_emitted_nothing(a0);
        assert(scope_view(scope@) =~= Seq::empty());
    }
    if args.len() == 0 {
        return Ok(scope);
    }
    let mut i: usize = 0;
    let ghost mut acc: Seq<ActionV> = Seq::empty();
    if args_all_labelled(args) {
        assert(acc + bind_labelled(f, e0, pv, av, 0, Seq::empty()).0 =~= bind_labelled(
            f,
            e0,
            pv,
            av,
            0,
            Seq::empty(),
        ).0);
        while i < args.len()
            invariant
                i <= args@.len(),
                f == fuel as nat,
                av == args_view(*args),
                pv == texts_view(*params),
                env@ == e0,
                e0 == old(env)@,
                a0 == old(actions)@,
                emitted(a0, actions@, acc),
                bind_args(f, e0, pv, av) == bind_labelled(f, e0, pv, av, 0, Seq::empty()),
                bind_labelled(f, e0, pv, av, 0, Seq::empty()) == (
                    acc + bind_labelled(f, e0, pv, av, i as int, scope_view(scope@)).0,
                    bind_labelled(f, e0, pv, av, i as int, scope_view(scope@)).1,
                ),
            decreases args.len() - i,
        {
            assert(av[i as int] == (opt_text_view(args@[i as int].0), args@[i as int].1@));
            let label = match &args[i].0 {
                Some(l) => l.clone(),
                None => String::new(),
            };
            if !params_contain(params, &label) {
                proof {
                    assert(acc + Seq::<ActionV>::empty() =~= acc);
                }
                return Err(RuntimeError::UnknownArgument { label });
            }
            let ghost ai = actions@;
            let ghost sc = scope_view(scope@);
            let ghost ev = eval_expr(f, e0, av[i as int].1);
            let v = match evaluate_expression(fuel, &args[i].1, env, actions) {
                Ok(v) => v,
                Err(x) => {
                    proof {
                        lemma_emitted_chain(a0, ai, actions@, acc, ev.0);
                    }
                    return Err(x);
                },
            };
            proof {
                lemma_emitted_chain(a0, ai, actions@, acc, ev.0);
            }
            match define_in_scope(&mut scope, label, v) {
                Ok(()) => {},
                Err(x) => {
                    return Err(x);
                },
            }
            proof {
                let rest = bind_labelled(f, e0, pv, av, i + 1, scope_view(scope@));
                assert(acc + (ev.0 + rest.0) =~= (acc + ev.0) + rest.0);
                acc = acc + ev.0;
            }
            i = i + 1;
        }
        proof {
            assert(acc + Seq::<ActionV>::empty() =~= acc);
        }
        Ok(scope)
    } else {
        assert(acc + bind_positional(f, e0, pv, av, 0, Seq::empty()).0 =~= bind_positional(
            f,
            e0,
            pv,
            av,
            0,
            Seq::empty(),
        ).0);
        while i < args.len()
            invariant
                i <= args@.len(),
                f == fuel as nat,
                av == args_view(*args),
                pv == texts_view(*params),
                env@ == e0,
                e0 == old(env)@,
                a0 == old(actions)@,
                emitted(a0, actions@, acc),
                bind_args(f, e0, pv, av) == bind_positional(f, e0, pv, av, 0, Seq::empty()),
                bind_positional(f, e0, pv, av, 0, Seq::empty()) == (
                    acc + bind_positional(f, e0, pv, av, i as int, scope_view(scope@)).0,
                    bind_positional(f, e0, pv, av, i as int, scope_view(scope@)).1,
                ),
            decreases args.len() - i,
        {
            assert(av[i as int] == (opt_text_view(args@[i as int].0), args@[i as int].1@));
            if i >= params.len() {
                proof {
                    assert(acc + Seq::<ActionV>::empty() =~= acc);
                }
                return Err(
                    RuntimeError::TooManyArguments { expected: params.len(), got: args.len() },
                );
            }
            let ghost ai = actions@;
            let ghost ev = eval_expr(f, e0, av[i as int].1);
            let v = match evaluate_expression(fuel, &args[i].1, env, actions) {
                Ok(v) => v,
                Err(x) => {
                    proof {
                        lemma_emitted_chain(a0, ai, actions@, acc, ev.0);
                    }
                    return Err(x);
                },
            };
            proof {
                lemma_emitted_chain(a0, ai, actions@, acc, ev.0);
            }
            match define_in_scope(&mut scope, params[i].clone(), v) {
                Ok(()) => {},
                Err(x) => {
                    return Err(x);
                },
            }
            proof {
                let rest = bind_positional(f, e0, pv, av, i + 1, scope_view(scope@));
                assert(acc + (ev.0 + rest.0) =~= (acc + ev.0) + rest.0);
                acc = acc + ev.0;
            }
            i = i + 1;
        }
        proof {
            assert(acc + Seq::<ActionV>::empty() =~= acc);
        }
        Ok(scope)
    }
}

/// Calls a user function: its arguments bound in a new scope inside the
/// caller's variables, its body run there, and its return type checked.
fn call_user_function(
    fuel: u64,
    params: &Vec<String>,
    body: &Vec<Statement>,
    return_type: &Option<String>,
    args: &Vec<(Option<String>, Expression)>,
    env: &mut Environment,
    actions: &mut Vec<Action>,
) -> (r: Result<RuntimeValue, RuntimeError>)
    ensures
        final(env)@ == old(env)@,
        emitted(
            old(actions)@,
            final(actions)@,
            call_function(
                fuel as nat,
                old(env)@,
                texts_view(*params),
                stmts_view(*body),
                opt_text_view(*return_type),
                args_view(*args),
            ).0,
        ),
        value_result_view(r) == call_function(
            fuel as nat,
            old(env)@,
            texts_view(*params),
            stmts_view(*body),
            opt_text_view(*return_type),
            args_view(*args),
        ).1,
    decreases fuel, args_view(*args), 2nat,
{
    if fuel == 0 {
        proof {
            lemma_emitted_nothing(actions@);
        }
        return Err(RuntimeError::CallDepthExceeded);
    }
    let ghost e0 = env@;
    let ghost a0 = actions@;
    let ghost b = bind_args(fuel as nat, e0, texts_view(*params), args_view(*args));
    let scope = match bind_call_arguments(fuel, params, args, env, actions) {
        Ok(s) => s,
        Err(x) => return Err(x),
    };
    let ghost a1 = actions@;
    env.push_scope(scope);
    let ghost inner = env@;
    let ghost run = exec_stmts((fuel - 1) as nat, inner, stmts_view(*body), 0);
    let result = execute_block(fuel - 1, body, env, actions);
    proof {
        lemma_exec_stmts_frame((fuel - 1) as nat, inner, stmts_view(*body), 0);
        lemma_emitted_chain(a0, a1, actions@, b.0, run.0);
    }
    env.pop_scope();
    assert(env@ =~= e0);
    let value = match result {
        Err(x) => return Err(x),
        Ok(Some(v)) => v,
        Ok(None) => RuntimeValue::Null,
    };
    match validate_return_type(return_type, &value) {
        Err(x) => Err(x),
        Ok(()) => Ok(value),
    }
}

// ---------------------------------------------------------------------------
// Statements
// ---------------------------------------------------------------------------

/// Runs statements in order, stopping at the first `return` or error.
fn execute_block(
    fuel: u64,
    stmts: &Vec<Statement>,
    env: &mut Environment,
    actions: &mut Vec<Action>,
) -> (r: Result<Option<RuntimeValue>, RuntimeError>)
    ensures
        emitted(old(actions)@, final(actions)@, exec_stmts(fuel as nat, old(env)@, stmts_view(*stmts), 0).0),
        return_result_view(r) == exec_stmts(fuel as nat, old(env)@, stmts_view(*stmts), 0).1,
        final(env)@ == exec_stmts(fuel as nat, old(env)@, stmts_view(*stmts), 0).2,
    decreases fuel, stmts_view(*stmts), 0nat,
{
    let ghost f = fuel as nat;
    let ghost sv = stmts_view(*stmts);
    let ghost e0 = env@;
    let ghost a0 = actions@;
    let ghost mut acc: Seq<ActionV> = Seq::empty();
    proof {
        lemma_emitted_nothing(a0);
        let whole = exec_stmts(f, e0, sv, 0);
        assert(Seq::<ActionV>::empty() + whole.0 =~= whole.0);
    }
    let mut i: usize = 0;
    while i < stmts.len()
        invariant
            i <= stmts@.len(),
            f == fuel as nat,
            sv == stmts_view(*stmts),
            e0 == old(env)@,
            a0 == old(actions)@,
            emitted(a0, actions@, acc),
            exec_stmts(f, e0, sv, 0) == after_exec(acc, exec_stmts(f, env@, sv, i as int)),
        decreases stmts.len() - i,
    {
        assert(sv[i as int] == stmts@[i as int]@);
        let ghost ei = env@;
        let ghost ai = actions@;
        let ghost one = exec_stmt(f, ei, sv[i as int]);
        let r = execute_statement(fuel, &stmts[i], env, actions);
        proof {
            lemma_emitted_chain(a0, ai, actions@, acc, one.0);
        }
        match r {
            Ok(None) => {},
            _ => {
                return r;
            },
        }
        proof {
            let rest = exec_stmts(f, env@, sv, i + 1);
            assert(acc + (one.0 + rest.0) =~= (acc + one.0) + rest.0);
            acc = acc + one.0;
        }
        i = i + 1;
    }
    proof {
        assert(acc + Seq::<ActionV>::empty() =~= acc);
    }
    Ok(None)
}

fn execute_statement(
    fuel: u64,
    stmt: &Statement,
    env: &mut Environment,
    actions: &mut Vec<Action>,
) -> (r: Result<Option<RuntimeValue>, RuntimeError>)
    ensures
        emitted(old(actions)@, final(actions)@, exec_stmt(fuel as nat, old(env)@, stmt@).0),
        return_result_view(r) == exec_stmt(fuel as nat, old(env)@, stmt@).1,
        final(env)@ == exec_stmt(fuel as nat, old(env)@, stmt@).2,
    decreases fuel, stmt@, 0nat,
{
    let ghost a0 = actions@;
    let ghost e0 = env@;
    match stmt {
        Statement::VarDeclaration { immutable: _, name, value } => {
            let val = match evaluate_expression(fuel, value, env, actions) {
                Ok(v) => v,
                Err(x) => return Err(x),
            };
            match env.define(name.clone(), val) {
                Ok(()) => Ok(None),
                Err(x) => Err(x),
            }
        },
        Statement::FuncDeclaration { name, params, return_type, body } => {
            proof {
                lemma_emitted_nothing(a0);
            }
            let func = RuntimeValue::Function {
                params: clone_texts(params),
                body: clone_stmts(body),
                return_type: clone_opt_text(return_type),
            };
            match env.define(name.clone(), func) {
                Ok(()) => Ok(None),
                Err(x) => Err(x),
            }
        },
        Statement::IfStatement { condition, then_branch } => {
            let ghost c = eval_expr(fuel as nat, e0, condition@);
            let cond = match evaluate_expression(fuel, condition, env, actions) {
                Ok(v) => v,
                Err(x) => return Err(x),
            };
            if matches!(cond, RuntimeValue::Boolean(true)) {
                let ghost a1 = actions@;
                env.push_scope(Vec::new());
                proof {
                    assert(scope_view(Seq::<(String, RuntimeValue)>::empty()) =~= Seq::empty());
                }
                let ghost inner = env@;
                let ghost run = exec_stmts(fuel as nat, inner, stmts_view(*then_branch), 0);
                let result = execute_block(fuel, then_branch, env, actions);
                proof {
                    lemma_exec_stmts_frame(fuel as nat, inner, stmts_view(*then_branch), 0);
                    lemma_emitted_chain(a0, a1, actions@, c.0, run.0);
                }
                env.pop_scope();
                assert(env@ =~= e0);
                return result;
            }
            Ok(None)
        },
        Statement::Expression(expr) => {
            let ghost ev = eval_expr(fuel as nat, e0, expr@);
            let val = match evaluate_expression(fuel, expr, env, actions) {
                Ok(v) => v,
                Err(x) => return Err(x),
            };
            let ghost a1 = actions@;
            match val {
                RuntimeValue::Script(html) => {
                    let action = Action::Log { html };
                    let ghost act = action@;
                    push_action(actions, action);
                    proof {
                        lemma_emitted_chain(a0, a1, actions@, ev.0, seq![act]);
                    }
                },
                _ => {
                    proof {
                        lemma_emitted_nothing(a1);
                        lemma_emitted_chain(a0, a1, a1, ev.0, Seq::empty());
                    }
                },
            }
            Ok(None)
        },
        Statement::Return(expr) => {
            let val = match evaluate_expression(fuel, expr, env, actions) {
                Ok(v) => v,
                Err(x) => return Err(x),
            };
            Ok(Some(val))
        },
    }
}

// ---------------------------------------------------------------------------
// Entry points
// ---------------------------------------------------------------------------

/// Runs a program in `env`: adds to `actions` what it asks of the outside
/// world, in order, and gives the value of a top-level `return` (if any).
/// Calls of user functions may nest up to [`MAX_CALL_DEPTH`] deep, which no
/// run reaches.
pub fn execute_program(
    statements: Vec<Statement>,
    env: &mut Environment,
    actions: &mut Vec<Action>,
) -> (r: Result<Option<RuntimeValue>, RuntimeError>)
    ensures
        emitted(
            old(actions)@,
            final(actions)@,
            exec_stmts(MAX_CALL_DEPTH as nat, old(env)@, stmts_view(statements), 0).0,
        ),
        return_result_view(r) == exec_stmts(
            MAX_CALL_DEPTH as nat,
            old(env)@,
            stmts_view(statements),
            0,
        ).1,
        final(env)@ == exec_stmts(MAX_CALL_DEPTH as nat, old(env)@, stmts_view(statements), 0).2,
{
    execute_block(MAX_CALL_DEPTH, &statements, env, actions)
}

/// Runs the function of a coroutine, without arguments, in `env` (the
/// variables that [`Action::StartCoroutine`] carries).
pub fn run_coroutine(func: &RuntimeValue, env: &mut Environment, actions: &mut Vec<Action>) -> (r:
    Result<RuntimeValue, RuntimeError>)
    ensures
        final(env)@ == old(env)@,
        emitted(old(actions)@, final(actions)@, run_routine(old(env)@, func@).0),
        value_result_view(r) == run_routine(old(env)@, func@).1,
{
    match func {
        RuntimeValue::Function { params, body, return_type } => {
            let no_args: Vec<(Option<String>, Expression)> = Vec::new();
            assert(args_view(no_args) =~= Seq::empty());
            call_user_function(MAX_CALL_DEPTH, params, body, return_type, &no_args, env, actions)
        },
        _ => {
            proof {
                lemma_emitted_nothing(actions@);
            }
            Err(RuntimeError::NotAFunction)
        },
    }
}

/// Evaluates the argument labelled `label`; an error where there is none.
pub fn extract_arg(
    args: &Vec<(Option<String>, Expression)>,
    label: &str,
    env: &mut Environment,
    actions: &mut Vec<Action>,
) -> (r: Result<RuntimeValue, RuntimeError>)
    ensures
        final(env)@ == old(env)@,
        emitted(
            old(actions)@,
            final(actions)@,
            required_arg(find_arg(MAX_CALL_DEPTH as nat, old(env)@, args_view(*args), label@, 0), label@).0,
        ),
        value_result_view(r) == required_arg(
            find_arg(MAX_CALL_DEPTH as nat, old(env)@, args_view(*args), label@, 0),
            label@,
        ).1,
{
    required_argument(MAX_CALL_DEPTH, args, label, env, actions)
}

/// Evaluates the argument labelled `label`; `null` where there is none.
pub fn extract_optional_arg(
    args: &Vec<(Option<String>, Expression)>,
    label: &str,
    env: &mut Environment,
    actions: &mut Vec<Action>,
) -> (r: Result<RuntimeValue, RuntimeError>)
    ensures
        final(env)@ == old(env)@,
        emitted(
            old(actions)@,
            final(actions)@,
            optional_arg(find_arg(MAX_CALL_DEPTH as nat, old(env)@, args_view(*args), label@, 0)).0,
        ),
        value_result_view(r) == optional_arg(
            find_arg(MAX_CALL_DEPTH as nat, old(env)@, args_view(*args), label@, 0),
        ).1,
{
    optional_argument(MAX_CALL_DEPTH, args, label, env, actions)
}

} // verus!
