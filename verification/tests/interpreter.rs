use uta::ast::{Expression, RuntimeValue, Statement};
use uta::env::Environment;
use uta::error::RuntimeError;
use uta::eval::{
    evaluate_call, evaluate_expression, execute_program, extract_arg, extract_optional_arg,
    is_builtin, run_coroutine, validate_return_type, value_type_name, Action,
};
use uta::semantics::MAX_CALL_DEPTH;
use uta::parser::Parser;

const SCRIPT2: &str = r#"const port = 8080;
const file_descriptor = "index.html";
const is_project = false;

start_server(port: port, file_descriptor: file_descriptor, is_project: is_project);
"#;

fn env_with_script2_vars() -> (Environment, Vec<Action>) {
    let program = Parser::parse(SCRIPT2).unwrap();
    let declarations: Vec<Statement> = program
        .into_iter()
        .filter(|s| matches!(s, Statement::VarDeclaration { .. }))
        .collect();
    let mut env = Environment::new();
    let mut actions = Vec::new();
    execute_program(declarations, &mut env, &mut actions).unwrap();
    (env, actions)
}

fn run(src: &str) -> (Result<Option<RuntimeValue>, RuntimeError>, Environment, Vec<Action>) {
    let program = Parser::parse(src).unwrap();
    let mut env = Environment::new();
    let mut actions = Vec::new();
    let r = execute_program(program, &mut env, &mut actions);
    (r, env, actions)
}

fn logged(actions: &[Action]) -> Vec<String> {
    actions
        .iter()
        .filter_map(|a| match a {
            Action::Log { html } => Some(html.clone()),
            _ => None,
        })
        .collect()
}

fn num(s: &str) -> RuntimeValue {
    RuntimeValue::Number(s.to_string())
}

fn text(s: &str) -> RuntimeValue {
    RuntimeValue::String(s.to_string())
}

#[test]
fn script2_const_variables_are_defined() {
    let (env, _) = env_with_script2_vars();
    assert_eq!(env.get("port"), RuntimeValue::Number("8080".to_string()));
    assert_eq!(env.get("file_descriptor"), RuntimeValue::String("index.html".into()));
    assert_eq!(env.get("is_project"), RuntimeValue::Boolean(false));
}

#[test]
fn user_script_function_returns_html() {
    let src = r#"
let page() -> script do
    return h1("hi");
end;
page();
"#;
    let program = Parser::parse(src).unwrap();
    let mut env = Environment::new();
    let mut actions = Vec::new();
    execute_program(program, &mut env, &mut actions).unwrap();
}

#[test]
fn user_function_can_be_called() {
    let src = r#"
let ping() do
end;
ping();
"#;
    let program = Parser::parse(src).unwrap();
    let mut env = Environment::new();
    let mut actions = Vec::new();
    execute_program(program, &mut env, &mut actions).unwrap();
}

#[test]
fn script2_resolves_variables_in_server_call() {
    let (mut env, mut actions) = env_with_script2_vars();
    let args = vec![
        (Some("port".into()), Expression::Variable("port".into())),
        (Some("file_descriptor".into()), Expression::Variable("file_descriptor".into())),
        (Some("is_project".into()), Expression::Variable("is_project".into())),
    ];
    let port_val = extract_arg(&args, "port", &mut env, &mut actions).unwrap();
    let page_val = extract_arg(&args, "file_descriptor", &mut env, &mut actions).unwrap();
    assert_eq!(port_val, RuntimeValue::Number("8080".to_string()));
    assert_eq!(page_val, RuntimeValue::String("index.html".into()));
}

#[test]
fn script_function_output_is_logged() {
    let (r, _, actions) = run("let page() -> script do return h1(\"hi\"); end; page();");
    assert_eq!(r, Ok(None));
    assert_eq!(logged(&actions), vec!["<h1>hi</h1>".to_string()]);
}

#[test]
fn html_tags_show_their_first_argument() {
    let (r, _, actions) = run("div(); p(42); p(true); p(\"a\"); b(i(\"x\")); p(null_name_here);");
    assert_eq!(r, Err(RuntimeError::UndefinedVariable { name: "null_name_here".to_string() }));
    assert_eq!(
        logged(&actions),
        vec![
            "<div></div>".to_string(),
            "<p>42</p>".to_string(),
            "<p>true</p>".to_string(),
            "<p>a</p>".to_string(),
            "<b><i>x</i></b>".to_string(),
        ]
    );
}

#[test]
fn non_script_values_are_not_logged() {
    let (r, _, actions) = run("\"text\"; 5;");
    assert_eq!(r, Ok(None));
    assert!(actions.is_empty());
}

#[test]
fn equality_and_inequality() {
    let (r, _, _) = run("if 1 == 1.0 do return \"same\"; end; return \"differ\";");
    assert_eq!(r, Ok(Some(text("same"))));
    let (r, _, _) = run("if \"a\" != \"b\" do return true; end; return false;");
    assert_eq!(r, Ok(Some(RuntimeValue::Boolean(true))));
    let (r, _, _) = run("let a = 2; if a != 2 do return 1; end; return 0;");
    assert_eq!(r, Ok(Some(num("0"))));
}

#[test]
fn a_return_stops_the_program() {
    let (r, _, actions) = run("h1(\"before\"); return 7; h1(\"after\");");
    assert_eq!(r, Ok(Some(num("7"))));
    assert_eq!(logged(&actions), vec!["<h1>before</h1>".to_string()]);
}

#[test]
fn a_return_inside_if_stops_the_program() {
    let (r, _, actions) = run("if true do return 1; end; h1(\"after\");");
    assert_eq!(r, Ok(Some(num("1"))));
    assert!(actions.is_empty());
}

#[test]
fn if_block_has_its_own_scope() {
    let (r, env, _) = run("if true do let y = 1; end; y;");
    assert_eq!(r, Err(RuntimeError::UndefinedVariable { name: "y".to_string() }));
    assert_eq!(env.try_get("y"), None);
}

#[test]
fn false_condition_skips_the_block() {
    let (r, _, actions) = run("if false do h1(\"no\"); end; if 3 do h1(\"no\"); end;");
    assert_eq!(r, Ok(None));
    assert!(actions.is_empty());
}

#[test]
fn undefined_variable_is_an_error() {
    let (r, _, _) = run("x;");
    assert_eq!(r, Err(RuntimeError::UndefinedVariable { name: "x".to_string() }));
}

#[test]
fn defining_twice_is_an_error() {
    let (r, env, _) = run("let x = 1; const x = 2;");
    assert_eq!(r, Err(RuntimeError::AlreadyDefined { name: "x".to_string() }));
    assert_eq!(env.get("x"), num("1"));
}

#[test]
fn missing_argument_is_an_error() {
    let (r, _, _) = run("end_server();");
    assert_eq!(r, Err(RuntimeError::MissingArgument { label: "port".to_string() }));
}

#[test]
fn wrong_kind_of_argument_is_an_error() {
    let (r, _, _) = run("end_server(port: \"80\");");
    assert_eq!(
        r,
        Err(RuntimeError::ExpectedNumber { label: "port".to_string(), found: "string".to_string() })
    );
    let (r, _, _) = run("end_coroutine(routine_name: 3);");
    assert_eq!(
        r,
        Err(RuntimeError::ExpectedString {
            label: "routine_name".to_string(),
            found: "number".to_string()
        })
    );
}

#[test]
fn coroutine_needs_a_function() {
    let (r, _, actions) = run("start_coroutine(routine_name: \"r\", func: 1);");
    assert_eq!(r, Err(RuntimeError::NotAFunction));
    assert!(actions.is_empty());
}

#[test]
fn unknown_labelled_argument_is_an_error() {
    let (r, _, _) = run("let f(a) do end; f(b: 1);");
    assert_eq!(r, Err(RuntimeError::UnknownArgument { label: "b".to_string() }));
}

#[test]
fn too_many_arguments_is_an_error() {
    let (r, _, _) = run("let f(a) do end; f(1, 2);");
    assert_eq!(r, Err(RuntimeError::TooManyArguments { expected: 1, got: 2 }));
}

#[test]
fn script_function_must_return_a_script() {
    let (r, _, _) = run("let f() -> script do return 1; end; f();");
    assert_eq!(r, Err(RuntimeError::ScriptExpected { found: "number".to_string() }));
    let (r, _, _) = run("let g() -> script do end; g();");
    assert_eq!(r, Err(RuntimeError::ScriptExpected { found: "null/undefined".to_string() }));
}

#[test]
fn calls_fail_when_the_depth_count_runs_out() {
    let program = Parser::parse("let f() do f(); end;").unwrap();
    let mut env = Environment::new();
    let mut actions = Vec::new();
    execute_program(program, &mut env, &mut actions).unwrap();
    let call = Expression::FunctionCall { name: "f".to_string(), args: vec![] };
    assert_eq!(
        evaluate_expression(5, &call, &mut env, &mut actions),
        Err(RuntimeError::CallDepthExceeded)
    );
    assert!(actions.is_empty());
}

#[test]
fn deep_chains_of_calls_run_to_the_end() {
    let mut src = String::new();
    src.push_str("let f0() -> script do return p(\"deep\"); end;\n");
    for i in 1..=1001 {
        src.push_str(&format!("let f{}() -> script do return f{}(); end;\n", i, i - 1));
    }
    src.push_str("f1001();\n");
    let (r, _, actions) = run(&src);
    assert_eq!(r, Ok(None));
    assert_eq!(logged(&actions), vec!["<p>deep</p>".to_string()]);
}

#[test]
fn arguments_bind_by_position_and_by_label() {
    let (r, _, actions) =
        run("let f(a, b) -> script do return p(b); end; f(\"x\", \"y\"); f(b: \"z\", a: \"w\");");
    assert_eq!(r, Ok(None));
    assert_eq!(logged(&actions), vec!["<p>y</p>".to_string(), "<p>z</p>".to_string()]);
}

#[test]
fn functions_see_the_callers_variables() {
    let (r, _, _) = run("let x = \"outer\"; let f() do return x; end; return f();");
    assert_eq!(r, Ok(Some(text("outer"))));
}

#[test]
fn function_locals_do_not_leak() {
    let (r, env, _) = run("let f(a) do let inner = a; end; f(1); inner;");
    assert_eq!(r, Err(RuntimeError::UndefinedVariable { name: "inner".to_string() }));
    assert_eq!(env.try_get("a"), None);
}

#[test]
fn builtin_calls_become_actions_in_order() {
    let src = r#"
time_out(time: 5);
sleep(time: 2);
start_server(port: 8080, file_descriptor: "index.html");
start_server(port: 9000, file_descriptor: "a.html", time_out: 100);
end_server(port: 8080);
end_coroutine(routine_name: "bg");
"#;
    let (r, _, actions) = run(src);
    assert_eq!(r, Ok(None));
    assert_eq!(actions.len(), 6);
    assert!(matches!(&actions[0], Action::TimeOut { ms } if ms == "5"));
    assert!(matches!(&actions[1], Action::Sleep { ms } if ms == "2"));
    assert!(matches!(&actions[2], Action::StartServer { port, file_descriptor, time_out }
        if port == "8080" && file_descriptor == "index.html" && *time_out == RuntimeValue::Null));
    assert!(matches!(&actions[3], Action::StartServer { port, time_out, .. }
        if port == "9000" && *time_out == num("100")));
    assert!(matches!(&actions[4], Action::EndServer { port } if port == "8080"));
    assert!(matches!(&actions[5], Action::EndCoroutine { routine_name } if routine_name == "bg"));
}

#[test]
fn waiting_on_a_non_number_does_nothing() {
    let (r, _, actions) = run("time_out(time: \"soon\");");
    assert_eq!(r, Ok(None));
    assert!(actions.is_empty());
}

#[test]
fn builtin_names_cannot_be_redefined_as_calls() {
    let (r, _, actions) = run("let sleep() -> script do return h1(\"mine\"); end; sleep(time: 1);");
    assert_eq!(r, Ok(None));
    assert_eq!(actions.len(), 1);
    assert!(matches!(&actions[0], Action::Sleep { ms } if ms == "1"));
}

#[test]
fn coroutine_runs_its_function_in_a_snapshot() {
    let src = r#"
let greeting = "hello";
let work() -> script do return h2(greeting); end;
start_coroutine(routine_name: "bg", func: work);
"#;
    let (r, _, mut actions) = run(src);
    assert_eq!(r, Ok(None));
    assert_eq!(actions.len(), 1);
    let (func, mut env) = match actions.pop().unwrap() {
        Action::StartCoroutine { routine_name, func, env } => {
            assert_eq!(routine_name, "bg");
            (func, env)
        }
        other => panic!("unexpected action {:?}", other),
    };
    let mut routine_actions = Vec::new();
    let out = run_coroutine(&func, &mut env, &mut routine_actions);
    assert_eq!(out, Ok(RuntimeValue::Script("<h2>hello</h2>".to_string())));
    assert!(routine_actions.is_empty());
    assert_eq!(run_coroutine(&num("1"), &mut env, &mut routine_actions), Err(RuntimeError::NotAFunction));
}

#[test]
fn optional_argument_defaults_to_null() {
    let mut env = Environment::new();
    let mut actions = Vec::new();
    let args = vec![(Some("a".to_string()), Expression::Literal(num("1")))];
    assert_eq!(extract_optional_arg(&args, "b", &mut env, &mut actions), Ok(RuntimeValue::Null));
    assert_eq!(extract_optional_arg(&args, "a", &mut env, &mut actions), Ok(num("1")));
    assert_eq!(
        extract_arg(&args, "b", &mut env, &mut actions),
        Err(RuntimeError::MissingArgument { label: "b".to_string() })
    );
}

#[test]
fn builtin_names() {
    for name in ["time_out", "sleep", "start_server", "end_server", "start_coroutine", "end_coroutine"] {
        assert!(is_builtin(name));
    }
    assert!(!is_builtin("h1"));
    assert!(!is_builtin("Sleep"));
}

#[test]
fn kinds_and_display_text() {
    assert_eq!(value_type_name(&num("1")), "number");
    assert_eq!(value_type_name(&text("a")), "string");
    assert_eq!(value_type_name(&RuntimeValue::Boolean(true)), "boolean");
    assert_eq!(value_type_name(&RuntimeValue::Script("x".into())), "script");
    assert_eq!(value_type_name(&RuntimeValue::Null), "null/undefined");
    let f = RuntimeValue::Function { params: vec![], body: vec![], return_type: None };
    assert_eq!(value_type_name(&f), "function");
    assert_eq!(f.to_display_string(), "<function>");
    assert_eq!(RuntimeValue::Boolean(false).to_display_string(), "false");
    assert_eq!(RuntimeValue::Null.to_display_string(), "");
    assert_eq!(num("2.5").to_display_string(), "2.5");
}

#[test]
fn comparisons_are_structural() {
    let mut env = Environment::new();
    let mut actions = Vec::new();
    let cmp = |l: RuntimeValue, op: &str, r: RuntimeValue| Expression::BinaryOp {
        left: Box::new(Expression::Literal(l)),
        op: op.to_string(),
        right: Box::new(Expression::Literal(r)),
    };
    let e = cmp(num("1"), "==", text("1"));
    assert_eq!(evaluate_expression(MAX_CALL_DEPTH, &e, &mut env, &mut actions), Ok(RuntimeValue::Boolean(false)));
    let e = cmp(num("1"), "!=", text("1"));
    assert_eq!(evaluate_expression(MAX_CALL_DEPTH, &e, &mut env, &mut actions), Ok(RuntimeValue::Boolean(true)));
    let e = Expression::BinaryOp {
        left: Box::new(Expression::Variable("missing".to_string())),
        op: "==".to_string(),
        right: Box::new(Expression::Variable("other".to_string())),
    };
    assert_eq!(
        evaluate_expression(MAX_CALL_DEPTH, &e, &mut env, &mut actions),
        Err(RuntimeError::UndefinedVariable { name: "missing".to_string() })
    );
    assert!(actions.is_empty());
}

#[test]
fn sleep_returns_at_once_with_an_action() {
    let mut env = Environment::new();
    let mut actions = Vec::new();
    let args = vec![(Some("time".to_string()), Expression::Literal(num("250")))];
    let r = evaluate_call(MAX_CALL_DEPTH, &"sleep".to_string(), &args, &mut env, &mut actions);
    assert_eq!(r, Ok(RuntimeValue::Null));
    assert_eq!(actions.len(), 1);
    assert!(matches!(&actions[0], Action::Sleep { ms } if ms == "250"));
}

#[test]
fn only_script_return_types_are_checked() {
    assert_eq!(validate_return_type(&Some("number".to_string()), &text("x")), Ok(()));
    assert_eq!(validate_return_type(&None, &text("x")), Ok(()));
    assert_eq!(
        validate_return_type(&Some("script".to_string()), &text("x")),
        Err(RuntimeError::ScriptExpected { found: "string".to_string() })
    );
    assert_eq!(
        validate_return_type(&Some("script".to_string()), &RuntimeValue::Script("<p></p>".into())),
        Ok(())
    );
}
