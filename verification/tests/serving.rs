use uta::error::RuntimeError;
use uta::http::{display_path, ends_request_head, response_head};
use uta::lexer::LexError;
use uta::numbers::{is_above_zero, millis, port_number, saturating_whole};
use uta::text::decimal_text;

#[test]
fn ports_take_the_whole_part() {
    assert_eq!(port_number(&"8080".to_string()), 8080);
    assert_eq!(port_number(&"8080.75".to_string()), 8080);
    assert_eq!(port_number(&"70000".to_string()), 65535);
    assert_eq!(port_number(&"0".to_string()), 0);
}

#[test]
fn millis_take_the_whole_part() {
    assert_eq!(millis(&"250".to_string()), 250);
    assert_eq!(millis(&"0.5".to_string()), 0);
    assert_eq!(millis(&"99999999999999999999999".to_string()), u64::MAX);
    assert_eq!(saturating_whole(&"123".to_string(), 100), 100);
}

#[test]
fn above_zero() {
    assert!(is_above_zero(&"100".to_string()));
    assert!(is_above_zero(&"0.5".to_string()));
    assert!(!is_above_zero(&"0".to_string()));
}

#[test]
fn request_head_end_is_found() {
    assert!(ends_request_head(b"GET / HTTP/1.1\r\nHost: x\r\n\r\n"));
    assert!(ends_request_head(b"\r\n\r\n"));
    assert!(!ends_request_head(b"GET / HTTP/1.1\r\nHost: x\r\n"));
    assert!(!ends_request_head(b"\r\n\r"));
    assert!(!ends_request_head(b""));
}

#[test]
fn response_head_counts_the_body() {
    assert_eq!(
        response_head(1234),
        "HTTP/1.1 200 OK\r\nContent-Type: text/html; charset=utf-8\r\nContent-Length: 1234\r\nConnection: close\r\n\r\n"
    );
    assert!(response_head(0).contains("Content-Length: 0\r\n"));
}

#[test]
fn shown_paths_drop_the_verbatim_prefix() {
    assert_eq!(display_path(r"\\?\C:\site\index.html"), r"C:\site\index.html");
    assert_eq!(display_path("/srv/index.html"), "/srv/index.html");
    assert_eq!(display_path(r"\\?"), r"\\?");
}

#[test]
fn decimal_digits() {
    assert_eq!(decimal_text(0), "0");
    assert_eq!(decimal_text(7), "7");
    assert_eq!(decimal_text(1050), "1050");
}

#[test]
fn runtime_error_messages() {
    assert_eq!(
        RuntimeError::UndefinedVariable { name: "x".into() }.message(),
        "Undefined variable 'x'"
    );
    assert_eq!(
        RuntimeError::AlreadyDefined { name: "x".into() }.message(),
        "Variable 'x' is already defined in this scope"
    );
    assert_eq!(
        RuntimeError::MissingArgument { label: "port".into() }.message(),
        "Missing required argument 'port'"
    );
    assert_eq!(
        RuntimeError::ExpectedNumber { label: "port".into(), found: "string".into() }.message(),
        "Expected number for 'port', got string"
    );
    assert_eq!(
        RuntimeError::ExpectedString { label: "routine_name".into(), found: "number".into() }
            .message(),
        "Expected string for 'routine_name', got number"
    );
    assert_eq!(
        RuntimeError::NotAFunction.message(),
        "start_coroutine requires func: to be a function (use let() do ... end)"
    );
    assert_eq!(
        RuntimeError::UnknownArgument { label: "b".into() }.message(),
        "Unknown argument 'b' for function"
    );
    assert_eq!(
        RuntimeError::TooManyArguments { expected: 1, got: 12 }.message(),
        "Too many arguments: expected 1, got 12"
    );
    assert_eq!(
        RuntimeError::ScriptExpected { found: "number".into() }.message(),
        "Function declared -> script must return script HTML, got number"
    );
    assert_eq!(RuntimeError::CallDepthExceeded.message(), "Function calls nest too deep");
}

#[test]
fn lexer_error_messages() {
    assert_eq!(
        LexError::UnexpectedCharacter { ch: '@', position: 8 }.message(),
        "Unexpected character '@' at position 8"
    );
    assert_eq!(LexError::UnterminatedString.message(), "Unterminated string literal");
}

#[test]
fn bind_error_messages() {
    assert_eq!(
        uta::http::format_bind_error(8080, true, "ignored"),
        "Port 8080 is already in use. Stop the other process (often a previous `cargo run`) or use another port.\n  Windows: netstat -ano | findstr :8080"
    );
    assert_eq!(
        uta::http::format_bind_error(80, false, "permission denied"),
        "Could not bind 127.0.0.1:80: permission denied"
    );
}
