use vstd::prelude::*;

use crate::text::{decimal, decimal_text};

verus! {

/// Why a program stopped while it ran.
#[derive(Debug, PartialEq)]
pub enum RuntimeError {
    /// A name was defined twice in one scope.
    AlreadyDefined { name: String },
    /// A variable was read that no scope defines.
    UndefinedVariable { name: String },
    /// A built-in call lacks a labelled argument that it needs.
    MissingArgument { label: String },
    /// An argument that must be a number is not one; `found` names its kind.
    ExpectedNumber { label: String, found: String },
    /// An argument that must be a string is not one; `found` names its kind.
    ExpectedString { label: String, found: String },
    /// `start_coroutine` was given something other than a function.
    NotAFunction,
    /// A labelled argument names no parameter of the function.
    UnknownArgument { label: String },
    /// More positional arguments than parameters.
    TooManyArguments { expected: usize, got: usize },
    /// A function declared `-> script` returned something else.
    ScriptExpected { found: String },
    /// A user function was called with no depth left (see
    /// [`crate::semantics::MAX_CALL_DEPTH`]).
    CallDepthExceeded,
}

/// The mathematical form of a [`RuntimeError`].
pub enum ErrorV {
    AlreadyDefined { name: Seq<char> },
    UndefinedVariable { name: Seq<char> },
    MissingArgument { label: Seq<char> },
    ExpectedNumber { label: Seq<char>, found: Seq<char> },
    ExpectedString { label: Seq<char>, found: Seq<char> },
    NotAFunction,
    UnknownArgument { label: Seq<char> },
    TooManyArguments { expected: nat, got: nat },
    ScriptExpected { found: Seq<char> },
    CallDepthExceeded,
}

impl View for RuntimeError {
    type V = ErrorV;

    open spec fn view(&self) -> ErrorV {
        match self {
            RuntimeError::AlreadyDefined { name } => ErrorV::AlreadyDefined { name: name@ },
            RuntimeError::UndefinedVariable { name } => ErrorV::UndefinedVariable { name: name@ },
            RuntimeError::MissingArgument { label } => ErrorV::MissingArgument { label: label@ },
            RuntimeError::ExpectedNumber { label, found } => ErrorV::ExpectedNumber {
                label: label@,
                found: found@,
            },
            RuntimeError::ExpectedString { label, found } => ErrorV::ExpectedString {
                label: label@,
                found: found@,
            },
            RuntimeError::NotAFunction => ErrorV::NotAFunction,
            RuntimeError::UnknownArgument { label } => ErrorV::UnknownArgument { label: label@ },
            RuntimeError::TooManyArguments { expected, got } => ErrorV::TooManyArguments {
                expected: *expected as nat,
                got: *got as nat,
            },
            RuntimeError::ScriptExpected { found } => ErrorV::ScriptExpected { found: found@ },
            RuntimeError::CallDepthExceeded => ErrorV::CallDepthExceeded,
        }
    }
}

/// `'text'`
pub open spec fn quoted(t: Seq<char>) -> Seq<char> {
    "'"@ + t + "'"@
}

/// The message that tells a user what went wrong.
pub open spec fn error_text(e: ErrorV) -> Seq<char> {
    match e {
        ErrorV::AlreadyDefined { name } => "Variable "@ + quoted(name)
            + " is already defined in this scope"@,
        ErrorV::UndefinedVariable { name } => "Undefined variable "@ + quoted(name),
        ErrorV::MissingArgument { label } => "Missing required argument "@ + quoted(label),
        ErrorV::ExpectedNumber { label, found } => "Expected number for "@ + quoted(label)
            + ", got "@ + found,
        ErrorV::ExpectedString { label, found } => "Expected string for "@ + quoted(label)
            + ", got "@ + found,
        ErrorV::NotAFunction => "start_coroutine requires func: to be a function (use let() do ... end)"@,
        ErrorV::UnknownArgument { label } => "Unknown argument "@ + quoted(label)
            + " for function"@,
        ErrorV::TooManyArguments { expected, got } => "Too many arguments: expected "@ + decimal(
            expected,
        ) + ", got "@ + decimal(got),
        ErrorV::ScriptExpected { found } => "Function declared -> script must return script HTML, got "@
            + found,
        ErrorV::CallDepthExceeded => "Function calls nest too deep"@,
    }
}

fn quote_into(out: &mut String, t: &String)
    ensures
        final(out)@ == old(out)@ + quoted(t@),
{
    out.append("'");
    out.append(t.as_str());
    out.append("'");
    assert(out@ =~= old(out)@ + quoted(t@));
}

impl RuntimeError {
    /// The message that tells a user what went wrong.
    pub fn message(&self) -> (r: String)
        ensures
            r@ == error_text(self@),
    {
        match self {
            RuntimeError::AlreadyDefined { name } => {
                let mut r = String::from_str("Variable ");
                quote_into(&mut r, name);
                r.append(" is already defined in this scope");
                r
            },
            RuntimeError::UndefinedVariable { name } => {
                let mut r = String::from_str("Undefined variable ");
                quote_into(&mut r, name);
                r
            },
            RuntimeError::MissingArgument { label } => {
                let mut r = String::from_str("Missing required argument ");
                quote_into(&mut r, label);
                r
            },
            RuntimeError::ExpectedNumber { label, found } => {
                let mut r = String::from_str("Expected number for ");
                quote_into(&mut r, label);
                r.append(", got ");
                r.append(found.as_str());
                r
            },
            RuntimeError::ExpectedString { label, found } => {
                let mut r = String::from_str("Expected string for ");
                quote_into(&mut r, label);
                r.append(", got ");
                r.append(found.as_str());
                r
            },
            RuntimeError::NotAFunction => String::from_str(
                "start_coroutine requires func: to be a function (use let() do ... end)",
            ),
            RuntimeError::UnknownArgument { label } => {
                let mut r = String::from_str("Unknown argument ");
                quote_into(&mut r, label);
                r.append(" for function");
                r
            },
            RuntimeError::TooManyArguments { expected, got } => {
                let mut r = String::from_str("Too many arguments: expected ");
                let e = decimal_text(*expected);
                let g = decimal_text(*got);
                r.append(e.as_str());
                r.append(", got ");
                r.append(g.as_str());
                r
            },
            RuntimeError::ScriptExpected { found } => {
                let mut r = String::from_str(
                    "Function declared -> script must return script HTML, got ",
                );
                r.append(found.as_str());
                r
            },
            RuntimeError::CallDepthExceeded => String::from_str("Function calls nest too deep"),
        }
    }
}

} // verus!
