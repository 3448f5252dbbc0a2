//! The Lisp runtime: the interpreter's environment, the parsing of source
//! text for evaluation, the values evaluation gives back, and its error type.
use crate::text::{string_push_str, to_string};
use rust_lisp::model::{Env, Value};
use std::cell::RefCell;
use std::rc::Rc;
use vstd::prelude::*;

verus! {

/// Error type for Lisp evaluation failures.
#[derive(Debug, Clone, PartialEq, Eq)]
pub enum LispError {
    /// A syntax error in the Lisp source code.
    ParseError { message: String },
    /// A runtime error during evaluation (undefined symbol, type mismatch, etc.).
    RuntimeError { message: String },
    /// An I/O error (e.g., file not found for eval_file).
    IoError { message: String },
}

/// The text of an error.
pub open spec fn lisp_error_text(e: LispError) -> Seq<char> {
    match e {
        LispError::ParseError { message } => "Parse error: "@ + message@,
        LispError::RuntimeError { message } => "Runtime error: "@ + message@,
        LispError::IoError { message } => "IO error: "@ + message@,
    }
}

impl LispError {
    /// The error's text, as it is displayed.
    pub fn message(&self) -> (s: String)
        ensures
            s@ == lisp_error_text(*self),
    {
        let (prefix, m) = match self {
            LispError::ParseError { message } => ("Parse error: ", message),
            LispError::RuntimeError { message } => ("Runtime error: ", message),
            LispError::IoError { message } => ("IO error: ", message),
        };
        let mut s = to_string(prefix);
        string_push_str(&mut s, m.as_str());
        s
    }
}

/// Indicates the Lisp subsystem is available.
pub fn available() -> (b: bool)
    ensures
        b,
{
    true
}


#[verifier::external_type_specification]
#[verifier::external_body]
pub struct ExValue(Value);

#[verifier::external_type_specification]
#[verifier::external_body]
pub struct ExEnv(Env);

#[verifier::external_type_specification]
#[verifier::external_body]
#[verifier::reject_recursive_types(T)]
pub struct ExRefCell<T: ?Sized>(RefCell<T>);

/// What `rust_lisp::parser::parse` makes of a source text: the number of
/// expressions it holds, or the message of its first parse error.
pub uninterp spec fn parse_outcome(source: Seq<char>) -> Result<nat, Seq<char>>;

/// `rust_lisp::parser::parse`, all of it: the expressions of the source, or
/// the message of the first parse error.
#[verifier::external_body]
fn parse_source(source: &str) -> (r: Result<Vec<Value>, String>)
    ensures
        match r {
            Ok(v) => parse_outcome(source@) == Ok::<nat, Seq<char>>(v@.len()),
            Err(m) => parse_outcome(source@) == Err::<nat, Seq<char>>(m@),
        },
{
    rust_lisp::parser::parse(source).map(|x| x.map_err(|e| e.msg)).collect()
}

/// `rust_lisp::default_env`: a fresh environment with the interpreter's
/// built-in functions, in a shared cell.
#[verifier::external_body]
fn default_env_cell() -> Rc<RefCell<Env>> {
    Rc::new(RefCell::new(rust_lisp::default_env()))
}

/// What is read of a Lisp value: an integer, a string, or something else.
#[derive(Debug)]
pub enum ValueKind {
    Int(i32),
    Str(String),
    Other,
}

/// What is read of a `rust_lisp` value: `Value::Int(n)` gives `Int(n)`,
/// `Value::String(s)` gives `Str(s)`, any other variant `Other`.
pub uninterp spec fn value_kind(v: Value) -> ValueKind;

/// Reads a `rust_lisp` value's variant: its integer or its string, or
/// neither, as `value_kind` names it.
#[verifier::external_body]
fn kind_of_value(v: &Value) -> (k: ValueKind)
    ensures
        k == value_kind(*v),
{
    match v {
        Value::Int(n) => ValueKind::Int(*n),
        Value::String(s) => ValueKind::Str(s.clone()),
        _ => ValueKind::Other,
    }
}

/// A Lisp value returned from evaluation, with what is read of it.
#[derive(Debug)]
pub struct LispValue {
    inner: Value,
    kind: ValueKind,
}

impl LispValue {
    /// What is read of the value.
    pub closed spec fn kind_spec(&self) -> ValueKind {
        self.kind
    }

    /// The underlying value.
    pub closed spec fn inner_spec(&self) -> Value {
        self.inner
    }

    /// Wraps a value.
    pub fn from_value(value: Value) -> (r: LispValue)
        ensures
            r.inner_spec() == value,
            r.kind_spec() == value_kind(value),
    {
        let kind = kind_of_value(&value);
        LispValue { inner: value, kind }
    }

    /// The integer, or `None` when the value is not an integer.
    pub fn as_integer(&self) -> (r: Option<i32>)
        ensures
            r == (match self.kind_spec() {
                ValueKind::Int(n) => Some(n),
                _ => None,
            }),
    {
        match &self.kind {
            ValueKind::Int(n) => Some(*n),
            _ => None,
        }
    }

    /// The string, or `None` when the value is not a string.
    pub fn as_string(&self) -> (r: Option<String>)
        ensures
            match self.kind_spec() {
                ValueKind::Str(s) => r matches Some(t) && t@ == s@,
                _ => r is None,
            },
    {
        match &self.kind {
            ValueKind::Str(s) => Some(to_string(s.as_str())),
            _ => None,
        }
    }

    /// The underlying `rust_lisp` value.
    pub fn inner(&self) -> (r: &Value)
        ensures
            *r == self.inner_spec(),
    {
        &self.inner
    }
}

/// The Lisp runtime: the interpreter's environment, shared with the
/// primitives registered into it.
pub struct LispRuntime {
    env: Rc<RefCell<Env>>,
}

impl LispRuntime {
    /// The shared environment cell.
    pub closed spec fn env_spec(&self) -> Rc<RefCell<Env>> {
        self.env
    }

    /// A runtime with the interpreter's default environment.
    pub fn new() -> (r: LispRuntime) {
        LispRuntime { env: default_env_cell() }
    }

    /// The shared environment.
    pub fn env(&self) -> (r: Rc<RefCell<Env>>)
        ensures
            r == self.env_spec(),
    {
        Rc::clone(&self.env)
    }

    /// Parses a source text for evaluation: its expressions, in order. A
    /// parse error, or a source without expressions ("Empty expression"), is
    /// a `ParseError`.
    ///
    /// Evaluating the expressions runs user Lisp in the interpreter, which
    /// may panic (`(/ 1 0)` divides an `i32` by zero) or never return
    /// (endless recursion), and which programs do cannot be told from their
    /// text; so the evaluation itself is left to the caller, who hands its
    /// outcome to `evaluation_result`.
    pub fn parse_program(&self, source: &str) -> (r: Result<Vec<Value>, LispError>)
        ensures
            match parse_outcome(source@) {
                Err(m) => r matches Err(LispError::ParseError { message }) && message@ == m,
                Ok(n) => if n == 0 {
                    r matches Err(LispError::ParseError { message }) && message@ == "Empty expression"@
                } else {
                    r matches Ok(v) && v@.len() == n
                },
            },
    {
        let values = match parse_source(source) {
            Ok(v) => v,
            Err(m) => return Err(LispError::ParseError { message: m }),
        };
        if values.len() == 0 {
            return Err(LispError::ParseError { message: to_string("Empty expression") });
        }
        Ok(values)
    }

    /// What an evaluation gives back to the editor: its value, read; or its
    /// error message as a `RuntimeError`.
    pub fn evaluation_result(outcome: Result<Value, String>) -> (r: Result<LispValue, LispError>)
        ensures
            match outcome {
                Ok(v) => r matches Ok(lv) && lv.inner_spec() == v && lv.kind_spec() == value_kind(v),
                Err(m) => r matches Err(LispError::RuntimeError { message }) && message@ == m@,
            },
    {
        match outcome {
            Ok(v) => Ok(LispValue::from_value(v)),
            Err(m) => Err(LispError::RuntimeError { message: m }),
        }
    }
}

impl Default for LispRuntime {
    /// The same as `new`.
    fn default() -> (r: LispRuntime) {
        LispRuntime::new()
    }
}
} // verus!
