//! Errors that reject a program, with the messages that report them.
use vstd::prelude::*;
use crate::text::{nat_decimal, push_nat_decimal};

verus! {

/// Why a program was rejected.
#[derive(Debug)]
pub enum CompileError {
    /// The text is not a well-formed program.
    Invalid,
    /// A `let` binds the same name twice.
    DuplicateBinding,
    /// A variable is read or assigned but not bound.
    UnboundVariable(String),
    /// A `break` stands outside every `loop`.
    BreakOutsideLoop,
    /// A function is named by a keyword.
    InvalidFunctionName(String),
    /// A parameter is named by a keyword.
    InvalidParameterName(String),
    /// A parameter is not a name.
    InvalidParameter,
    /// A `fun` form is malformed.
    InvalidFunctionDefinition,
    /// A definition follows the main expression.
    DefinitionAfterMain,
    /// More than one main expression.
    MultipleMain,
    /// No main expression.
    NoMain,
    /// Two functions share a name.
    DuplicateFunction(String),
    /// A function has two parameters of one name.
    DuplicateParameter(String),
    /// A `let` binds a name that is a parameter of the enclosing function.
    ShadowParameter(String),
    /// A call names no defined function.
    UndefinedFunction(String),
    /// A call passes a number of arguments other than the arity: name,
    /// expected, given.
    WrongArity(String, usize, usize),
}

/// Mathematical model of a `CompileError`.
pub enum CompileErrorV {
    Invalid,
    DuplicateBinding,
    UnboundVariable(Seq<char>),
    BreakOutsideLoop,
    InvalidFunctionName(Seq<char>),
    InvalidParameterName(Seq<char>),
    InvalidParameter,
    InvalidFunctionDefinition,
    DefinitionAfterMain,
    MultipleMain,
    NoMain,
    DuplicateFunction(Seq<char>),
    DuplicateParameter(Seq<char>),
    ShadowParameter(Seq<char>),
    UndefinedFunction(Seq<char>),
    WrongArity(Seq<char>, nat, nat),
}

impl View for CompileError {
    type V = CompileErrorV;

    open spec fn view(&self) -> CompileErrorV {
        match self {
            CompileError::Invalid => CompileErrorV::Invalid,
            CompileError::DuplicateBinding => CompileErrorV::DuplicateBinding,
            CompileError::UnboundVariable(n) => CompileErrorV::UnboundVariable(n@),
            CompileError::BreakOutsideLoop => CompileErrorV::BreakOutsideLoop,
            CompileError::InvalidFunctionName(n) => CompileErrorV::InvalidFunctionName(n@),
            CompileError::InvalidParameterName(n) => CompileErrorV::InvalidParameterName(n@),
            CompileError::InvalidParameter => CompileErrorV::InvalidParameter,
            CompileError::InvalidFunctionDefinition => CompileErrorV::InvalidFunctionDefinition,
            CompileError::DefinitionAfterMain => CompileErrorV::DefinitionAfterMain,
            CompileError::MultipleMain => CompileErrorV::MultipleMain,
            CompileError::NoMain => CompileErrorV::NoMain,
            CompileError::DuplicateFunction(n) => CompileErrorV::DuplicateFunction(n@),
            CompileError::DuplicateParameter(n) => CompileErrorV::DuplicateParameter(n@),
            CompileError::ShadowParameter(n) => CompileErrorV::ShadowParameter(n@),
            CompileError::UndefinedFunction(n) => CompileErrorV::UndefinedFunction(n@),
            CompileError::WrongArity(n, e, g) => CompileErrorV::WrongArity(n@, *e as nat, *g as nat),
        }
    }
}

/// The message that reports an error.
pub open spec fn error_message(e: CompileErrorV) -> Seq<char> {
    match e {
        CompileErrorV::Invalid => "Invalid"@,
        CompileErrorV::DuplicateBinding => "Duplicate binding"@,
        CompileErrorV::UnboundVariable(n) => "Unbound variable identifier "@ + n,
        CompileErrorV::BreakOutsideLoop => "break outside of loop"@,
        CompileErrorV::InvalidFunctionName(n) => "Invalid function name: "@ + n,
        CompileErrorV::InvalidParameterName(n) => "Invalid parameter name: "@ + n,
        CompileErrorV::InvalidParameter => "Invalid parameter"@,
        CompileErrorV::InvalidFunctionDefinition => "Invalid function definition"@,
        CompileErrorV::DefinitionAfterMain =>
            "Function definitions must appear before the main expression"@,
        CompileErrorV::MultipleMain => "Multiple main expressions"@,
        CompileErrorV::NoMain => "No main expression"@,
        CompileErrorV::DuplicateFunction(n) => "Duplicate function definition: "@ + n,
        CompileErrorV::DuplicateParameter(n) => "Duplicate parameter: "@ + n,
        CompileErrorV::ShadowParameter(n) => "Cannot shadow parameter: "@ + n,
        CompileErrorV::UndefinedFunction(n) => "Undefined function: "@ + n,
        CompileErrorV::WrongArity(n, e, g) => "Wrong number of arguments for "@ + n
            + ": expected "@ + nat_decimal(e) + ", got "@ + nat_decimal(g),
    }
}

fn cat(a: &str, b: &str) -> (s: String)
    ensures
        s@ == a@ + b@,
{
    let mut s = a.to_owned();
    s.append(b);
    s
}

impl CompileError {
    /// The message that reports this error.
    pub fn message(&self) -> (s: String)
        ensures
            s@ == error_message(self@),
    {
        match self {
            CompileError::Invalid => "Invalid".to_owned(),
            CompileError::DuplicateBinding => "Duplicate binding".to_owned(),
            CompileError::UnboundVariable(n) => cat("Unbound variable identifier ", n.as_str()),
            CompileError::BreakOutsideLoop => "break outside of loop".to_owned(),
            CompileError::InvalidFunctionName(n) => cat("Invalid function name: ", n.as_str()),
            CompileError::InvalidParameterName(n) => cat("Invalid parameter name: ", n.as_str()),
            CompileError::InvalidParameter => "Invalid parameter".to_owned(),
            CompileError::InvalidFunctionDefinition => "Invalid function definition".to_owned(),
            CompileError::DefinitionAfterMain =>
                "Function definitions must appear before the main expression".to_owned(),
            CompileError::MultipleMain => "Multiple main expressions".to_owned(),
            CompileError::NoMain => "No main expression".to_owned(),
            CompileError::DuplicateFunction(n) => cat("Duplicate function definition: ", n.as_str()),
            CompileError::DuplicateParameter(n) => cat("Duplicate parameter: ", n.as_str()),
            CompileError::ShadowParameter(n) => cat("Cannot shadow parameter: ", n.as_str()),
            CompileError::UndefinedFunction(n) => cat("Undefined function: ", n.as_str()),
            CompileError::WrongArity(n, e, g) => {
                let mut s = cat("Wrong number of arguments for ", n.as_str());
                s.append(": expected ");
                push_nat_decimal(&mut s, *e as u64);
                s.append(", got ");
                push_nat_decimal(&mut s, *g as u64);
                proof {
                    assert(s@ =~= error_message(self@));
                }
                s
            },
        }
    }
}

} // verus!
