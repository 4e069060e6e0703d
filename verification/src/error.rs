//! The error kinds of request construction, each carrying a human-readable
//! message that names the offending input.
use vstd::prelude::*;

verus! {

#[derive(Debug, Clone, PartialEq, Eq)]
pub enum RpcError {
    /// A function-call expression with a malformed argument.
    InvalidExpression(String),
    /// A function-call expression with a name other than `int` or `null`.
    UnsupportedFunction(String),
    /// A params token that is neither an option nor a well-formed call.
    InvalidFunctionCall(String),
    /// An option token with no `=` and no following token to take as value.
    MissingValue(String),
    /// A params token (or file body) that does not parse as JSON.
    InvalidParams(String),
    /// A `@file` params reference whose file could not be read.
    ReadError(String),
}

pub enum ErrorRep {
    InvalidExpression(Seq<char>),
    UnsupportedFunction(Seq<char>),
    InvalidFunctionCall(Seq<char>),
    MissingValue(Seq<char>),
    InvalidParams(Seq<char>),
    ReadError(Seq<char>),
}

impl View for RpcError {
    type V = ErrorRep;

    open spec fn view(&self) -> ErrorRep {
        match self {
            RpcError::InvalidExpression(m) => ErrorRep::InvalidExpression(m@),
            RpcError::UnsupportedFunction(m) => ErrorRep::UnsupportedFunction(m@),
            RpcError::InvalidFunctionCall(m) => ErrorRep::InvalidFunctionCall(m@),
            RpcError::MissingValue(m) => ErrorRep::MissingValue(m@),
            RpcError::InvalidParams(m) => ErrorRep::InvalidParams(m@),
            RpcError::ReadError(m) => ErrorRep::ReadError(m@),
        }
    }
}

impl RpcError {
    /// The message carried by the error, for display by a caller.
    pub fn message(&self) -> (r: &String)
        ensures
            r@ == self.spec_message(),
    {
        match self {
            RpcError::InvalidExpression(m) => m,
            RpcError::UnsupportedFunction(m) => m,
            RpcError::InvalidFunctionCall(m) => m,
            RpcError::MissingValue(m) => m,
            RpcError::InvalidParams(m) => m,
            RpcError::ReadError(m) => m,
        }
    }

    pub open spec fn spec_message(&self) -> Seq<char> {
        match self {
            RpcError::InvalidExpression(m) => m@,
            RpcError::UnsupportedFunction(m) => m@,
            RpcError::InvalidFunctionCall(m) => m@,
            RpcError::MissingValue(m) => m@,
            RpcError::InvalidParams(m) => m@,
            RpcError::ReadError(m) => m@,
        }
    }
}

} // verus!
