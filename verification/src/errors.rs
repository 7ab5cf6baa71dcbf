use vstd::prelude::*;

verus! {

/// The error taxonomy of the runtime. Every error is an inspectable value:
/// evaluation stops at the first error and hands it back to the caller, so a
/// host (a REPL, a test harness) can report it without aborting the process.
#[derive(Debug, PartialEq)]
pub enum Error {
    /// Malformed source text.
    SyntaxError(String),
    /// A symbol was resolved against the whole scope chain without a match.
    UnboundSymbol(String),
    /// Too few or too many positional arguments for a call.
    ArityError(String),
    /// A value of the wrong kind at a call site, boolean branch, arithmetic
    /// operand, or non-callable head.
    TypeError(String),
    /// A malformed or misordered parameter declaration.
    ParameterSpecError(String),
    /// The same keyword argument was supplied twice in one call.
    DuplicateKeyword(String),
    /// A declared keyword parameter without a default was not supplied.
    MissingKeywordArgument(String),
    /// A proper-list operation was applied to a chain not ending in nil.
    ImproperListError,
    /// Evaluation exceeded the recursion depth limit. This stands in for the
    /// fatal, untyped stack exhaustion of a host without an explicit bound.
    DepthLimit,
}

/// Mathematical model of an `Error`: payloads as character sequences.
pub enum SpecError {
    SyntaxError(Seq<char>),
    UnboundSymbol(Seq<char>),
    ArityError(Seq<char>),
    TypeError(Seq<char>),
    ParameterSpecError(Seq<char>),
    DuplicateKeyword(Seq<char>),
    MissingKeywordArgument(Seq<char>),
    ImproperListError,
    DepthLimit,
}

impl View for Error {
    type V = SpecError;

    open spec fn view(&self) -> SpecError {
        match self {
            Error::SyntaxError(s) => SpecError::SyntaxError(s@),
            Error::UnboundSymbol(s) => SpecError::UnboundSymbol(s@),
            Error::ArityError(s) => SpecError::ArityError(s@),
            Error::TypeError(s) => SpecError::TypeError(s@),
            Error::ParameterSpecError(s) => SpecError::ParameterSpecError(s@),
            Error::DuplicateKeyword(s) => SpecError::DuplicateKeyword(s@),
            Error::MissingKeywordArgument(s) => SpecError::MissingKeywordArgument(s@),
            Error::ImproperListError => SpecError::ImproperListError,
            Error::DepthLimit => SpecError::DepthLimit,
        }
    }
}

impl DeepView for Error {
    type V = SpecError;

    open spec fn deep_view(&self) -> SpecError {
        self.view()
    }
}

/// What `describe` returns, stated over the model.
pub open spec fn spec_describe(e: SpecError) -> Seq<char> {
    match e {
        SpecError::SyntaxError(s) => "syntax error: "@ + s,
        SpecError::UnboundSymbol(s) => "symbol not found: "@ + s,
        SpecError::ArityError(s) => "arity error: "@ + s,
        SpecError::TypeError(s) => "type error: "@ + s,
        SpecError::ParameterSpecError(s) => "parameter spec error: "@ + s,
        SpecError::DuplicateKeyword(s) => "duplicate keyword argument: "@ + s,
        SpecError::MissingKeywordArgument(s) => "missing required keyword argument: "@ + s,
        SpecError::ImproperListError => "expected a proper list"@,
        SpecError::DepthLimit => "recursion depth limit exceeded"@,
    }
}

impl Error {
    /// A human-readable account of the error, for hosts to print.
    pub fn describe(&self) -> (r: String)
        ensures
            r@ == spec_describe(self@),
    {
        match self {
            Error::SyntaxError(s) => String::from_str("syntax error: ").concat(s.as_str()),
            Error::UnboundSymbol(s) => String::from_str("symbol not found: ").concat(s.as_str()),
            Error::ArityError(s) => String::from_str("arity error: ").concat(s.as_str()),
            Error::TypeError(s) => String::from_str("type error: ").concat(s.as_str()),
            Error::ParameterSpecError(s) => String::from_str("parameter spec error: ").concat(
                s.as_str(),
            ),
            Error::DuplicateKeyword(s) => String::from_str("duplicate keyword argument: ").concat(
                s.as_str(),
            ),
            Error::MissingKeywordArgument(s) => String::from_str(
                "missing required keyword argument: ",
            ).concat(s.as_str()),
            Error::ImproperListError => String::from_str("expected a proper list"),
            Error::DepthLimit => String::from_str("recursion depth limit exceeded"),
        }
    }
}

} // verus!
