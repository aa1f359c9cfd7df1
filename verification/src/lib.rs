//! A declarative command-line argument parser.
//!
//! Callers describe the arguments they expect — a list of positional type
//! constraints and a list of named flags — and hand the parser an ordered
//! sequence of tokens.  The parser classifies each token as a long flag
//! (`--name`), a short flag (`-c`), or a positional candidate, resolves each
//! value against its constraint through a fixed precedence chain, and yields
//! an [`Args`] holding the typed results, or an [`ArgumentError`] saying
//! exactly what was wrong with the input.
//!
//! The library is pure: the embedding application supplies the token stream
//! (usually the process argument vector) together with the two outside
//! readings of each token that the library cannot compute itself — the
//! 32-bit floating-point interpretation and the resolved network address
//! (see [`Token`]).

use vstd::prelude::*;
use vstd::string::StringExecFns;

pub mod args;
pub mod text;
pub mod variant;

pub use crate::args::Args;
pub use crate::args::ArgsModel;
pub use crate::args::match_flag_definition;
pub use crate::text::parse_i32;
pub use crate::variant::SocketAddress;
pub use crate::variant::Token;
pub use crate::variant::TokenModel;
pub use crate::variant::Variant;
pub use crate::variant::VariantFlag;
pub use crate::variant::VariantView;

verus! {

/// Defines a named argument that your program is expecting.
///
/// A flag named `example` with abbreviation `e` is set by
/// `binary_name --example true` or `binary_name -e false`.
#[derive(Clone, Debug)]
pub struct FlagDefinition {
    /// The name of the flagged argument.  End users set this argument by
    /// passing `--name <value>`.  This is also the key under which the
    /// parsed value is recorded, even when the flag was passed by its
    /// abbreviation.
    pub name: String,
    /// An optional abbreviation that can be set with `-a <value>`.
    pub abbreviation: Option<char>,
    /// The representations the parser will attempt to resolve the given
    /// value into.
    pub allowed_type: VariantFlag,
}

/// Mathematical model of a [`FlagDefinition`].
pub ghost struct FlagModel {
    pub name: Seq<char>,
    pub abbreviation: Option<char>,
    pub allowed_type: VariantFlag,
}

impl View for FlagDefinition {
    type V = FlagModel;

    open spec fn view(&self) -> FlagModel {
        FlagModel {
            name: self.name@,
            abbreviation: self.abbreviation,
            allowed_type: self.allowed_type,
        }
    }
}

/// The closed set of ways a parse can fail.  Callers can branch on the
/// variant programmatically; [`ArgumentError::message`] renders each one
/// for direct display to an end user.
#[derive(Debug)]
pub enum ArgumentErrorKind {
    /// The token stream was empty: not even a program name was supplied.
    EmptyArgumentList,
    /// A `--name` token named no declared flag.
    UnknownFlag { name: String },
    /// A `-c` token matched no declared abbreviation.
    UnknownAbbreviation { abbreviation: char, token: String },
    /// A flag that takes a value stood at the end of the stream.
    MissingFlagValue { name: String },
    /// A flag's value token resolved to none of the flag's allowed
    /// representations.
    InvalidFlagValue { name: String, value: String },
    /// More positional tokens appeared than positional constraints were
    /// declared.
    TooManyPositionals,
    /// A positional token resolved to none of its slot's allowed
    /// representations.
    InvalidPositionalValue { index: usize, allowed: VariantFlag },
    /// The stream ended with fewer positional values than constraints.
    TooFewPositionals,
}

/// Mathematical model of an [`ArgumentErrorKind`].
pub ghost enum ErrorModel {
    EmptyArgumentList,
    UnknownFlag { name: Seq<char> },
    UnknownAbbreviation { abbreviation: char, token: Seq<char> },
    MissingFlagValue { name: Seq<char> },
    InvalidFlagValue { name: Seq<char>, value: Seq<char> },
    TooManyPositionals,
    InvalidPositionalValue { index: int, allowed: VariantFlag },
    TooFewPositionals,
}

impl View for ArgumentErrorKind {
    type V = ErrorModel;

    open spec fn view(&self) -> ErrorModel {
        match self {
            ArgumentErrorKind::EmptyArgumentList => ErrorModel::EmptyArgumentList,
            ArgumentErrorKind::UnknownFlag { name } => ErrorModel::UnknownFlag { name: name@ },
            ArgumentErrorKind::UnknownAbbreviation { abbreviation, token } =>
                ErrorModel::UnknownAbbreviation { abbreviation: *abbreviation, token: token@ },
            ArgumentErrorKind::MissingFlagValue { name } => ErrorModel::MissingFlagValue {
                name: name@,
            },
            ArgumentErrorKind::InvalidFlagValue { name, value } => ErrorModel::InvalidFlagValue {
                name: name@,
                value: value@,
            },
            ArgumentErrorKind::TooManyPositionals => ErrorModel::TooManyPositionals,
            ArgumentErrorKind::InvalidPositionalValue { index, allowed } =>
                ErrorModel::InvalidPositionalValue { index: *index as int, allowed: *allowed },
            ArgumentErrorKind::TooFewPositionals => ErrorModel::TooFewPositionals,
        }
    }
}

/// The human-readable description of each failure.  Showing it to the end
/// user will guide them to correcting their input.
pub open spec fn spec_message(e: ErrorModel) -> Seq<char> {
    match e {
        ErrorModel::EmptyArgumentList => "Argument count is 0"@,
        ErrorModel::UnknownFlag { name } => "--"@ + name + " does not match any known flag name"@,
        ErrorModel::UnknownAbbreviation { abbreviation: _, token } => token
            + " does not match any known flag abbreviation"@,
        ErrorModel::MissingFlagValue { name } => "Unexpected end of arguments, "@ + name
            + " needs a value"@,
        ErrorModel::InvalidFlagValue { name, value } => "Argument "@ + value
            + " is not a valid type for --"@ + name,
        ErrorModel::TooManyPositionals => "There are too many positional arguments"@,
        ErrorModel::InvalidPositionalValue { index, allowed } => "Positional argument "@
            + crate::text::spec_decimal(index as nat) + " cannot be parsed as type "@
            + crate::variant::spec_describe(allowed),
        ErrorModel::TooFewPositionals => "Not enough positional arguments were supplied"@,
    }
}

/// A simple error type.  If something is wrong with the user's input,
/// showing them its message will guide them to correcting it.
#[derive(Debug)]
pub struct ArgumentError {
    kind: ArgumentErrorKind,
}

impl View for ArgumentError {
    type V = ErrorModel;

    closed spec fn view(&self) -> ErrorModel {
        self.kind@
    }
}

impl ArgumentError {
    /// Wraps a failure kind.
    pub fn new(kind: ArgumentErrorKind) -> (r: ArgumentError)
        ensures
            r@ == kind@,
    {
        ArgumentError { kind }
    }

    /// The kind of failure, for programmatic branching.
    pub fn kind(&self) -> (r: &ArgumentErrorKind)
        ensures
            r@ == self@,
    {
        &self.kind
    }

    /// Renders the failure for an end user.
    pub fn message(&self) -> (r: String)
        ensures
            r@ == spec_message(self@),
    {
        match &self.kind {
            ArgumentErrorKind::EmptyArgumentList => String::from_str("Argument count is 0"),
            ArgumentErrorKind::UnknownFlag { name } => String::from_str("--").concat(
                name.as_str(),
            ).concat(" does not match any known flag name"),
            ArgumentErrorKind::UnknownAbbreviation { abbreviation: _, token } => token
                .clone()
                .concat(" does not match any known flag abbreviation"),
            ArgumentErrorKind::MissingFlagValue { name } => String::from_str(
                "Unexpected end of arguments, ",
            ).concat(name.as_str()).concat(" needs a value"),
            ArgumentErrorKind::InvalidFlagValue { name, value } => String::from_str(
                "Argument ",
            ).concat(value.as_str()).concat(" is not a valid type for --").concat(name.as_str()),
            ArgumentErrorKind::TooManyPositionals => String::from_str(
                "There are too many positional arguments",
            ),
            ArgumentErrorKind::InvalidPositionalValue { index, allowed } => String::from_str(
                "Positional argument ",
            ).concat(crate::text::usize_to_decimal(*index).as_str()).concat(
                " cannot be parsed as type ",
            ).concat(allowed.describe().as_str()),
            ArgumentErrorKind::TooFewPositionals => String::from_str(
                "Not enough positional arguments were supplied",
            ),
        }
    }
}

} // verus!
