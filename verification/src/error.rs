use vstd::prelude::*;

verus! {

/// Why a target specification text was rejected.
#[derive(Clone, Copy, Debug, PartialEq, Eq, Structural)]
pub enum MalformedSpec {
    /// Nothing stands before the first `+`.
    EmptyArchitecture,
    /// The architecture part opens a bracket that it does not close.
    UnterminatedBracket,
    /// A bracketed list holds an empty element.
    EmptyBracketElement,
    /// A name is none of the known architectures.
    UnknownArchitecture,
    /// Nothing stands between two `+`, or after the last one.
    EmptyFeature,
}

/// What can go wrong while a call site is set up. Nothing fails once it is.
#[derive(Clone, Copy, Debug, PartialEq, Eq, Structural)]
pub enum SetupError {
    /// A target specification text does not follow the grammar.
    MalformedSpec(MalformedSpec),
    /// The table was given no default implementation.
    UnreachableDefaultMissing,
}

impl MalformedSpec {
    /// The wording of each reason.
    pub open spec fn text(self) -> Seq<char> {
        match self {
            MalformedSpec::EmptyArchitecture => "expected architecture specifier"@,
            MalformedSpec::UnterminatedBracket => "architecture list is not closed"@,
            MalformedSpec::EmptyBracketElement => "architecture list holds an empty name"@,
            MalformedSpec::UnknownArchitecture => "unknown architecture"@,
            MalformedSpec::EmptyFeature => "feature string cannot be empty"@,
        }
    }

    /// A short description for diagnostics.
    pub fn message(&self) -> (m: &'static str)
        ensures
            m@ == self.text(),
    {
        match self {
            MalformedSpec::EmptyArchitecture => "expected architecture specifier",
            MalformedSpec::UnterminatedBracket => "architecture list is not closed",
            MalformedSpec::EmptyBracketElement => "architecture list holds an empty name",
            MalformedSpec::UnknownArchitecture => "unknown architecture",
            MalformedSpec::EmptyFeature => "feature string cannot be empty",
        }
    }
}

} // verus!
