use vstd::prelude::*;

verus! {

/// The broad class an error belongs to.
#[derive(Clone, Copy, Debug, PartialEq, Eq, Structural)]
pub enum ErrorKind {
    Input,
    Reference,
    Naming,
    Encoding,
}

/// Every failure the builder reports.
#[derive(Clone, Copy, Debug, PartialEq, Eq, Structural)]
pub enum Error {
    /// A multi-element operand list (amounts, sources, objects, elements, modules) was empty.
    EmptyOperands,
    /// Adding gas objects would exceed the configured ceiling.
    TooManyGasObjects,
    /// The number of inputs exceeds the configured ceiling.
    TooManyInputs,
    /// The number of commands exceeds the configured ceiling.
    TooManyCommands,
    /// The number of argument identifiers exceeds the configured ceiling.
    TooManyArguments,
    /// An owned, immutable or receiving object was given without a digest.
    MissingDigest,
    /// Text that does not denote an address.
    InvalidAddress,
    /// Text that does not denote a digest.
    InvalidDigest,
    /// No sender address was set.
    MissingSender,
    /// No gas budget was set.
    MissingGasBudget,
    /// No gas price was set.
    MissingGasPrice,
    /// No gas object was added.
    MissingGasObjects,
    /// Intents are pending and no resolver is available.
    UnresolvedIntentsOffline,
    /// An identifier that was never allocated.
    UnknownArgument(usize),
    /// An alias chain that revisits an identifier.
    CyclicReference(usize),
    /// A sub-index on a value that has no sub-results, or two sub-indices stacked.
    InvalidSubIndex(usize),
    /// An identifier reserved for an intent that was never bound.
    UnresolvedArgument(usize),
    /// The identifier is not registered as a pending intent.
    NotAnIntent(usize),
    /// A Move module name that is not a valid identifier.
    InvalidModuleName,
    /// A Move function name that is not a valid identifier.
    InvalidFunctionName,
    /// A type tag that does not parse.
    InvalidTypeTag,
    /// The encoded payload is too large to frame.
    PayloadTooLarge,
}

impl Error {
    pub open spec fn spec_kind(self) -> ErrorKind {
        match self {
            Error::UnknownArgument(_) | Error::CyclicReference(_) | Error::InvalidSubIndex(_)
            | Error::UnresolvedArgument(_) | Error::NotAnIntent(_) => ErrorKind::Reference,
            Error::InvalidModuleName | Error::InvalidFunctionName
            | Error::InvalidTypeTag => ErrorKind::Naming,
            Error::PayloadTooLarge => ErrorKind::Encoding,
            _ => ErrorKind::Input,
        }
    }

    /// The class of this error.
    pub fn kind(&self) -> (r: ErrorKind)
        ensures
            r == self.spec_kind(),
    {
        match self {
            Error::UnknownArgument(_) | Error::CyclicReference(_) | Error::InvalidSubIndex(_)
            | Error::UnresolvedArgument(_) | Error::NotAnIntent(_) => ErrorKind::Reference,
            Error::InvalidModuleName | Error::InvalidFunctionName
            | Error::InvalidTypeTag => ErrorKind::Naming,
            Error::PayloadTooLarge => ErrorKind::Encoding,
            _ => ErrorKind::Input,
        }
    }
}

} // verus!
