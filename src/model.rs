use vstd::prelude::*;

verus! {

/// A 32-byte account or object address.
#[derive(Clone, Copy, Debug)]
pub struct Address {
    pub bytes: [u8; 32],
}

/// A 32-byte object digest.
#[derive(Clone, Copy, Debug)]
pub struct Digest {
    pub bytes: [u8; 32],
}

/// A reference to one version of an owned object.
#[derive(Clone, Copy, Debug)]
pub struct ObjectRef {
    pub id: Address,
    pub version: u64,
    pub digest: Digest,
}

/// The four ownership kinds of an object input.
#[derive(Clone, Copy, Debug, PartialEq, Eq, Structural)]
pub enum ObjectKind {
    Owned,
    Immutable,
    Receiving,
    Shared,
}

/// An object input with the metadata that its kind requires.
#[derive(Clone, Copy, Debug)]
pub enum ObjectInput {
    Owned(ObjectRef),
    Immutable(ObjectRef),
    Receiving(ObjectRef),
    Shared { id: Address, version: u64, mutable: bool },
}

impl ObjectInput {
    pub fn owned(id: Address, version: u64, digest: Digest) -> (r: ObjectInput)
        ensures
            r == ObjectInput::Owned(ObjectRef { id, version, digest }),
    {
        ObjectInput::Owned(ObjectRef { id, version, digest })
    }

    pub fn immutable(id: Address, version: u64, digest: Digest) -> (r: ObjectInput)
        ensures
            r == ObjectInput::Immutable(ObjectRef { id, version, digest }),
    {
        ObjectInput::Immutable(ObjectRef { id, version, digest })
    }

    pub fn receiving(id: Address, version: u64, digest: Digest) -> (r: ObjectInput)
        ensures
            r == ObjectInput::Receiving(ObjectRef { id, version, digest }),
    {
        ObjectInput::Receiving(ObjectRef { id, version, digest })
    }

    pub fn shared(id: Address, version: u64, mutable: bool) -> (r: ObjectInput)
        ensures
            r == (ObjectInput::Shared { id, version, mutable }),
    {
        ObjectInput::Shared { id, version, mutable }
    }

    pub open spec fn from_parts_spec(
        kind: ObjectKind,
        id: Address,
        version: u64,
        digest: Option<Digest>,
        mutable: Option<bool>,
    ) -> ObjectInput {
        match kind {
            ObjectKind::Owned => ObjectInput::Owned(ObjectRef { id, version, digest: digest->0 }),
            ObjectKind::Immutable => ObjectInput::Immutable(ObjectRef { id, version, digest: digest->0 }),
            ObjectKind::Receiving => ObjectInput::Receiving(ObjectRef { id, version, digest: digest->0 }),
            ObjectKind::Shared => ObjectInput::Shared {
                id,
                version,
                mutable: match mutable { Some(m) => m, None => true },
            },
        }
    }

    /// Builds an object input of the given kind from optional metadata: the
    /// digest is required for owned, immutable and receiving objects; a shared
    /// object is mutable unless told otherwise.
    pub fn from_parts(
        kind: ObjectKind,
        id: Address,
        version: u64,
        digest: Option<Digest>,
        mutable: Option<bool>,
    ) -> (r: Result<ObjectInput, crate::error::Error>)
        ensures
            kind != ObjectKind::Shared && digest is None <==> r == Err::<ObjectInput, crate::error::Error>(crate::error::Error::MissingDigest),
            !(kind != ObjectKind::Shared && digest is None) <==> r is Ok,
            r is Ok ==> r->Ok_0 == ObjectInput::from_parts_spec(kind, id, version, digest, mutable),
    {
        match kind {
            ObjectKind::Shared => {
                let m = match mutable {
                    Some(m) => m,
                    None => true,
                };
                Ok(ObjectInput::shared(id, version, m))
            },
            _ => match digest {
                None => Err(crate::error::Error::MissingDigest),
                Some(d) => match kind {
                    ObjectKind::Owned => Ok(ObjectInput::owned(id, version, d)),
                    ObjectKind::Immutable => Ok(ObjectInput::immutable(id, version, d)),
                    _ => Ok(ObjectInput::receiving(id, version, d)),
                },
            },
        }
    }
}

/// A reference to a value available to commands: an identifier, and
/// optionally the sub-result of a multi-output command it selects.
#[derive(Clone, Copy, Debug, PartialEq, Eq, Structural)]
pub struct Argument {
    pub id: usize,
    pub sub_index: Option<usize>,
}

impl Argument {
    pub fn new(id: usize) -> (r: Argument)
        ensures
            r == (Argument { id, sub_index: None }),
    {
        Argument { id, sub_index: None }
    }

    pub open spec fn nested_spec(id: usize, sub_index: usize) -> Argument {
        Argument { id, sub_index: Some(sub_index) }
    }

    pub fn nested(id: usize, sub_index: usize) -> (r: Argument)
        ensures
            r == (Argument { id, sub_index: Some(sub_index) }),
    {
        Argument { id, sub_index: Some(sub_index) }
    }
}

/// An argument after all aliases are collapsed, in positional form.
#[derive(Clone, Copy, Debug, PartialEq, Eq, Structural)]
pub enum FlatArg {
    /// The coin(s) paying for the transaction.
    GasCoin,
    /// The input at this position.
    Input(usize),
    /// The whole result of the command at this position.
    Result(usize),
    /// One sub-result of the command at this position.
    NestedResult(usize, usize),
}

/// What an argument identifier stands for.
#[derive(Clone, Copy, Debug, PartialEq, Eq, Structural)]
pub enum Entry {
    /// The input at this position of the input list.
    Input(usize),
    /// The gas pseudo-argument.
    Gas,
    /// The result of the command at this position of the command list.
    Result(usize),
    /// An alias for another argument.
    Replacement(Argument),
    /// Reserved for an intent that is not yet bound.
    Unresolved,
}

/// A transaction input.
#[derive(Clone, Debug)]
pub enum Input {
    /// A value already in canonical binary form.
    Pure(Vec<u8>),
    Object(ObjectInput),
}

/// A command over operands of type `A` (builder arguments before
/// finalization, positional arguments after).
#[derive(Clone, Debug)]
pub enum Command<A> {
    MoveCall {
        package: Address,
        module: String,
        function: String,
        type_args: Vec<String>,
        arguments: Vec<A>,
    },
    SplitCoins { coin: A, amounts: Vec<A> },
    MergeCoins { coin: A, sources: Vec<A> },
    TransferObjects { objects: Vec<A>, address: A },
    MakeMoveVector { type_tag: Option<String>, elements: Vec<A> },
    Publish { modules: Vec<Vec<u8>>, dependencies: Vec<Address> },
    Upgrade { modules: Vec<Vec<u8>>, dependencies: Vec<Address>, package: Address, ticket: A },
}

/// A value that can only be made concrete by consulting outside state.
#[derive(Clone, Debug)]
pub enum Intent {
    /// A coin of `coin_type` owned by the sender with at least `balance`.
    CoinWithBalance { coin_type: String, balance: u64 },
}

/// Ceilings that finalization and gas additions enforce.
#[derive(Clone, Copy, Debug, PartialEq, Eq, Structural)]
pub struct Limits {
    pub max_gas_objects: usize,
    pub max_commands: usize,
    pub max_inputs: usize,
    pub max_arguments: usize,
}

/// Default ceiling on gas objects, below the protocol's 256.
pub const MAX_GAS_OBJECTS: usize = 250;
/// Default ceiling on commands, below the protocol's 1024.
pub const MAX_COMMANDS: usize = 1000;
/// Default ceiling on inputs, below the protocol's 2048.
pub const MAX_INPUT_OBJECTS: usize = 2000;
/// Default ceiling on argument identifiers, below the protocol's 512.
pub const MAX_ARGUMENTS: usize = 500;

impl Limits {
    pub open spec fn standard_spec() -> Limits {
        Limits {
            max_gas_objects: MAX_GAS_OBJECTS,
            max_commands: MAX_COMMANDS,
            max_inputs: MAX_INPUT_OBJECTS,
            max_arguments: MAX_ARGUMENTS,
        }
    }

    pub fn standard() -> (r: Limits)
        ensures
            r == (Limits {
                max_gas_objects: MAX_GAS_OBJECTS,
                max_commands: MAX_COMMANDS,
                max_inputs: MAX_INPUT_OBJECTS,
                max_arguments: MAX_ARGUMENTS,
            }),
    {
        Limits {
            max_gas_objects: MAX_GAS_OBJECTS,
            max_commands: MAX_COMMANDS,
            max_inputs: MAX_INPUT_OBJECTS,
            max_arguments: MAX_ARGUMENTS,
        }
    }
}

/// The finalized transaction: every operand is positional.
#[derive(Clone, Debug)]
pub struct Transaction {
    pub sender: Address,
    pub gas_objects: Vec<ObjectRef>,
    pub gas_budget: u64,
    pub gas_price: u64,
    pub inputs: Vec<Input>,
    pub commands: Vec<Command<FlatArg>>,
}

} // verus!
