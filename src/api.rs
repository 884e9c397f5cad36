//! The builder's operations over plain values: identifiers as integers,
//! addresses and digests as bytes, failures as typed errors.
use crate::builder::{all_type_tags, built_from, first_unknown, positions_in_range, BuilderView, TransactionBuilder};
use crate::encoding::{bool_bytes, encode_bool, encode_bytes32, encode_uint, le_bytes, valid_identifier};
use crate::error::Error;
use crate::model::{
    Address, Argument, Command, Digest, Entry, FlatArg, Input, Limits, ObjectInput, ObjectKind, ObjectRef, Transaction,
};
use vstd::prelude::*;

verus! {

/// The arguments for plain identifiers, in order.
pub open spec fn args_of(ids: Seq<usize>) -> Seq<Argument> {
    Seq::new(ids.len(), |i: int| Argument { id: ids[i], sub_index: None })
}

fn to_arguments(ids: &Vec<usize>) -> (r: Vec<Argument>)
    ensures
        r@ == args_of(ids@),
{
    let mut out: Vec<Argument> = Vec::new();
    let mut i: usize = 0;
    while i < ids.len()
        invariant
            i <= ids@.len(),
            out@ == args_of(ids@.subrange(0, i as int)),
        decreases ids@.len() - i,
    {
        out.push(Argument::new(ids[i]));
        assert(args_of(ids@.subrange(0, i + 1)) == args_of(ids@.subrange(0, i as int)).push(
            Argument { id: ids@[i as int], sub_index: None },
        ));
        i = i + 1;
    }
    assert(ids@.subrange(0, ids@.len() as int) == ids@);
    out
}

/// `new` is `old` with one more command, and one more identifier, for the
/// command's result, where `result` holds; nothing else changed.
pub open spec fn added_command(old: BuilderView, new: BuilderView, result: bool) -> bool {
    &&& new.wf()
    &&& new.commands.len() == old.commands.len() + 1
    &&& new.commands.drop_last() == old.commands
    &&& new == (BuilderView {
        commands: new.commands,
        ..(if result { old.allocated(Entry::Result(old.commands.len() as usize)) } else { old })
    })
}

proof fn lemma_added_command(old: BuilderView, new: BuilderView, c: Command<Argument>, result: bool)
    requires
        new.wf(),
        new == (if result { old.with_result(c) } else { old.with_command(c) }),
    ensures
        added_command(old, new, result),
        new.commands.last() == c,
{
    assert(new.commands.drop_last() =~= old.commands);
}

/// A fresh builder with the standard ceilings.
pub fn new_builder() -> (r: TransactionBuilder)
    ensures
        r@.wf(),
        r@ == (BuilderView {
            sender: None,
            gas_budget: None,
            gas_price: None,
            gas_objects: Seq::empty(),
            gas_arg: None,
            inputs: Seq::empty(),
            commands: Seq::empty(),
            entries: Seq::empty(),
            intents: Seq::empty(),
            limits: Limits::standard_spec(),
        }),
{
    TransactionBuilder::new()
}

/// Sets the sender, and the gas budget and price where given.
pub fn set_config(builder: &mut TransactionBuilder, sender: Address, gas_budget: Option<u64>, gas_price: Option<u64>)
    requires
        old(builder)@.wf(),
    ensures
        final(builder)@.wf(),
        final(builder)@ == (BuilderView {
            sender: Some(sender),
            gas_budget: if gas_budget is Some { gas_budget } else { old(builder)@.gas_budget },
            gas_price: if gas_price is Some { gas_price } else { old(builder)@.gas_price },
            ..old(builder)@
        }),
{
    builder.set_sender(sender);
    match gas_budget {
        Some(b) => builder.set_gas_budget(b),
        None => {},
    }
    match gas_price {
        Some(p) => builder.set_gas_price(p),
        None => {},
    }
}

/// Adds one owned gas object.
pub fn add_gas_object(builder: &mut TransactionBuilder, id: Address, version: u64, digest: Digest) -> (r: Result<(), Error>)
    requires
        old(builder)@.wf(),
    ensures
        final(builder)@.wf(),
        r is Ok <==> old(builder)@.gas_objects.len() < old(builder)@.limits.max_gas_objects,
        r is Err ==> r == Err::<(), Error>(Error::TooManyGasObjects) && final(builder)@ == old(builder)@,
        r is Ok ==> final(builder)@ == (BuilderView {
            gas_objects: old(builder)@.gas_objects.push(ObjectRef { id, version, digest }),
            ..old(builder)@
        }),
{
    let mut objs: Vec<ObjectRef> = Vec::new();
    objs.push(ObjectRef { id, version, digest });
    assert(seq![ObjectRef { id, version, digest }] == objs@);
    assert(old(builder)@.gas_objects + objs@ == old(builder)@.gas_objects.push(ObjectRef { id, version, digest }));
    builder.add_gas_objects(objs)
}

/// What one call of the gas accessor does: from `v` to `w`, returning `r`.
pub open spec fn gas_call(v: BuilderView, w: BuilderView, r: usize) -> bool {
    &&& w.gas_arg == Some(r)
    &&& v.gas_arg is Some ==> r == v.gas_arg->0 && w == v
    &&& v.gas_arg is None ==> r == v.entries.len() && w.entries == v.entries.push(Entry::Gas)
}

/// The identifier of the gas pseudo-argument, the same on every call.
pub fn gas_argument(builder: &mut TransactionBuilder) -> (r: usize)
    requires
        old(builder)@.wf(),
    ensures
        final(builder)@.wf(),
        final(builder)@.gas_arg == Some(r),
        old(builder)@.gas_arg is Some ==> r == old(builder)@.gas_arg->0 && final(builder)@ == old(builder)@,
        old(builder)@.gas_arg is None ==> r == old(builder)@.entries.len() && final(builder)@ == (BuilderView {
            gas_arg: Some(r),
            ..old(builder)@.allocated(Entry::Gas)
        }),
        gas_call(old(builder)@, final(builder)@, r),
{
    builder.gas().id
}

/// Adds an object input of the given kind; owned, immutable and receiving
/// objects need a digest, and a shared object is mutable unless told otherwise.
pub fn input_object(
    builder: &mut TransactionBuilder,
    kind: ObjectKind,
    id: Address,
    version: u64,
    digest: Option<Digest>,
    mutable: Option<bool>,
) -> (r: Result<usize, Error>)
    requires
        old(builder)@.wf(),
    ensures
        final(builder)@.wf(),
        kind != ObjectKind::Shared && digest is None <==> r == Err::<usize, Error>(Error::MissingDigest),
        !(kind != ObjectKind::Shared && digest is None) <==> r is Ok,
        r is Err ==> final(builder)@ == old(builder)@,
        r is Ok ==> r->Ok_0 == old(builder)@.entries.len() && final(builder)@ == (BuilderView {
            inputs: old(builder)@.inputs.push(Input::Object(ObjectInput::from_parts_spec(kind, id, version, digest, mutable))),
            ..old(builder)@.allocated(Entry::Input(old(builder)@.inputs.len() as usize))
        }),
{
    match ObjectInput::from_parts(kind, id, version, digest, mutable) {
        Err(e) => Err(e),
        Ok(obj) => Ok(builder.object(obj).id),
    }
}

/// Adds a pure input from bytes already in canonical form.
pub fn pure_raw_bcs(builder: &mut TransactionBuilder, bytes: Vec<u8>) -> (r: usize)
    requires
        old(builder)@.wf(),
    ensures
        final(builder)@.wf(),
        r == old(builder)@.entries.len(),
        final(builder)@ == (BuilderView {
            inputs: old(builder)@.inputs.push(Input::Pure(bytes)),
            ..old(builder)@.allocated(Entry::Input(old(builder)@.inputs.len() as usize))
        }),
{
    builder.pure_bytes(bytes).id
}

/// Whether the builder gained exactly one pure input holding `bytes`, under
/// identifier `r`.
pub open spec fn added_pure(old: BuilderView, new: BuilderView, r: usize, bytes: Seq<u8>) -> bool {
    &&& new.wf()
    &&& r == old.entries.len()
    &&& new == (BuilderView { inputs: new.inputs, ..old.allocated(Entry::Input(old.inputs.len() as usize)) })
    &&& new.inputs.len() == old.inputs.len() + 1
    &&& new.inputs.drop_last() == old.inputs
    &&& new.inputs.last() matches Input::Pure(b) && b@ == bytes
}

proof fn lemma_added_pure(v: BuilderView, w: BuilderView, r: usize, bytes: Vec<u8>)
    requires
        w.wf(),
        r == v.entries.len(),
        w == (BuilderView {
            inputs: v.inputs.push(Input::Pure(bytes)),
            ..v.allocated(Entry::Input(v.inputs.len() as usize))
        }),
    ensures
        added_pure(v, w, r, bytes@),
{
    assert(w.inputs.drop_last() =~= v.inputs);
}

/// Adds a pure boolean: any nonzero byte is true.
pub fn pure_bool(builder: &mut TransactionBuilder, value: u8) -> (r: usize)
    requires
        old(builder)@.wf(),
    ensures
        added_pure(old(builder)@, final(builder)@, r, bool_bytes(value != 0)),
{
    let bytes = encode_bool(value != 0);
    let ghost b = bytes;
    let r = pure_raw_bcs(builder, bytes);
    proof {
        lemma_added_pure(old(builder)@, builder@, r, b);
    }
    r
}

/// Adds a pure `u8`.
pub fn pure_u8(builder: &mut TransactionBuilder, value: u8) -> (r: usize)
    requires
        old(builder)@.wf(),
    ensures
        added_pure(old(builder)@, final(builder)@, r, le_bytes(value as nat, 1)),
{
    let bytes = encode_uint(value as u128, 1);
    let ghost b = bytes;
    let r = pure_raw_bcs(builder, bytes);
    proof {
        lemma_added_pure(old(builder)@, builder@, r, b);
    }
    r
}

/// Adds a pure `u16`.
pub fn pure_u16(builder: &mut TransactionBuilder, value: u16) -> (r: usize)
    requires
        old(builder)@.wf(),
    ensures
        added_pure(old(builder)@, final(builder)@, r, le_bytes(value as nat, 2)),
{
    let bytes = encode_uint(value as u128, 2);
    let ghost b = bytes;
    let r = pure_raw_bcs(builder, bytes);
    proof {
        lemma_added_pure(old(builder)@, builder@, r, b);
    }
    r
}

/// Adds a pure `u32`.
pub fn pure_u32(builder: &mut TransactionBuilder, value: u32) -> (r: usize)
    requires
        old(builder)@.wf(),
    ensures
        added_pure(old(builder)@, final(builder)@, r, le_bytes(value as nat, 4)),
{
    let bytes = encode_uint(value as u128, 4);
    let ghost b = bytes;
    let r = pure_raw_bcs(builder, bytes);
    proof {
        lemma_added_pure(old(builder)@, builder@, r, b);
    }
    r
}

/// Adds a pure `u64`.
pub fn pure_u64(builder: &mut TransactionBuilder, value: u64) -> (r: usize)
    requires
        old(builder)@.wf(),
    ensures
        added_pure(old(builder)@, final(builder)@, r, le_bytes(value as nat, 8)),
{
    let bytes = encode_uint(value as u128, 8);
    let ghost b = bytes;
    let r = pure_raw_bcs(builder, bytes);
    proof {
        lemma_added_pure(old(builder)@, builder@, r, b);
    }
    r
}

/// Adds a pure `u128` given as its low and high 64-bit halves.
pub fn pure_u128(builder: &mut TransactionBuilder, lo: u64, hi: u64) -> (r: usize)
    requires
        old(builder)@.wf(),
    ensures
        added_pure(old(builder)@, final(builder)@, r, le_bytes(hi as nat * 0x1_0000_0000_0000_0000 + lo as nat, 16)),
{
    assert((hi as nat) * 0x1_0000_0000_0000_0000 + lo as nat <= u128::MAX) by (nonlinear_arith)
        requires
            hi <= u64::MAX,
            lo <= u64::MAX,
    ;
    let value: u128 = (hi as u128) * 0x1_0000_0000_0000_0000 + (lo as u128);
    let bytes = encode_uint(value, 16);
    let ghost b = bytes;
    let r = pure_raw_bcs(builder, bytes);
    proof {
        lemma_added_pure(old(builder)@, builder@, r, b);
    }
    r
}

/// Adds a pure address: its 32 bytes.
pub fn pure_address(builder: &mut TransactionBuilder, address: Address) -> (r: usize)
    requires
        old(builder)@.wf(),
    ensures
        added_pure(old(builder)@, final(builder)@, r, address.bytes@),
{
    let bytes = encode_bytes32(&address.bytes);
    let ghost b = bytes;
    let r = pure_raw_bcs(builder, bytes);
    proof {
        lemma_added_pure(old(builder)@, builder@, r, b);
    }
    r
}

/// Allocates an identifier for sub-result `sub_index` of the multi-output
/// result `base_id`.
pub fn nested_result(builder: &mut TransactionBuilder, base_id: usize, sub_index: usize) -> (r: Result<usize, Error>)
    requires
        old(builder)@.wf(),
    ensures
        final(builder)@.wf(),
        base_id >= old(builder)@.entries.len() <==> r == Err::<usize, Error>(Error::UnknownArgument(base_id)),
        base_id < old(builder)@.entries.len() <==> r is Ok,
        r is Err ==> final(builder)@ == old(builder)@,
        r is Ok ==> r->Ok_0 == old(builder)@.entries.len() && final(builder)@ == old(builder)@.allocated(
            Entry::Replacement(Argument { id: base_id, sub_index: Some(sub_index) }),
        ),
{
    match builder.nested_result(base_id, sub_index) {
        Err(e) => Err(e),
        Ok(a) => Ok(a.id),
    }
}

/// Splits `coin` into one coin per amount; the result is the base identifier
/// of the new coins.
pub fn command_split_coins(builder: &mut TransactionBuilder, coin: usize, amounts: &Vec<usize>) -> (r: Result<usize, Error>)
    requires
        old(builder)@.wf(),
    ensures
        final(builder)@.wf(),
        r is Err ==> final(builder)@ == old(builder)@,
        amounts@.len() == 0 ==> r == Err::<usize, Error>(Error::EmptyOperands),
        amounts@.len() > 0 ==> match first_unknown(old(builder)@.entries.len(), args_of(seq![coin] + amounts@)) {
            Some(e) => r == Err::<usize, Error>(e),
            None => r is Ok && r->Ok_0 == old(builder)@.entries.len()
                && added_command(old(builder)@, final(builder)@, true)
                && (final(builder)@.commands.last() matches Command::SplitCoins { coin: c, amounts: a }
                && c == Argument { id: coin, sub_index: None } && a@ == args_of(amounts@)),
        },
{
    let args = to_arguments(amounts);
    proof {
        assert(args_of(seq![coin] + amounts@) == seq![Argument { id: coin, sub_index: None }] + args@);
    }
    let ghost args_v = args;
    let r = builder.split_coins(Argument::new(coin), args);
    proof {
        if r is Ok {
            lemma_added_command(old(builder)@, builder@, Command::SplitCoins { coin: Argument { id: coin, sub_index: None }, amounts: args_v }, true);
        }
    }
    match r {
        Err(e) => Err(e),
        Ok(a) => Ok(a.id),
    }
}

/// Merges `sources` into `target`.
pub fn command_merge_coins(builder: &mut TransactionBuilder, target: usize, sources: &Vec<usize>) -> (r: Result<(), Error>)
    requires
        old(builder)@.wf(),
    ensures
        final(builder)@.wf(),
        r is Err ==> final(builder)@ == old(builder)@,
        sources@.len() == 0 ==> r == Err::<(), Error>(Error::EmptyOperands),
        sources@.len() > 0 ==> match first_unknown(old(builder)@.entries.len(), args_of(seq![target] + sources@)) {
            Some(e) => r == Err::<(), Error>(e),
            None => r is Ok && added_command(old(builder)@, final(builder)@, false)
                && (final(builder)@.commands.last() matches Command::MergeCoins { coin: c, sources: s }
                && c == Argument { id: target, sub_index: None } && s@ == args_of(sources@)),
        },
{
    let args = to_arguments(sources);
    proof {
        assert(args_of(seq![target] + sources@) == seq![Argument { id: target, sub_index: None }] + args@);
    }
    let ghost args_v = args;
    let r = builder.merge_coins(Argument::new(target), args);
    proof {
        if r is Ok {
            lemma_added_command(old(builder)@, builder@, Command::MergeCoins { coin: Argument { id: target, sub_index: None }, sources: args_v }, false);
        }
    }
    r
}

/// Sends `objects` to the address held by `recipient`.
pub fn command_transfer_objects(builder: &mut TransactionBuilder, objects: &Vec<usize>, recipient: usize) -> (r: Result<(), Error>)
    requires
        old(builder)@.wf(),
    ensures
        final(builder)@.wf(),
        r is Err ==> final(builder)@ == old(builder)@,
        objects@.len() == 0 ==> r == Err::<(), Error>(Error::EmptyOperands),
        objects@.len() > 0 ==> match first_unknown(old(builder)@.entries.len(), args_of(seq![recipient] + objects@)) {
            Some(e) => r == Err::<(), Error>(e),
            None => r is Ok && added_command(old(builder)@, final(builder)@, false)
                && (final(builder)@.commands.last() matches Command::TransferObjects { objects: o, address: a }
                && a == Argument { id: recipient, sub_index: None } && o@ == args_of(objects@)),
        },
{
    let args = to_arguments(objects);
    proof {
        assert(args_of(seq![recipient] + objects@) == seq![Argument { id: recipient, sub_index: None }] + args@);
    }
    let ghost args_v = args;
    let r = builder.transfer_objects(args, Argument::new(recipient));
    proof {
        if r is Ok {
            lemma_added_command(old(builder)@, builder@, Command::TransferObjects { objects: args_v, address: Argument { id: recipient, sub_index: None } }, false);
        }
    }
    r
}

/// Builds a Move vector from `elements`, of element type `type_tag` where given.
pub fn command_make_move_vec(
    builder: &mut TransactionBuilder,
    type_tag: Option<String>,
    elements: &Vec<usize>,
) -> (r: Result<usize, Error>)
    requires
        old(builder)@.wf(),
    ensures
        final(builder)@.wf(),
        r is Err ==> final(builder)@ == old(builder)@,
        elements@.len() == 0 <==> r == Err::<usize, Error>(Error::EmptyOperands),
        elements@.len() > 0 && type_tag is Some
            && !crate::encoding::type_tag_parses(type_tag->0@) ==> r == Err::<usize, Error>(Error::InvalidTypeTag),
        elements@.len() > 0 && (type_tag is Some ==> crate::encoding::type_tag_parses(type_tag->0@))
            ==> match first_unknown(old(builder)@.entries.len(), args_of(elements@)) {
            Some(e) => r == Err::<usize, Error>(e),
            None => r is Ok && r->Ok_0 == old(builder)@.entries.len()
                && added_command(old(builder)@, final(builder)@, true)
                && (final(builder)@.commands.last() matches Command::MakeMoveVector { type_tag: t, elements: e }
                && t == type_tag && e@ == args_of(elements@)),
        },
{
    let args = to_arguments(elements);
    let ghost args_v = args;
    let ghost tag_v = type_tag;
    let r = builder.make_move_vec(type_tag, args);
    proof {
        if r is Ok {
            lemma_added_command(old(builder)@, builder@, Command::MakeMoveVector { type_tag: tag_v, elements: args_v }, true);
        }
    }
    match r {
        Err(e) => Err(e),
        Ok(a) => Ok(a.id),
    }
}

/// Publishes modules; the result is the upgrade capability.
pub fn command_publish(builder: &mut TransactionBuilder, modules: Vec<Vec<u8>>, dependencies: Vec<Address>) -> (r: Result<usize, Error>)
    requires
        old(builder)@.wf(),
    ensures
        final(builder)@.wf(),
        r is Err ==> final(builder)@ == old(builder)@,
        modules@.len() == 0 <==> r == Err::<usize, Error>(Error::EmptyOperands),
        modules@.len() > 0 ==> r is Ok && r->Ok_0 == old(builder)@.entries.len()
            && final(builder)@ == old(builder)@.with_result(Command::Publish { modules, dependencies }),
{
    match builder.publish(modules, dependencies) {
        Err(e) => Err(e),
        Ok(a) => Ok(a.id),
    }
}

/// Upgrades `package` under the ticket `ticket`; the result is the receipt.
pub fn command_upgrade(
    builder: &mut TransactionBuilder,
    modules: Vec<Vec<u8>>,
    dependencies: Vec<Address>,
    package: Address,
    ticket: usize,
) -> (r: Result<usize, Error>)
    requires
        old(builder)@.wf(),
    ensures
        final(builder)@.wf(),
        r is Err ==> final(builder)@ == old(builder)@,
        modules@.len() == 0 ==> r == Err::<usize, Error>(Error::EmptyOperands),
        modules@.len() > 0 && ticket >= old(builder)@.entries.len() ==> r == Err::<usize, Error>(Error::UnknownArgument(ticket)),
        modules@.len() > 0 && ticket < old(builder)@.entries.len() ==> r is Ok && r->Ok_0 == old(builder)@.entries.len()
            && final(builder)@ == old(builder)@.with_result(
                Command::Upgrade { modules, dependencies, package, ticket: Argument { id: ticket, sub_index: None } },
            ),
{
    match builder.upgrade(modules, dependencies, package, Argument::new(ticket)) {
        Err(e) => Err(e),
        Ok(a) => Ok(a.id),
    }
}

/// Finalizes the builder; see `TransactionBuilder::try_build`. Every
/// positional argument of the result points inside it.
pub fn build_transaction(builder: TransactionBuilder) -> (r: Result<Transaction, Error>)
    requires
        builder@.wf(),
    ensures
        match builder@.build_error() {
            Some(e) => r == Err::<Transaction, Error>(e),
            None => r is Ok && built_from(builder@, r->Ok_0) && positions_in_range(r->Ok_0),
        },
{
    builder.try_build()
}

/// An operand of a Move call: an existing identifier, or raw canonical bytes
/// to add as a pure input.
#[derive(Clone, Debug)]
pub enum CallArg {
    Id(usize),
    PureBcs(Vec<u8>),
}

/// The first `Id` operand that names no allocated identifier, as an error.
pub open spec fn first_unknown_call(n: nat, s: Seq<CallArg>) -> Option<Error>
    decreases s.len(),
{
    if s.len() == 0 {
        None
    } else {
        match s[0] {
            CallArg::Id(x) => if x >= n {
                Some(Error::UnknownArgument(x))
            } else {
                first_unknown_call(n, s.drop_first())
            },
            _ => first_unknown_call(n, s.drop_first()),
        }
    }
}

/// The bytes of the pure operands, in operand order.
pub open spec fn pure_operands(s: Seq<CallArg>) -> Seq<Seq<u8>>
    decreases s.len(),
{
    if s.len() == 0 {
        Seq::empty()
    } else {
        pure_operands(s.drop_last()) + match s.last() {
            CallArg::PureBcs(b) => seq![b@],
            CallArg::Id(_) => Seq::empty(),
        }
    }
}

/// `new` is `old` with the pure operands `p` added, in order, as inputs under
/// consecutive identifiers; nothing else changed.
pub open spec fn pures_added(old: BuilderView, new: BuilderView, p: Seq<Seq<u8>>) -> bool {
    &&& new == (BuilderView { entries: new.entries, inputs: new.inputs, ..old })
    &&& new.entries.len() == old.entries.len() + p.len()
    &&& new.entries.subrange(0, old.entries.len() as int) == old.entries
    &&& new.inputs.len() == old.inputs.len() + p.len()
    &&& new.inputs.subrange(0, old.inputs.len() as int) == old.inputs
    &&& forall|j: int| 0 <= j < p.len() ==> (#[trigger] new.inputs[old.inputs.len() + j] matches Input::Pure(b) && b@ == p[j])
    &&& forall|j: int| 0 <= j < p.len() ==> (#[trigger] new.entries[old.entries.len() + j] matches Entry::Input(k)
        && k == old.inputs.len() + j)
}

/// `a` is what the operand `c` became in the builder `v`.
pub open spec fn call_arg_placed(v: BuilderView, c: CallArg, a: Argument) -> bool {
    &&& a.sub_index is None
    &&& match c {
        CallArg::Id(x) => a.id == x,
        CallArg::PureBcs(b) => a.id < v.entries.len() && (v.entries[a.id as int] matches Entry::Input(k)
            && k < v.inputs.len() && (v.inputs[k as int] matches Input::Pure(p) && p@ == b@)),
    }
}

proof fn lemma_known_args(n: nat, s: Seq<Argument>)
    requires
        forall|j: int| 0 <= j < s.len() ==> (#[trigger] s[j]).id < n,
    ensures
        first_unknown(n, s) is None,
    decreases s.len(),
{
    if s.len() > 0 {
        assert(s[0].id < n);
        let t = s.drop_first();
        assert forall|j: int| 0 <= j < t.len() implies (#[trigger] t[j]).id < n by {
            assert(t[j] == s[j + 1]);
        }
        lemma_known_args(n, t);
    }
}

fn check_call_args(n: usize, args: &Vec<CallArg>) -> (r: Result<(), Error>)
    ensures
        r is Ok <==> first_unknown_call(n as nat, args@) is None,
        r is Err ==> r == Err::<(), Error>(first_unknown_call(n as nat, args@)->0),
{
    let mut i: usize = 0;
    assert(args@.subrange(0, args@.len() as int) == args@);
    while i < args.len()
        invariant
            i <= args@.len(),
            first_unknown_call(n as nat, args@) == first_unknown_call(n as nat, args@.subrange(i as int, args@.len() as int)),
        decreases args@.len() - i,
    {
        let ghost rest = args@.subrange(i as int, args@.len() as int);
        assert(rest.drop_first() == args@.subrange(i + 1, args@.len() as int));
        match &args[i] {
            CallArg::Id(x) => {
                if *x >= n {
                    return Err(Error::UnknownArgument(*x));
                }
            },
            CallArg::PureBcs(_) => {},
        }
        i = i + 1;
    }
    Ok(())
}

/// Calls `module::function` of `package`; pure operands are added as inputs,
/// in order, before the call. Names, type tags and identifiers are all
/// checked first, so a failed call leaves the builder as it was.
pub fn command_move_call(
    builder: &mut TransactionBuilder,
    package: Address,
    module: String,
    function: String,
    type_args: Vec<String>,
    arguments: Vec<CallArg>,
) -> (r: Result<usize, Error>)
    requires
        old(builder)@.wf(),
    ensures
        final(builder)@.wf(),
        r is Err ==> final(builder)@ == old(builder)@,
        !valid_identifier(module@) ==> r == Err::<usize, Error>(Error::InvalidModuleName),
        valid_identifier(module@) && !valid_identifier(function@) ==> r == Err::<usize, Error>(Error::InvalidFunctionName),
        valid_identifier(module@) && valid_identifier(function@) && !all_type_tags(type_args@)
            ==> r == Err::<usize, Error>(Error::InvalidTypeTag),
        valid_identifier(module@) && valid_identifier(function@) && all_type_tags(type_args@) ==>
            match first_unknown_call(old(builder)@.entries.len(), arguments@) {
                Some(e) => r == Err::<usize, Error>(e),
                None => r is Ok && r->Ok_0 == old(builder)@.entries.len() + pure_operands(arguments@).len()
                    && r->Ok_0 + 1 == final(builder)@.entries.len()
                    && pures_added(
                        old(builder)@,
                        (BuilderView { entries: final(builder)@.entries.drop_last(), commands: old(builder)@.commands, ..final(builder)@ }),
                        pure_operands(arguments@),
                    )
                    && final(builder)@.commands.len() == old(builder)@.commands.len() + 1
                    && final(builder)@.commands.drop_last() == old(builder)@.commands
                    && final(builder)@.entries.last() == Entry::Result(old(builder)@.commands.len() as usize)
                    && (final(builder)@.commands.last() matches Command::MoveCall {
                        package: p, module: m, function: f, type_args: t, arguments: a }
                    && p == package && m == module && f == function && t == type_args
                    && a@.len() == arguments@.len()
                    && forall|i: int| 0 <= i < a@.len() ==> call_arg_placed(final(builder)@, arguments@[i], #[trigger] a@[i])),
            },
{
    if !crate::encoding::is_identifier(module.as_str()) {
        return Err(Error::InvalidModuleName);
    }
    if !crate::encoding::is_identifier(function.as_str()) {
        return Err(Error::InvalidFunctionName);
    }
    if !TransactionBuilder::check_type_tags(&type_args) {
        return Err(Error::InvalidTypeTag);
    }
    let n = builder.num_arguments();
    check_call_args(n, &arguments)?;
    let ghost orig = arguments@;
    let mut rest = arguments;
    let mut args: Vec<Argument> = Vec::new();
    assert(orig.subrange(0, orig.len() as int) == orig);
    proof {
        let o = builder@;
        assert(orig.subrange(0, 0).len() == 0);
        assert(pure_operands(orig.subrange(0, 0)) == Seq::<Seq<u8>>::empty());
        assert(o.entries.subrange(0, o.entries.len() as int) =~= o.entries);
        assert(o.inputs.subrange(0, o.inputs.len() as int) =~= o.inputs);
    }
    while rest.len() > 0
        invariant
            builder@.wf(),
            n == old(builder)@.entries.len(),
            n <= builder@.entries.len(),
            builder@.commands == old(builder)@.commands,
            builder@.intents == old(builder)@.intents,
            builder@.limits == old(builder)@.limits,
            pures_added(old(builder)@, builder@, pure_operands(orig.subrange(0, args@.len() as int))),
            first_unknown_call(n as nat, orig) is None,
            args@.len() <= orig.len(),
            rest@ == orig.subrange(args@.len() as int, orig.len() as int),
            forall|j: int| 0 <= j < args@.len() ==> call_arg_placed(builder@, orig[j], #[trigger] args@[j]),
            forall|j: int| 0 <= j < args@.len() ==> (#[trigger] args@[j]).id < builder@.entries.len(),
            first_unknown_call(n as nat, rest@) is None,
        decreases rest@.len(),
    {
        let ghost before = rest@;
        let ghost v = builder@;
        let c = rest.remove(0);
        assert(before.drop_first() == rest@);
        assert(orig.subrange(args@.len() as int + 1, orig.len() as int) == rest@);
        let ghost cg = c;
        assert(orig[args@.len() as int] == cg);
        let ghost i = args@.len() as int;
        assert(orig.subrange(0, i + 1).drop_last() == orig.subrange(0, i));
        assert(orig.subrange(0, i + 1).last() == cg);
        let a = match c {
            CallArg::Id(x) => Argument::new(x),
            CallArg::PureBcs(b) => {
                let k = builder.num_inputs();
                let a = builder.pure_bytes(b);
                proof {
                    let w = builder@;
                    assert(w.entries[a.id as int] == Entry::Input(k));
                    assert(w.inputs[k as int] == Input::Pure(b));
                }
                a
            },
        };
        proof {
            let w = builder@;
            assert forall|j: int| 0 <= j < args@.len() implies call_arg_placed(w, orig[j], #[trigger] args@[j]) by {
                assert(call_arg_placed(v, orig[j], args@[j]));
                if orig[j] is PureBcs {
                    let id = args@[j].id as int;
                    assert(w.entries[id] == v.entries[id]);
                    let k = v.entries[id]->Input_0 as int;
                    assert(w.inputs[k] == v.inputs[k]);
                }
            }
            assert(call_arg_placed(w, cg, a));
            let o = old(builder)@;
            let p0 = pure_operands(orig.subrange(0, i));
            let p1 = pure_operands(orig.subrange(0, i + 1));
            if let CallArg::PureBcs(b) = cg {
                assert(p1 == p0 + seq![b@]);
                assert(w.entries.subrange(0, o.entries.len() as int) =~= v.entries.subrange(0, o.entries.len() as int));
                assert(w.inputs.subrange(0, o.inputs.len() as int) =~= v.inputs.subrange(0, o.inputs.len() as int));
                assert forall|j: int| 0 <= j < p1.len() implies (#[trigger] w.inputs[o.inputs.len() + j] matches Input::Pure(bb)
                    && bb@ == p1[j]) by {
                    if j < p0.len() {
                        assert(w.inputs[o.inputs.len() + j] == v.inputs[o.inputs.len() + j]);
                    }
                }
                assert forall|j: int| 0 <= j < p1.len() implies (#[trigger] w.entries[o.entries.len() + j] matches Entry::Input(k)
                    && k == o.inputs.len() + j) by {
                    if j < p0.len() {
                        assert(w.entries[o.entries.len() + j] == v.entries[o.entries.len() + j]);
                    }
                }
            } else {
                assert(p1 =~= p0);
            }
        }
        args.push(a);
    }
    proof {
        lemma_known_args(builder@.entries.len(), args@);
        assert(args@.len() == orig.len());
    }
    let ghost mid = builder@;
    let id = builder.move_call(package, module, function, type_args, args);
    proof {
        let w = builder@;
        assert(w.entries.drop_last() =~= mid.entries);
        assert(w.commands.drop_last() =~= mid.commands);
        assert((BuilderView { entries: w.entries.drop_last(), commands: old(builder)@.commands, ..w }) == mid);
    }
    match id {
        Ok(a) => Ok(a.id),
        Err(e) => Err(e),
    }
}

} // verus!
