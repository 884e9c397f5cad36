use crate::encoding::{is_identifier, is_type_tag, type_tag_parses, valid_identifier};
use crate::error::Error;
use crate::model::{
    Address, Argument, Command, Entry, FlatArg, Input, Intent, Limits, ObjectInput, ObjectRef,
    Transaction,
};
use vstd::prelude::*;

verus! {

/// Follows aliases from `a` with at most `fuel` steps, down to an input, the
/// gas coin or a command result.
pub open spec fn resolve_spec(entries: Seq<Entry>, a: Argument, fuel: nat) -> Result<FlatArg, Error>
    decreases fuel,
{
    if a.id >= entries.len() {
        Err(Error::UnknownArgument(a.id))
    } else if fuel == 0 {
        Err(Error::CyclicReference(a.id))
    } else {
        match entries[a.id as int] {
            Entry::Input(i) => if a.sub_index is Some {
                Err(Error::InvalidSubIndex(a.id))
            } else {
                Ok(FlatArg::Input(i))
            },
            Entry::Gas => if a.sub_index is Some {
                Err(Error::InvalidSubIndex(a.id))
            } else {
                Ok(FlatArg::GasCoin)
            },
            Entry::Result(c) => match a.sub_index {
                None => Ok(FlatArg::Result(c)),
                Some(k) => Ok(FlatArg::NestedResult(c, k)),
            },
            Entry::Replacement(t) => match a.sub_index {
                None => resolve_spec(entries, t, (fuel - 1) as nat),
                Some(k) => if t.sub_index is Some {
                    Err(Error::InvalidSubIndex(a.id))
                } else {
                    resolve_spec(entries, Argument { id: t.id, sub_index: Some(k) }, (fuel - 1) as nat)
                },
            },
            Entry::Unresolved => Err(Error::UnresolvedArgument(a.id)),
        }
    }
}

/// The terminal value of `a`. A chain of aliases over distinct identifiers
/// never needs more steps than there are identifiers, so running out of
/// steps means the chain revisits one.
pub open spec fn resolved(entries: Seq<Entry>, a: Argument) -> Result<FlatArg, Error> {
    resolve_spec(entries, a, entries.len())
}

/// Resolves each argument in order; the first failure is the result.
pub open spec fn args_result(entries: Seq<Entry>, s: Seq<Argument>) -> Result<Seq<FlatArg>, Error>
    decreases s.len(),
{
    if s.len() == 0 {
        Ok(Seq::empty())
    } else {
        match resolved(entries, s[0]) {
            Err(e) => Err(e),
            Ok(f) => match args_result(entries, s.drop_first()) {
                Err(e) => Err(e),
                Ok(t) => Ok(seq![f] + t),
            },
        }
    }
}

/// The operands of a command, in the order they are resolved.
pub open spec fn operands<A>(c: Command<A>) -> Seq<A> {
    match c {
        Command::MoveCall { arguments, .. } => arguments@,
        Command::SplitCoins { coin, amounts } => seq![coin] + amounts@,
        Command::MergeCoins { coin, sources } => seq![coin] + sources@,
        Command::TransferObjects { objects, address } => seq![address] + objects@,
        Command::MakeMoveVector { elements, .. } => elements@,
        Command::Publish { .. } => Seq::empty(),
        Command::Upgrade { ticket, .. } => seq![ticket],
    }
}

/// `d` is `c` with every operand replaced by its terminal value.
pub open spec fn command_resolves(entries: Seq<Entry>, c: Command<Argument>, d: Command<FlatArg>) -> bool {
    &&& args_result(entries, operands(c)) == Ok::<Seq<FlatArg>, Error>(operands(d))
    &&& match (c, d) {
        (
            Command::MoveCall { package: p, module: m, function: f, type_args: t, .. },
            Command::MoveCall { package: dp, module: dm, function: df, type_args: dt, .. },
        ) => p == dp && m@ == dm@ && f@ == df@ && t@ == dt@,
        (Command::SplitCoins { .. }, Command::SplitCoins { .. }) => true,
        (Command::MergeCoins { .. }, Command::MergeCoins { .. }) => true,
        (Command::TransferObjects { .. }, Command::TransferObjects { .. }) => true,
        (Command::MakeMoveVector { type_tag: t, .. }, Command::MakeMoveVector { type_tag: dt, .. }) => t == dt,
        (Command::Publish { modules: m, dependencies: ds }, Command::Publish { modules: dm, dependencies: dds }) =>
            m@ == dm@ && ds@ == dds@,
        (
            Command::Upgrade { modules: m, dependencies: ds, package: p, .. },
            Command::Upgrade { modules: dm, dependencies: dds, package: dp, .. },
        ) => m@ == dm@ && ds@ == dds@ && p == dp,
        _ => false,
    }
}

/// The first resolution failure over a list of commands, if any.
pub open spec fn commands_error(entries: Seq<Entry>, cmds: Seq<Command<Argument>>) -> Option<Error>
    decreases cmds.len(),
{
    if cmds.len() == 0 {
        None
    } else {
        match args_result(entries, operands(cmds[0])) {
            Err(e) => Some(e),
            Ok(_) => commands_error(entries, cmds.drop_first()),
        }
    }
}

/// A positional argument points inside a transaction with `n_inputs` inputs
/// and `n_commands` commands.
pub open spec fn flat_in_range(f: FlatArg, n_inputs: nat, n_commands: nat) -> bool {
    match f {
        FlatArg::GasCoin => true,
        FlatArg::Input(i) => i < n_inputs,
        FlatArg::Result(c) => c < n_commands,
        FlatArg::NestedResult(c, _) => c < n_commands,
    }
}

/// Every operand of every command of `tx` points inside `tx`.
pub open spec fn positions_in_range(tx: Transaction) -> bool {
    forall|i: int, j: int| 0 <= i < tx.commands@.len() && 0 <= j < operands(tx.commands@[i]).len()
        ==> flat_in_range(#[trigger] operands(tx.commands@[i])[j], tx.inputs@.len(), tx.commands@.len())
}

/// `tx` is the builder state `v` finalized: the same sender, gas data and
/// inputs, and each command with its operands resolved.
pub open spec fn built_from(v: BuilderView, tx: Transaction) -> bool {
    &&& tx.sender == v.sender->0
    &&& tx.gas_budget == v.gas_budget->0
    &&& tx.gas_price == v.gas_price->0
    &&& tx.gas_objects@ == v.gas_objects
    &&& tx.inputs@ == v.inputs
    &&& tx.commands@.len() == v.commands.len()
    &&& forall|i: int| 0 <= i < tx.commands@.len()
        ==> command_resolves(v.entries, v.commands[i], #[trigger] tx.commands@[i])
}

/// The abstract state of a builder.
pub struct BuilderView {
    pub sender: Option<Address>,
    pub gas_budget: Option<u64>,
    pub gas_price: Option<u64>,
    pub gas_objects: Seq<ObjectRef>,
    pub gas_arg: Option<usize>,
    pub inputs: Seq<Input>,
    pub commands: Seq<Command<Argument>>,
    pub entries: Seq<Entry>,
    pub intents: Seq<(usize, Intent)>,
    pub limits: Limits,
}

impl BuilderView {
    /// Every entry points inside the builder's own tables, the gas argument
    /// and every pending intent have their own kind of entry, and the gas list
    /// is within its ceiling.
    pub open spec fn wf(self) -> bool {
        &&& forall|i: int| 0 <= i < self.entries.len() ==> match #[trigger] self.entries[i] {
            Entry::Input(k) => k < self.inputs.len(),
            Entry::Result(c) => c < self.commands.len(),
            Entry::Replacement(t) => t.id < self.entries.len(),
            _ => true,
        }
        &&& self.gas_arg is Some ==> self.gas_arg->0 < self.entries.len()
            && self.entries[self.gas_arg->0 as int] == Entry::Gas
        &&& forall|k: int| 0 <= k < self.intents.len() ==> (#[trigger] self.intents[k]).0 < self.entries.len()
            && self.entries[self.intents[k].0 as int] == Entry::Unresolved
        &&& forall|k: int, j: int| 0 <= k < self.intents.len() && 0 <= j < self.intents.len() && k != j
            ==> (#[trigger] self.intents[k]).0 != (#[trigger] self.intents[j]).0
        &&& self.gas_objects.len() <= self.limits.max_gas_objects
    }

    /// The first failure that finalization reports, if any.
    pub open spec fn build_error(self) -> Option<Error> {
        if self.intents.len() > 0 {
            Some(Error::UnresolvedIntentsOffline)
        } else if self.gas_objects.len() > self.limits.max_gas_objects {
            Some(Error::TooManyGasObjects)
        } else if self.inputs.len() > self.limits.max_inputs {
            Some(Error::TooManyInputs)
        } else if self.commands.len() > self.limits.max_commands {
            Some(Error::TooManyCommands)
        } else if self.entries.len() > self.limits.max_arguments {
            Some(Error::TooManyArguments)
        } else if commands_error(self.entries, self.commands) is Some {
            commands_error(self.entries, self.commands)
        } else if self.sender is None {
            Some(Error::MissingSender)
        } else if self.gas_budget is None {
            Some(Error::MissingGasBudget)
        } else if self.gas_price is None {
            Some(Error::MissingGasPrice)
        } else if self.gas_objects.len() == 0 {
            Some(Error::MissingGasObjects)
        } else {
            None
        }
    }

    /// The view after recording command `c` and allocating an identifier for its result.
    pub open spec fn with_result(self, c: Command<Argument>) -> BuilderView {
        BuilderView {
            commands: self.commands.push(c),
            entries: self.entries.push(Entry::Result(self.commands.len() as usize)),
            ..self
        }
    }

    /// The view after recording command `c`, which has no result.
    pub open spec fn with_command(self, c: Command<Argument>) -> BuilderView {
        BuilderView { commands: self.commands.push(c), ..self }
    }

    /// The view after allocating one identifier for `e`.
    pub open spec fn allocated(self, e: Entry) -> BuilderView {
        BuilderView { entries: self.entries.push(e), ..self }
    }
}

/// Whether every string parses as a type tag.
pub open spec fn all_type_tags(s: Seq<String>) -> bool {
    forall|i: int| 0 <= i < s.len() ==> type_tag_parses((#[trigger] s[i])@)
}

/// The first argument that names no allocated identifier, as an error.
pub open spec fn first_unknown(n: nat, s: Seq<Argument>) -> Option<Error>
    decreases s.len(),
{
    if s.len() == 0 {
        None
    } else if s[0].id >= n {
        Some(Error::UnknownArgument(s[0].id))
    } else {
        first_unknown(n, s.drop_first())
    }
}

/// A builder of one transaction. Every operation that makes a value
/// available to commands allocates the next identifier.
pub struct TransactionBuilder {
    sender: Option<Address>,
    gas_budget: Option<u64>,
    gas_price: Option<u64>,
    gas_objects: Vec<ObjectRef>,
    gas_arg: Option<usize>,
    inputs: Vec<Input>,
    commands: Vec<Command<Argument>>,
    entries: Vec<Entry>,
    intents: Vec<(usize, Intent)>,
    limits: Limits,
}

proof fn lemma_resolved_in_range(v: BuilderView, a: Argument, f: nat)
    requires
        v.wf(),
    ensures
        resolve_spec(v.entries, a, f) matches Ok(x) ==> flat_in_range(x, v.inputs.len(), v.commands.len()),
    decreases f,
{
    if a.id < v.entries.len() && f > 0 {
        let e = v.entries[a.id as int];
        if let Entry::Replacement(t) = e {
            lemma_resolved_in_range(v, t, (f - 1) as nat);
            lemma_resolved_in_range(v, Argument { id: t.id, sub_index: a.sub_index }, (f - 1) as nat);
        }
    }
}

proof fn lemma_args_in_range(v: BuilderView, s: Seq<Argument>)
    requires
        v.wf(),
    ensures
        args_result(v.entries, s) matches Ok(fs) ==> fs.len() == s.len() && forall|j: int| 0 <= j < fs.len()
            ==> flat_in_range(#[trigger] fs[j], v.inputs.len(), v.commands.len()),
    decreases s.len(),
{
    if s.len() > 0 {
        lemma_resolved_in_range(v, s[0], v.entries.len());
        lemma_args_in_range(v, s.drop_first());
        if let Ok(fs) = args_result(v.entries, s) {
            let f = resolved(v.entries, s[0])->Ok_0;
            let t = args_result(v.entries, s.drop_first())->Ok_0;
            assert(fs == seq![f] + t);
            assert forall|j: int| 0 <= j < fs.len() implies flat_in_range(#[trigger] fs[j], v.inputs.len(), v.commands.len()) by {
                if j > 0 {
                    assert(fs[j] == t[j - 1]);
                }
            }
        }
    }
}

/// `r` with `p` in front of its values.
pub open spec fn prepend(p: Seq<FlatArg>, r: Result<Seq<FlatArg>, Error>) -> Result<Seq<FlatArg>, Error> {
    match r {
        Ok(t) => Ok(p + t),
        Err(e) => Err(e),
    }
}

/// Follows aliases from `a` to its terminal value, failing on an unknown
/// identifier, an unbound intent, a misplaced sub-index or a cycle.
pub fn resolve_argument(entries: &Vec<Entry>, a: Argument) -> (r: Result<FlatArg, Error>)
    ensures
        r == resolved(entries@, a),
{
    let mut cur = a;
    let mut fuel: usize = entries.len();
    loop
        invariant
            fuel <= entries@.len(),
            resolve_spec(entries@, cur, fuel as nat) == resolved(entries@, a),
        decreases fuel,
    {
        if cur.id >= entries.len() {
            return Err(Error::UnknownArgument(cur.id));
        }
        if fuel == 0 {
            return Err(Error::CyclicReference(cur.id));
        }
        match entries[cur.id] {
            Entry::Input(i) => {
                return if cur.sub_index.is_some() {
                    Err(Error::InvalidSubIndex(cur.id))
                } else {
                    Ok(FlatArg::Input(i))
                };
            },
            Entry::Gas => {
                return if cur.sub_index.is_some() {
                    Err(Error::InvalidSubIndex(cur.id))
                } else {
                    Ok(FlatArg::GasCoin)
                };
            },
            Entry::Result(c) => {
                return match cur.sub_index {
                    None => Ok(FlatArg::Result(c)),
                    Some(k) => Ok(FlatArg::NestedResult(c, k)),
                };
            },
            Entry::Unresolved => {
                return Err(Error::UnresolvedArgument(cur.id));
            },
            Entry::Replacement(t) => {
                match cur.sub_index {
                    None => {
                        cur = t;
                    },
                    Some(k) => {
                        if t.sub_index.is_some() {
                            return Err(Error::InvalidSubIndex(cur.id));
                        }
                        cur = Argument::nested(t.id, k);
                    },
                }
                fuel = fuel - 1;
            },
        }
    }
}

/// Resolves each argument in order, stopping at the first failure.
pub fn resolve_arguments(entries: &Vec<Entry>, args: &Vec<Argument>) -> (r: Result<Vec<FlatArg>, Error>)
    ensures
        match args_result(entries@, args@) {
            Ok(s) => r is Ok && r->Ok_0@ == s,
            Err(e) => r == Err::<Vec<FlatArg>, Error>(e),
        },
{
    let mut out: Vec<FlatArg> = Vec::new();
    let mut i: usize = 0;
    assert(args@.subrange(0, args@.len() as int) == args@);
    assert(Seq::<FlatArg>::empty() + args_result(entries@, args@)->Ok_0 == args_result(entries@, args@)->Ok_0);
    while i < args.len()
        invariant
            i <= args@.len(),
            args_result(entries@, args@) == prepend(out@, args_result(entries@, args@.subrange(i as int, args@.len() as int))),
        decreases args@.len() - i,
    {
        let ghost rest = args@.subrange(i as int, args@.len() as int);
        let ghost next = args@.subrange(i + 1, args@.len() as int);
        assert(rest.drop_first() == next);
        assert(rest[0] == args@[i as int]);
        match resolve_argument(entries, args[i]) {
            Err(e) => {
                return Err(e);
            },
            Ok(f) => {
                proof {
                    match args_result(entries@, next) {
                        Ok(t) => {
                            assert(out@ + (seq![f] + t) == out@.push(f) + t);
                        },
                        Err(_) => {},
                    }
                }
                out.push(f);
            },
        }
        i = i + 1;
    }
    assert(args@.subrange(i as int, args@.len() as int) == Seq::<Argument>::empty());
    assert(out@ + Seq::<FlatArg>::empty() == out@);
    Ok(out)
}

proof fn lemma_head_args(entries: Seq<Entry>, a: Argument, s: Seq<Argument>)
    ensures
        args_result(entries, seq![a] + s) == match resolved(entries, a) {
            Err(e) => Err(e),
            Ok(f) => prepend(seq![f], args_result(entries, s)),
        },
{
    assert((seq![a] + s).drop_first() == s);
    assert((seq![a] + s)[0] == a);
}

/// Rewrites every operand of `c` to its terminal value.
pub fn resolve_command(entries: &Vec<Entry>, c: Command<Argument>) -> (r: Result<Command<FlatArg>, Error>)
    ensures
        match args_result(entries@, operands(c)) {
            Err(e) => r == Err::<Command<FlatArg>, Error>(e),
            Ok(_) => r is Ok && command_resolves(entries@, c, r->Ok_0),
        },
{
    match c {
        Command::MoveCall { package, module, function, type_args, arguments } => {
            let args = resolve_arguments(entries, &arguments)?;
            Ok(Command::MoveCall { package, module, function, type_args, arguments: args })
        },
        Command::SplitCoins { coin, amounts } => {
            proof {
                lemma_head_args(entries@, coin, amounts@);
            }
            let f = resolve_argument(entries, coin)?;
            let fs = resolve_arguments(entries, &amounts)?;
            Ok(Command::SplitCoins { coin: f, amounts: fs })
        },
        Command::MergeCoins { coin, sources } => {
            proof {
                lemma_head_args(entries@, coin, sources@);
            }
            let f = resolve_argument(entries, coin)?;
            let fs = resolve_arguments(entries, &sources)?;
            Ok(Command::MergeCoins { coin: f, sources: fs })
        },
        Command::TransferObjects { objects, address } => {
            proof {
                lemma_head_args(entries@, address, objects@);
            }
            let f = resolve_argument(entries, address)?;
            let fs = resolve_arguments(entries, &objects)?;
            Ok(Command::TransferObjects { objects: fs, address: f })
        },
        Command::MakeMoveVector { type_tag, elements } => {
            let fs = resolve_arguments(entries, &elements)?;
            Ok(Command::MakeMoveVector { type_tag, elements: fs })
        },
        Command::Publish { modules, dependencies } => {
            Ok(Command::Publish { modules, dependencies })
        },
        Command::Upgrade { modules, dependencies, package, ticket } => {
            proof {
                lemma_head_args(entries@, ticket, Seq::empty());
                assert(seq![ticket] + Seq::<Argument>::empty() == seq![ticket]);
            }
            let f = resolve_argument(entries, ticket)?;
            Ok(Command::Upgrade { modules, dependencies, package, ticket: f })
        },
    }
}

impl View for TransactionBuilder {
    type V = BuilderView;

    closed spec fn view(&self) -> BuilderView {
        BuilderView {
            sender: self.sender,
            gas_budget: self.gas_budget,
            gas_price: self.gas_price,
            gas_objects: self.gas_objects@,
            gas_arg: self.gas_arg,
            inputs: self.inputs@,
            commands: self.commands@,
            entries: self.entries@,
            intents: self.intents@,
            limits: self.limits,
        }
    }
}

impl TransactionBuilder {
    /// A builder with the standard ceilings.
    pub fn new() -> (r: TransactionBuilder)
        ensures
            r@.wf(),
            r@ == (BuilderView {
                sender: None,
                gas_budget: None,
                gas_price: None,
                gas_objects: Seq::empty(),
                gas_arg: None,
                inputs: Seq::empty(),
                commands: Seq::empty(),
                entries: Seq::empty(),
                intents: Seq::empty(),
                limits: Limits::standard_spec(),
            }),
    {
        Self::with_limits(Limits::standard())
    }

    /// A builder with the given ceilings.
    pub fn with_limits(limits: Limits) -> (r: TransactionBuilder)
        ensures
            r@.wf(),
            r@ == (BuilderView {
                sender: None,
                gas_budget: None,
                gas_price: None,
                gas_objects: Seq::empty(),
                gas_arg: None,
                inputs: Seq::empty(),
                commands: Seq::empty(),
                entries: Seq::empty(),
                intents: Seq::empty(),
                limits,
            }),
    {
        TransactionBuilder {
            sender: None,
            gas_budget: None,
            gas_price: None,
            gas_objects: Vec::new(),
            gas_arg: None,
            inputs: Vec::new(),
            commands: Vec::new(),
            entries: Vec::new(),
            intents: Vec::new(),
            limits,
        }
    }

    pub fn set_sender(&mut self, sender: Address)
        requires
            old(self)@.wf(),
        ensures
            final(self)@.wf(),
            final(self)@ == (BuilderView { sender: Some(sender), ..old(self)@ }),
    {
        self.sender = Some(sender);
    }

    pub fn set_gas_budget(&mut self, budget: u64)
        requires
            old(self)@.wf(),
        ensures
            final(self)@.wf(),
            final(self)@ == (BuilderView { gas_budget: Some(budget), ..old(self)@ }),
    {
        self.gas_budget = Some(budget);
    }

    pub fn set_gas_price(&mut self, price: u64)
        requires
            old(self)@.wf(),
        ensures
            final(self)@.wf(),
            final(self)@ == (BuilderView { gas_price: Some(price), ..old(self)@ }),
    {
        self.gas_price = Some(price);
    }

    /// The number of identifiers allocated so far.
    pub fn num_arguments(&self) -> (r: usize)
        ensures
            r == self@.entries.len(),
    {
        self.entries.len()
    }

    /// The number of inputs added so far.
    pub fn num_inputs(&self) -> (r: usize)
        ensures
            r == self@.inputs.len(),
    {
        self.inputs.len()
    }

    /// The number of commands added so far.
    pub fn num_commands(&self) -> (r: usize)
        ensures
            r == self@.commands.len(),
    {
        self.commands.len()
    }

    /// The number of gas objects added so far.
    pub fn num_gas_objects(&self) -> (r: usize)
        ensures
            r == self@.gas_objects.len(),
    {
        self.gas_objects.len()
    }

    /// The identifiers of the intents still pending, in registration order.
    pub fn pending_intents(&self) -> (r: Vec<usize>)
        ensures
            r@.len() == self@.intents.len(),
            forall|k: int| 0 <= k < r@.len() ==> r@[k] == #[trigger] self@.intents[k].0,
    {
        let mut out: Vec<usize> = Vec::new();
        let mut i: usize = 0;
        while i < self.intents.len()
            invariant
                i <= self@.intents.len(),
                out@.len() == i,
                forall|k: int| 0 <= k < i ==> out@[k] == #[trigger] self@.intents[k].0,
            decreases self@.intents.len() - i,
        {
            out.push(self.intents[i].0);
            i = i + 1;
        }
        out
    }

    /// The pending intent at position `k` of the pending set, with its
    /// reserved identifier: what a resolver must make concrete.
    pub fn pending_intent(&self, k: usize) -> (r: &(usize, Intent))
        requires
            k < self@.intents.len(),
        ensures
            *r == self@.intents[k as int],
    {
        &self.intents[k]
    }

    /// Appends `objs` to the gas objects, or fails without change when the
    /// list would exceed its ceiling.
    pub fn add_gas_objects(&mut self, objs: Vec<ObjectRef>) -> (r: Result<(), Error>)
        requires
            old(self)@.wf(),
        ensures
            final(self)@.wf(),
            r is Ok <==> old(self)@.gas_objects.len() + objs@.len() <= old(self)@.limits.max_gas_objects,
            r is Err ==> r == Err::<(), Error>(Error::TooManyGasObjects) && final(self)@ == old(self)@,
            r is Ok ==> final(self)@ == (BuilderView {
                gas_objects: old(self)@.gas_objects + objs@,
                ..old(self)@
            }),
    {
        if objs.len() > self.limits.max_gas_objects - self.gas_objects.len() {
            return Err(Error::TooManyGasObjects);
        }
        let ghost start = self.gas_objects@;
        let mut i: usize = 0;
        while i < objs.len()
            invariant
                i <= objs@.len(),
                self@ == (BuilderView { gas_objects: start + objs@.subrange(0, i as int), ..old(self)@ }),
                start == old(self)@.gas_objects,
                start.len() + objs@.len() <= old(self)@.limits.max_gas_objects,
            decreases objs@.len() - i,
        {
            self.gas_objects.push(objs[i]);
            assert(start + objs@.subrange(0, i + 1) == (start + objs@.subrange(0, i as int)).push(objs@[i as int]));
            i = i + 1;
        }
        assert(objs@.subrange(0, objs@.len() as int) == objs@);
        Ok(())
    }

    proof fn lemma_alloc_wf(v: BuilderView, e: Entry, w: BuilderView)
        requires
            v.wf(),
            w.entries == v.entries.push(e),
            w.inputs.len() >= v.inputs.len(),
            w.commands.len() >= v.commands.len(),
            w.gas_objects == v.gas_objects,
            w.limits == v.limits,
            w.intents == v.intents,
            w.gas_arg == v.gas_arg,
            match e {
                Entry::Input(k) => k < w.inputs.len(),
                Entry::Result(c) => c < w.commands.len(),
                Entry::Replacement(t) => t.id < w.entries.len(),
                _ => true,
            },
        ensures
            w.wf(),
    {
        assert forall|i: int| 0 <= i < w.entries.len() implies match #[trigger] w.entries[i] {
            Entry::Input(k) => k < w.inputs.len(),
            Entry::Result(c) => c < w.commands.len(),
            Entry::Replacement(t) => t.id < w.entries.len(),
            _ => true,
        } by {
            if i < v.entries.len() {
                assert(w.entries[i] == v.entries[i]);
            }
        }
        assert forall|k: int| 0 <= k < w.intents.len() implies (#[trigger] w.intents[k]).0 < w.entries.len()
            && w.entries[w.intents[k].0 as int] == Entry::Unresolved by {
            assert(v.entries[v.intents[k].0 as int] == Entry::Unresolved);
        }
    }

    /// The gas pseudo-argument: allocated on the first call, the same
    /// identifier on every later call.
    pub fn gas(&mut self) -> (r: Argument)
        requires
            old(self)@.wf(),
        ensures
            final(self)@.wf(),
            r.sub_index is None,
            final(self)@.gas_arg == Some(r.id),
            old(self)@.gas_arg is Some ==> r.id == old(self)@.gas_arg->0 && final(self)@ == old(self)@,
            old(self)@.gas_arg is None ==> r.id == old(self)@.entries.len() && final(self)@ == (BuilderView {
                gas_arg: Some(r.id),
                ..old(self)@.allocated(Entry::Gas)
            }),
    {
        match self.gas_arg {
            Some(id) => Argument::new(id),
            None => {
                let id = self.entries.len();
                self.entries.push(Entry::Gas);
                self.gas_arg = Some(id);
                proof {
                    let v = old(self)@;
                    let w = self@;
                    assert forall|i: int| 0 <= i < w.entries.len() implies match #[trigger] w.entries[i] {
                        Entry::Input(k) => k < w.inputs.len(),
                        Entry::Result(c) => c < w.commands.len(),
                        Entry::Replacement(t) => t.id < w.entries.len(),
                        _ => true,
                    } by {
                        if i < v.entries.len() {
                            assert(w.entries[i] == v.entries[i]);
                        }
                    }
                    assert forall|k: int| 0 <= k < w.intents.len() implies (#[trigger] w.intents[k]).0 < w.entries.len()
                        && w.entries[w.intents[k].0 as int] == Entry::Unresolved by {
                        assert(v.entries[v.intents[k].0 as int] == Entry::Unresolved);
                    }
                }
                Argument::new(id)
            },
        }
    }

    fn push_input(&mut self, input: Input) -> (r: Argument)
        requires
            old(self)@.wf(),
        ensures
            final(self)@.wf(),
            r.id == old(self)@.entries.len() && r.sub_index is None,
            final(self)@ == (BuilderView {
                inputs: old(self)@.inputs.push(input),
                ..old(self)@.allocated(Entry::Input(old(self)@.inputs.len() as usize))
            }),
    {
        let id = self.entries.len();
        let k = self.inputs.len();
        self.inputs.push(input);
        self.entries.push(Entry::Input(k));
        proof {
            Self::lemma_alloc_wf(old(self)@, Entry::Input(k), self@);
        }
        Argument::new(id)
    }

    /// Adds an object input.
    pub fn object(&mut self, obj: ObjectInput) -> (r: Argument)
        requires
            old(self)@.wf(),
        ensures
            final(self)@.wf(),
            r.id == old(self)@.entries.len() && r.sub_index is None,
            final(self)@ == (BuilderView {
                inputs: old(self)@.inputs.push(Input::Object(obj)),
                ..old(self)@.allocated(Entry::Input(old(self)@.inputs.len() as usize))
            }),
    {
        self.push_input(Input::Object(obj))
    }

    /// Adds a pure input from bytes already in canonical form.
    pub fn pure_bytes(&mut self, bytes: Vec<u8>) -> (r: Argument)
        requires
            old(self)@.wf(),
        ensures
            final(self)@.wf(),
            r.id == old(self)@.entries.len() && r.sub_index is None,
            final(self)@ == (BuilderView {
                inputs: old(self)@.inputs.push(Input::Pure(bytes)),
                ..old(self)@.allocated(Entry::Input(old(self)@.inputs.len() as usize))
            }),
    {
        self.push_input(Input::Pure(bytes))
    }

    /// Allocates an identifier that stands for sub-result `sub_index` of the
    /// multi-output result `base`.
    pub fn nested_result(&mut self, base: usize, sub_index: usize) -> (r: Result<Argument, Error>)
        requires
            old(self)@.wf(),
        ensures
            final(self)@.wf(),
            base >= old(self)@.entries.len() <==> r == Err::<Argument, Error>(Error::UnknownArgument(base)),
            base < old(self)@.entries.len() <==> r is Ok,
            r is Err ==> final(self)@ == old(self)@,
            r is Ok ==> r->Ok_0.id == old(self)@.entries.len() && r->Ok_0.sub_index is None
                && final(self)@ == old(self)@.allocated(Entry::Replacement(Argument::nested_spec(base, sub_index))),
    {
        if base >= self.entries.len() {
            return Err(Error::UnknownArgument(base));
        }
        let id = self.entries.len();
        self.entries.push(Entry::Replacement(Argument::nested(base, sub_index)));
        proof {
            Self::lemma_alloc_wf(old(self)@, Entry::Replacement(Argument::nested_spec(base, sub_index)), self@);
        }
        Ok(Argument::new(id))
    }
}

impl TransactionBuilder {
    fn check_known(&self, args: &Vec<Argument>) -> (r: Result<(), Error>)
        ensures
            r is Ok <==> first_unknown(self@.entries.len(), args@) is None,
            r is Err ==> r == Err::<(), Error>(first_unknown(self@.entries.len(), args@)->0),
            r is Err ==> r->Err_0 is UnknownArgument,
    {
        let n = self.entries.len();
        let mut i: usize = 0;
        assert(args@.subrange(0, args@.len() as int) == args@);
        while i < args.len()
            invariant
                i <= args@.len(),
                n == self@.entries.len(),
                first_unknown(n as nat, args@) == first_unknown(n as nat, args@.subrange(i as int, args@.len() as int)),
            decreases args@.len() - i,
        {
            let ghost rest = args@.subrange(i as int, args@.len() as int);
            assert(rest.drop_first() == args@.subrange(i + 1, args@.len() as int));
            if args[i].id >= n {
                return Err(Error::UnknownArgument(args[i].id));
            }
            i = i + 1;
        }
        assert(args@.subrange(i as int, args@.len() as int).len() == 0);
        Ok(())
    }

    proof fn lemma_unknown_head(n: nat, a: Argument, s: Seq<Argument>)
        ensures
            first_unknown(n, seq![a] + s) == if a.id >= n {
                Some(Error::UnknownArgument(a.id))
            } else {
                first_unknown(n, s)
            },
    {
        assert((seq![a] + s).drop_first() == s);
    }

    proof fn lemma_command_wf(v: BuilderView, w: BuilderView, c: Command<Argument>, result: bool)
        requires
            v.wf(),
            w == (if result { v.with_result(c) } else { v.with_command(c) }),
        ensures
            w.wf(),
    {
        if result {
            Self::lemma_alloc_wf(v, Entry::Result(v.commands.len() as usize), w);
        } else {
            assert forall|i: int| 0 <= i < w.entries.len() implies match #[trigger] w.entries[i] {
                Entry::Input(k) => k < w.inputs.len(),
                Entry::Result(c) => c < w.commands.len(),
                Entry::Replacement(t) => t.id < w.entries.len(),
                _ => true,
            } by {
                assert(w.entries[i] == v.entries[i]);
            }
        }
    }

    fn push_command(&mut self, c: Command<Argument>) -> (r: Argument)
        requires
            old(self)@.wf(),
        ensures
            final(self)@.wf(),
            r.id == old(self)@.entries.len() && r.sub_index is None,
            final(self)@ == old(self)@.with_result(c),
    {
        let id = self.entries.len();
        let k = self.commands.len();
        self.commands.push(c);
        self.entries.push(Entry::Result(k));
        proof {
            Self::lemma_command_wf(old(self)@, self@, c, true);
        }
        Argument::new(id)
    }

    /// Splits `coin` into one coin per amount. The result is the base
    /// identifier of all of them: address coin `k` through `nested_result`.
    pub fn split_coins(&mut self, coin: Argument, amounts: Vec<Argument>) -> (r: Result<Argument, Error>)
        requires
            old(self)@.wf(),
        ensures
            final(self)@.wf(),
            r is Err ==> final(self)@ == old(self)@,
            amounts@.len() == 0 ==> r == Err::<Argument, Error>(Error::EmptyOperands),
            amounts@.len() > 0 ==> match first_unknown(old(self)@.entries.len(), seq![coin] + amounts@) {
                Some(e) => r == Err::<Argument, Error>(e),
                None => r is Ok && r->Ok_0.id == old(self)@.entries.len() && r->Ok_0.sub_index is None
                    && final(self)@ == old(self)@.with_result(Command::SplitCoins { coin, amounts }),
            },
    {
        if amounts.len() == 0 {
            return Err(Error::EmptyOperands);
        }
        proof {
            Self::lemma_unknown_head(self@.entries.len(), coin, amounts@);
        }
        if coin.id >= self.entries.len() {
            return Err(Error::UnknownArgument(coin.id));
        }
        match self.check_known(&amounts) {
            Err(e) => Err(e),
            Ok(()) => Ok(self.push_command(Command::SplitCoins { coin, amounts })),
        }
    }

    /// Merges `sources` into `coin`. Produces no result.
    pub fn merge_coins(&mut self, coin: Argument, sources: Vec<Argument>) -> (r: Result<(), Error>)
        requires
            old(self)@.wf(),
        ensures
            final(self)@.wf(),
            r is Err ==> final(self)@ == old(self)@,
            sources@.len() == 0 ==> r == Err::<(), Error>(Error::EmptyOperands),
            sources@.len() > 0 ==> match first_unknown(old(self)@.entries.len(), seq![coin] + sources@) {
                Some(e) => r == Err::<(), Error>(e),
                None => r is Ok && final(self)@ == old(self)@.with_command(Command::MergeCoins { coin, sources }),
            },
    {
        if sources.len() == 0 {
            return Err(Error::EmptyOperands);
        }
        proof {
            Self::lemma_unknown_head(self@.entries.len(), coin, sources@);
        }
        if coin.id >= self.entries.len() {
            return Err(Error::UnknownArgument(coin.id));
        }
        match self.check_known(&sources) {
            Err(e) => Err(e),
            Ok(()) => {
                let c = Command::MergeCoins { coin, sources };
                self.commands.push(c);
                proof {
                    Self::lemma_command_wf(old(self)@, self@, c, false);
                }
                Ok(())
            },
        }
    }

    /// Sends `objects` to the address that `address` holds. Produces no result.
    pub fn transfer_objects(&mut self, objects: Vec<Argument>, address: Argument) -> (r: Result<(), Error>)
        requires
            old(self)@.wf(),
        ensures
            final(self)@.wf(),
            r is Err ==> final(self)@ == old(self)@,
            objects@.len() == 0 ==> r == Err::<(), Error>(Error::EmptyOperands),
            objects@.len() > 0 ==> match first_unknown(old(self)@.entries.len(), seq![address] + objects@) {
                Some(e) => r == Err::<(), Error>(e),
                None => r is Ok && final(self)@ == old(self)@.with_command(Command::TransferObjects { objects, address }),
            },
    {
        if objects.len() == 0 {
            return Err(Error::EmptyOperands);
        }
        proof {
            Self::lemma_unknown_head(self@.entries.len(), address, objects@);
        }
        if address.id >= self.entries.len() {
            return Err(Error::UnknownArgument(address.id));
        }
        match self.check_known(&objects) {
            Err(e) => Err(e),
            Ok(()) => {
                let c = Command::TransferObjects { objects, address };
                self.commands.push(c);
                proof {
                    Self::lemma_command_wf(old(self)@, self@, c, false);
                }
                Ok(())
            },
        }
    }
}

impl TransactionBuilder {
    pub(crate) fn check_type_tags(tags: &Vec<String>) -> (r: bool)
        ensures
            r == all_type_tags(tags@),
    {
        let mut i: usize = 0;
        while i < tags.len()
            invariant
                i <= tags@.len(),
                forall|k: int| 0 <= k < i ==> type_tag_parses((#[trigger] tags@[k])@),
            decreases tags@.len() - i,
        {
            if !is_type_tag(tags[i].as_str()) {
                return false;
            }
            i = i + 1;
        }
        true
    }

    /// Calls `module::function` of `package` with the given type arguments and
    /// operands; the result identifier stands for all of the call's results.
    pub fn move_call(
        &mut self,
        package: Address,
        module: String,
        function: String,
        type_args: Vec<String>,
        arguments: Vec<Argument>,
    ) -> (r: Result<Argument, Error>)
        requires
            old(self)@.wf(),
        ensures
            final(self)@.wf(),
            r is Err ==> final(self)@ == old(self)@,
            !valid_identifier(module@) ==> r == Err::<Argument, Error>(Error::InvalidModuleName),
            valid_identifier(module@) && !valid_identifier(function@)
                ==> r == Err::<Argument, Error>(Error::InvalidFunctionName),
            valid_identifier(module@) && valid_identifier(function@) && !all_type_tags(type_args@)
                ==> r == Err::<Argument, Error>(Error::InvalidTypeTag),
            valid_identifier(module@) && valid_identifier(function@) && all_type_tags(type_args@) ==>
                match first_unknown(old(self)@.entries.len(), arguments@) {
                    Some(e) => r == Err::<Argument, Error>(e),
                    None => r is Ok && r->Ok_0.id == old(self)@.entries.len() && r->Ok_0.sub_index is None
                        && final(self)@ == old(self)@.with_result(
                            Command::MoveCall { package, module, function, type_args, arguments },
                        ),
                },
    {
        if !is_identifier(module.as_str()) {
            return Err(Error::InvalidModuleName);
        }
        if !is_identifier(function.as_str()) {
            return Err(Error::InvalidFunctionName);
        }
        if !Self::check_type_tags(&type_args) {
            return Err(Error::InvalidTypeTag);
        }
        match self.check_known(&arguments) {
            Err(e) => Err(e),
            Ok(()) => Ok(self.push_command(Command::MoveCall { package, module, function, type_args, arguments })),
        }
    }

    /// Builds a Move vector from `elements`, which must not be empty; the
    /// element type is optional.
    pub fn make_move_vec(&mut self, type_tag: Option<String>, elements: Vec<Argument>) -> (r: Result<Argument, Error>)
        requires
            old(self)@.wf(),
        ensures
            final(self)@.wf(),
            r is Err ==> final(self)@ == old(self)@,
            elements@.len() == 0 <==> r == Err::<Argument, Error>(Error::EmptyOperands),
            elements@.len() > 0 && type_tag is Some && !type_tag_parses(type_tag->0@)
                ==> r == Err::<Argument, Error>(Error::InvalidTypeTag),
            elements@.len() > 0 && (type_tag is Some ==> type_tag_parses(type_tag->0@)) ==>
                match first_unknown(old(self)@.entries.len(), elements@) {
                    Some(e) => r == Err::<Argument, Error>(e),
                    None => r is Ok && r->Ok_0.id == old(self)@.entries.len() && r->Ok_0.sub_index is None
                        && final(self)@ == old(self)@.with_result(Command::MakeMoveVector { type_tag, elements }),
                },
    {
        if elements.len() == 0 {
            return Err(Error::EmptyOperands);
        }
        match &type_tag {
            Some(t) => {
                if !is_type_tag(t.as_str()) {
                    return Err(Error::InvalidTypeTag);
                }
            },
            None => {},
        }
        match self.check_known(&elements) {
            Err(e) => Err(e),
            Ok(()) => Ok(self.push_command(Command::MakeMoveVector { type_tag, elements })),
        }
    }

    /// Publishes a package of modules; the result is its upgrade capability.
    pub fn publish(&mut self, modules: Vec<Vec<u8>>, dependencies: Vec<Address>) -> (r: Result<Argument, Error>)
        requires
            old(self)@.wf(),
        ensures
            final(self)@.wf(),
            r is Err ==> final(self)@ == old(self)@,
            modules@.len() == 0 <==> r == Err::<Argument, Error>(Error::EmptyOperands),
            modules@.len() > 0 ==> r is Ok && r->Ok_0.id == old(self)@.entries.len() && r->Ok_0.sub_index is None
                && final(self)@ == old(self)@.with_result(Command::Publish { modules, dependencies }),
    {
        if modules.len() == 0 {
            return Err(Error::EmptyOperands);
        }
        Ok(self.push_command(Command::Publish { modules, dependencies }))
    }

    /// Upgrades `package` with new modules under the authority of `ticket`;
    /// the result is the upgrade receipt.
    pub fn upgrade(
        &mut self,
        modules: Vec<Vec<u8>>,
        dependencies: Vec<Address>,
        package: Address,
        ticket: Argument,
    ) -> (r: Result<Argument, Error>)
        requires
            old(self)@.wf(),
        ensures
            final(self)@.wf(),
            r is Err ==> final(self)@ == old(self)@,
            modules@.len() == 0 ==> r == Err::<Argument, Error>(Error::EmptyOperands),
            modules@.len() > 0 && ticket.id >= old(self)@.entries.len()
                ==> r == Err::<Argument, Error>(Error::UnknownArgument(ticket.id)),
            modules@.len() > 0 && ticket.id < old(self)@.entries.len()
                ==> r is Ok && r->Ok_0.id == old(self)@.entries.len() && r->Ok_0.sub_index is None
                && final(self)@ == old(self)@.with_result(Command::Upgrade { modules, dependencies, package, ticket }),
    {
        if modules.len() == 0 {
            return Err(Error::EmptyOperands);
        }
        if ticket.id >= self.entries.len() {
            return Err(Error::UnknownArgument(ticket.id));
        }
        Ok(self.push_command(Command::Upgrade { modules, dependencies, package, ticket }))
    }

    /// Reserves an identifier for a value that must be found outside the
    /// builder, and registers the intent as pending.
    pub fn add_intent(&mut self, intent: Intent) -> (r: Argument)
        requires
            old(self)@.wf(),
        ensures
            final(self)@.wf(),
            r.id == old(self)@.entries.len() && r.sub_index is None,
            final(self)@ == (BuilderView {
                intents: old(self)@.intents.push((r.id, intent)),
                ..old(self)@.allocated(Entry::Unresolved)
            }),
    {
        let id = self.entries.len();
        self.entries.push(Entry::Unresolved);
        self.intents.push((id, intent));
        proof {
            let v = old(self)@;
            let w = self@;
            assert forall|i: int| 0 <= i < w.entries.len() implies match #[trigger] w.entries[i] {
                Entry::Input(k) => k < w.inputs.len(),
                Entry::Result(c) => c < w.commands.len(),
                Entry::Replacement(t) => t.id < w.entries.len(),
                _ => true,
            } by {
                if i < v.entries.len() {
                    assert(w.entries[i] == v.entries[i]);
                }
            }
            assert forall|k: int| 0 <= k < w.intents.len() implies (#[trigger] w.intents[k]).0 < w.entries.len()
                && w.entries[w.intents[k].0 as int] == Entry::Unresolved by {
                if k < v.intents.len() {
                    assert(w.intents[k] == v.intents[k]);
                    assert(v.entries[v.intents[k].0 as int] == Entry::Unresolved);
                }
            }
            assert forall|k: int, j: int| 0 <= k < w.intents.len() && 0 <= j < w.intents.len() && k != j
                implies (#[trigger] w.intents[k]).0 != (#[trigger] w.intents[j]).0 by {
                if k < v.intents.len() {
                    assert(w.intents[k] == v.intents[k]);
                }
                if j < v.intents.len() {
                    assert(w.intents[j] == v.intents[j]);
                }
            }
        }
        Argument::new(id)
    }

    /// Binds the pending intent reserved at `id` to `target` and removes it
    /// from the pending set.
    pub fn resolve_intent(&mut self, id: usize, target: Argument) -> (r: Result<(), Error>)
        requires
            old(self)@.wf(),
        ensures
            final(self)@.wf(),
            r is Err ==> final(self)@ == old(self)@,
            !(exists|k: int| 0 <= k < old(self)@.intents.len() && (#[trigger] old(self)@.intents[k]).0 == id)
                ==> r == Err::<(), Error>(Error::NotAnIntent(id)),
            (exists|k: int| 0 <= k < old(self)@.intents.len() && (#[trigger] old(self)@.intents[k]).0 == id)
                && target.id >= old(self)@.entries.len() ==> r == Err::<(), Error>(Error::UnknownArgument(target.id)),
            r is Ok ==> exists|k: int| 0 <= k < old(self)@.intents.len() && (#[trigger] old(self)@.intents[k]).0 == id
                && final(self)@ == (BuilderView {
                    entries: old(self)@.entries.update(id as int, Entry::Replacement(target)),
                    intents: old(self)@.intents.remove(k),
                    ..old(self)@
                }),
            (exists|k: int| 0 <= k < old(self)@.intents.len() && (#[trigger] old(self)@.intents[k]).0 == id)
                && target.id < old(self)@.entries.len() ==> r is Ok,
    {
        let mut k: usize = 0;
        while k < self.intents.len() && self.intents[k].0 != id
            invariant
                k <= self@.intents.len(),
                self@ == old(self)@,
                forall|j: int| 0 <= j < k ==> (#[trigger] self@.intents[j]).0 != id,
            decreases self@.intents.len() - k,
        {
            k = k + 1;
        }
        if k == self.intents.len() {
            return Err(Error::NotAnIntent(id));
        }
        if target.id >= self.entries.len() {
            return Err(Error::UnknownArgument(target.id));
        }
        let ghost kk = k as int;
        assert(self@.intents[kk].0 == id);
        assert(id < self@.entries.len());
        self.entries.set(id, Entry::Replacement(target));
        let _ = self.intents.remove(k);
        proof {
            let v = old(self)@;
            let w = self@;
            assert(v.intents[kk].0 == id);
            assert forall|i: int| 0 <= i < w.entries.len() implies match #[trigger] w.entries[i] {
                Entry::Input(k) => k < w.inputs.len(),
                Entry::Result(c) => c < w.commands.len(),
                Entry::Replacement(t) => t.id < w.entries.len(),
                _ => true,
            } by {
                if i != id {
                    assert(w.entries[i] == v.entries[i]);
                }
            }
            assert forall|j: int| 0 <= j < w.intents.len() implies (#[trigger] w.intents[j]).0 < w.entries.len()
                && w.entries[w.intents[j].0 as int] == Entry::Unresolved by {
                let jj = if j < kk { j } else { j + 1 };
                assert(w.intents[j] == v.intents[jj]);
                assert(jj != kk);
                assert(v.intents[jj].0 != v.intents[kk].0);
                assert(v.entries[v.intents[jj].0 as int] == Entry::Unresolved);
            }
            assert forall|a: int, b: int| 0 <= a < w.intents.len() && 0 <= b < w.intents.len() && a != b
                implies (#[trigger] w.intents[a]).0 != (#[trigger] w.intents[b]).0 by {
                let aa = if a < kk { a } else { a + 1 };
                let bb = if b < kk { b } else { b + 1 };
                assert(w.intents[a] == v.intents[aa]);
                assert(w.intents[b] == v.intents[bb]);
            }
        }
        Ok(())
    }
}

impl TransactionBuilder {
    /// The terminal value of `a` in the current state.
    pub fn resolve(&self, a: Argument) -> (r: Result<FlatArg, Error>)
        ensures
            r == resolved(self@.entries, a),
    {
        resolve_argument(&self.entries, a)
    }

    /// Finalizes the builder into a transaction. Without a resolver, pending
    /// intents make this fail; then the ceilings are checked, every operand
    /// is resolved, and the sender, gas budget, gas price and gas objects
    /// must be present.
    pub fn try_build(self) -> (r: Result<Transaction, Error>)
        ensures
            match self@.build_error() {
                Some(e) => r == Err::<Transaction, Error>(e),
                None => r is Ok && built_from(self@, r->Ok_0),
            },
            self@.wf() && r is Ok ==> positions_in_range(r->Ok_0),
    {
        if self.intents.len() > 0 {
            assert(self@.build_error() == Some(Error::UnresolvedIntentsOffline));
            return Err(Error::UnresolvedIntentsOffline);
        }
        if self.gas_objects.len() > self.limits.max_gas_objects {
            return Err(Error::TooManyGasObjects);
        }
        if self.inputs.len() > self.limits.max_inputs {
            assert(self@.build_error() == Some(Error::TooManyInputs));
            return Err(Error::TooManyInputs);
        }
        if self.commands.len() > self.limits.max_commands {
            assert(self@.build_error() == Some(Error::TooManyCommands));
            return Err(Error::TooManyCommands);
        }
        if self.entries.len() > self.limits.max_arguments {
            assert(self@.build_error() == Some(Error::TooManyArguments));
            return Err(Error::TooManyArguments);
        }
        let ghost v = self@;
        let TransactionBuilder { sender, gas_budget, gas_price, gas_objects, inputs, commands, entries, .. } = self;
        let ghost orig = commands@;
        let mut rest = commands;
        let mut out: Vec<Command<FlatArg>> = Vec::new();
        assert(orig.subrange(0, orig.len() as int) == orig);
        while rest.len() > 0
            invariant
                entries@ == v.entries,
                orig == v.commands,
                v == self@,
                v.intents.len() == 0,
                v.gas_objects.len() <= v.limits.max_gas_objects,
                v.inputs.len() <= v.limits.max_inputs,
                v.commands.len() <= v.limits.max_commands,
                v.entries.len() <= v.limits.max_arguments,
                out@.len() <= orig.len(),
                rest@ == orig.subrange(out@.len() as int, orig.len() as int),
                commands_error(v.entries, orig) == commands_error(v.entries, rest@),
                forall|i: int| 0 <= i < out@.len() ==> command_resolves(v.entries, orig[i], #[trigger] out@[i]),
            decreases rest@.len(),
        {
            let ghost before = rest@;
            let c = rest.remove(0);
            assert(before.drop_first() == rest@);
            assert(orig.subrange(out@.len() as int + 1, orig.len() as int) == rest@);
            match resolve_command(&entries, c) {
                Err(e) => {
                    assert(commands_error(v.entries, before) == Some(e));
                    return Err(e);
                },
                Ok(d) => {
                    out.push(d);
                },
            }
        }
        assert(commands_error(v.entries, orig) is None);
        assert(out@.len() == orig.len());
        let sender = match sender {
            None => {
                return Err(Error::MissingSender);
            },
            Some(s) => s,
        };
        let gas_budget = match gas_budget {
            None => {
                return Err(Error::MissingGasBudget);
            },
            Some(b) => b,
        };
        let gas_price = match gas_price {
            None => {
                return Err(Error::MissingGasPrice);
            },
            Some(p) => p,
        };
        if gas_objects.len() == 0 {
            return Err(Error::MissingGasObjects);
        }
        proof {
            if v.wf() {
                assert forall|i: int, j: int| 0 <= i < out@.len() && 0 <= j < operands(out@[i]).len()
                    implies flat_in_range(#[trigger] operands(out@[i])[j], v.inputs.len(), v.commands.len()) by {
                    assert(command_resolves(v.entries, orig[i], out@[i]));
                    lemma_args_in_range(v, operands(orig[i]));
                }
            }
        }
        Ok(Transaction { sender, gas_objects, gas_budget, gas_price, inputs, commands: out })
    }
}

} // verus!
