use crate::api::gas_call;
use crate::builder::{resolve_spec, resolved, BuilderView};
use crate::error::Error;
use crate::model::{Argument, Entry, FlatArg};
use vstd::prelude::*;
use vstd::set_lib::{lemma_int_range, lemma_len_subset, set_int_range};

verus! {

/// Whether the entry stands for a value itself rather than for another argument.
pub open spec fn is_terminal(e: Entry) -> bool {
    match e {
        Entry::Input(_) | Entry::Gas | Entry::Result(_) => true,
        _ => false,
    }
}

/// The value a terminal entry resolves to when addressed without a sub-index.
pub open spec fn terminal_value(e: Entry) -> Result<FlatArg, Error> {
    match e {
        Entry::Input(i) => Ok(FlatArg::Input(i)),
        Entry::Gas => Ok(FlatArg::GasCoin),
        Entry::Result(c) => Ok(FlatArg::Result(c)),
        _ => Err(Error::UnresolvedArgument(0)),
    }
}

proof fn lemma_terminal_any_fuel(entries: Seq<Entry>, x: int, f: nat)
    requires
        entries.len() <= usize::MAX,
        0 <= x < entries.len(),
        is_terminal(entries[x]),
        f >= 1,
    ensures
        resolve_spec(entries, Argument { id: x as usize, sub_index: None }, f) == terminal_value(entries[x]),
{
}

proof fn lemma_alias_step(entries: Seq<Entry>, x: int, y: int, f: nat)
    requires
        entries.len() <= usize::MAX,
        0 <= x < entries.len(),
        entries[x] == Entry::Replacement(Argument { id: y as usize, sub_index: None }),
        f >= 1,
    ensures
        resolve_spec(entries, Argument { id: x as usize, sub_index: None }, f)
            == resolve_spec(entries, Argument { id: y as usize, sub_index: None }, (f - 1) as nat),
{
}

#[verifier::rlimit(60)]
proof fn lemma_chain_suffix(entries: Seq<Entry>, chain: Seq<int>, i: int, f: nat)
    requires
        entries.len() <= usize::MAX,
        2 <= chain.len(),
        0 <= i < chain.len(),
        f >= chain.len() - i,
        forall|k: int| 0 <= k < chain.len() ==> 0 <= #[trigger] chain[k] < entries.len(),
        forall|k: int| 0 <= k < chain.len() - 1 ==> entries[#[trigger] chain[k]]
            == Entry::Replacement(Argument { id: chain[k + 1] as usize, sub_index: None }),
        is_terminal(entries[chain.last()]),
    ensures
        resolve_spec(entries, Argument { id: chain[i] as usize, sub_index: None }, f)
            == terminal_value(entries[chain.last()]),
    decreases chain.len() - i,
{
    if i == chain.len() - 1 {
        lemma_terminal_any_fuel(entries, chain.last(), f);
    } else {
        let x = chain[i];
        let y = chain[i + 1];
        assert(0 <= x < entries.len());
        assert(entries[x] == Entry::Replacement(Argument { id: y as usize, sub_index: None }));
        lemma_alias_step(entries, x, y, f);
        lemma_chain_suffix(entries, chain, i + 1, (f - 1) as nat);
    }
}

proof fn lemma_distinct_ids_fit(n: nat, ids: Seq<int>)
    requires
        ids.no_duplicates(),
        forall|k: int| 0 <= k < ids.len() ==> 0 <= #[trigger] ids[k] < n,
    ensures
        ids.len() <= n,
{
    let range = set_int_range(0, n as int);
    lemma_int_range(0, n as int);
    assert forall|x: int| ids.to_set().contains(x) implies range.contains(x) by {
        let k = choose|k: int| 0 <= k < ids.len() && ids[k] == x;
        assert(0 <= ids[k] < n);
    }
    lemma_len_subset(ids.to_set(), range);
    ids.unique_seq_to_set();
}

/// A chain of aliases, each naming the next, over distinct identifiers and
/// ending at an input, the gas coin or a command result, resolves to the same
/// terminal value as a single alias that names the end of the chain directly,
/// and that value is the end's own.
#[verifier::rlimit(60)]
pub proof fn alias_chain_collapses(entries: Seq<Entry>, chain: Seq<int>, direct: int)
    requires
        entries.len() <= usize::MAX,
        2 <= chain.len(),
        chain.no_duplicates(),
        forall|k: int| 0 <= k < chain.len() ==> 0 <= #[trigger] chain[k] < entries.len(),
        forall|k: int| 0 <= k < chain.len() - 1 ==> entries[#[trigger] chain[k]]
            == Entry::Replacement(Argument { id: chain[k + 1] as usize, sub_index: None }),
        is_terminal(entries[chain.last()]),
        0 <= direct < entries.len(),
        entries[direct] == Entry::Replacement(Argument { id: chain.last() as usize, sub_index: None }),
    ensures
        resolved(entries, Argument { id: chain[0] as usize, sub_index: None })
            == resolved(entries, Argument { id: direct as usize, sub_index: None }),
        resolved(entries, Argument { id: chain[0] as usize, sub_index: None })
            == resolved(entries, Argument { id: chain.last() as usize, sub_index: None }),
        resolved(entries, Argument { id: chain[0] as usize, sub_index: None }) is Ok,
{
    lemma_distinct_ids_fit(entries.len(), chain);
    lemma_chain_suffix(entries, chain, 0, entries.len());
    lemma_terminal_any_fuel(entries, chain.last(), entries.len());
    lemma_alias_step(entries, direct, chain.last(), entries.len());
    lemma_terminal_any_fuel(entries, chain.last(), (entries.len() - 1) as nat);
}

proof fn lemma_cycle_fuel(entries: Seq<Entry>, cycle: Seq<int>, i: int, f: nat)
    requires
        entries.len() <= usize::MAX,
        1 <= cycle.len(),
        0 <= i < cycle.len(),
        forall|k: int| 0 <= k < cycle.len() ==> 0 <= #[trigger] cycle[k] < entries.len(),
        forall|k: int| 0 <= k < cycle.len() ==> entries[#[trigger] cycle[k]]
            == Entry::Replacement(Argument { id: cycle[(k + 1) % (cycle.len() as int)] as usize, sub_index: None }),
    ensures
        resolve_spec(entries, Argument { id: cycle[i] as usize, sub_index: None }, f) matches Err(Error::CyclicReference(_)),
    decreases f,
{
    if f > 0 {
        let j = (i + 1) % (cycle.len() as int);
        assert(0 <= j < cycle.len());
        lemma_cycle_fuel(entries, cycle, j, (f - 1) as nat);
    }
}

/// Aliases that lead back to where they started, whether one identifier
/// naming itself or several naming each other in a ring, fail to resolve with
/// a cyclic-reference error instead of looping.
pub proof fn alias_cycle_rejected(entries: Seq<Entry>, cycle: Seq<int>)
    requires
        entries.len() <= usize::MAX,
        1 <= cycle.len(),
        forall|k: int| 0 <= k < cycle.len() ==> 0 <= #[trigger] cycle[k] < entries.len(),
        forall|k: int| 0 <= k < cycle.len() ==> entries[#[trigger] cycle[k]]
            == Entry::Replacement(Argument { id: cycle[(k + 1) % (cycle.len() as int)] as usize, sub_index: None }),
    ensures
        forall|k: int| 0 <= k < cycle.len() ==> #[trigger] resolved(entries, Argument { id: cycle[k] as usize, sub_index: None })
            matches Err(Error::CyclicReference(_)),
{
    assert forall|k: int| 0 <= k < cycle.len() implies #[trigger] resolved(entries, Argument { id: cycle[k] as usize, sub_index: None })
        matches Err(Error::CyclicReference(_)) by {
        lemma_cycle_fuel(entries, cycle, k, entries.len());
    }
}

/// Sub-result aliases of one multi-output result `base`, the `k`-th naming
/// sub-result `k`, resolve to that command's `k`-th sub-result: pairwise
/// distinct, and distinct from the base result and from every other command's
/// results.
pub proof fn nested_results_distinct(entries: Seq<Entry>, base: int, cmd: usize, aliases: Seq<int>)
    requires
        entries.len() <= usize::MAX,
        0 <= base < entries.len(),
        entries[base] == Entry::Result(cmd),
        forall|k: int| 0 <= k < aliases.len() ==> 0 <= #[trigger] aliases[k] < entries.len() && aliases[k] != base,
        forall|k: int| 0 <= k < aliases.len() ==> entries[#[trigger] aliases[k]]
            == Entry::Replacement(Argument { id: base as usize, sub_index: Some(k as usize) }),
        aliases.len() <= usize::MAX,
    ensures
        resolved(entries, Argument { id: base as usize, sub_index: None }) == Ok::<FlatArg, Error>(FlatArg::Result(cmd)),
        forall|k: int| 0 <= k < aliases.len() ==> #[trigger] resolved(entries, Argument { id: aliases[k] as usize, sub_index: None })
            == Ok::<FlatArg, Error>(FlatArg::NestedResult(cmd, k as usize)),
        forall|k: int, j: int| 0 <= k < aliases.len() && 0 <= j < aliases.len() && k != j
            ==> resolved(entries, Argument { id: aliases[k] as usize, sub_index: None })
            != resolved(entries, Argument { id: aliases[j] as usize, sub_index: None }),
        forall|k: int, x: int| #![trigger aliases[k], entries[x]] 0 <= k < aliases.len() && 0 <= x < entries.len()
            && (entries[x] matches Entry::Result(c) && c != cmd)
            ==> resolved(entries, Argument { id: aliases[k] as usize, sub_index: None })
            != resolved(entries, Argument { id: x as usize, sub_index: None }),
{
    assert forall|k: int| 0 <= k < aliases.len() implies #[trigger] resolved(entries, Argument { id: aliases[k] as usize, sub_index: None })
        == Ok::<FlatArg, Error>(FlatArg::NestedResult(cmd, k as usize)) by {
        assert(entries.len() >= 2);
        let n = entries.len();
        assert(resolve_spec(entries, Argument { id: base as usize, sub_index: Some(k as usize) }, (n - 1) as nat)
            == Ok::<FlatArg, Error>(FlatArg::NestedResult(cmd, k as usize)));
    }
    assert forall|k: int, x: int| #![trigger aliases[k], entries[x]] 0 <= k < aliases.len() && 0 <= x < entries.len()
        && (entries[x] matches Entry::Result(c) && c != cmd)
        implies resolved(entries, Argument { id: aliases[k] as usize, sub_index: None })
        != resolved(entries, Argument { id: x as usize, sub_index: None }) by {
        assert(resolved(entries, Argument { id: aliases[k] as usize, sub_index: None })
            == Ok::<FlatArg, Error>(FlatArg::NestedResult(cmd, k as usize)));
    }
}

/// Identifiers handed out by a run of allocations from an empty table, each
/// allocation appending one entry and returning the table's length before
/// it, are exactly `0, 1, ..., N-1` in call order, with no gaps or repeats.
pub proof fn identifiers_are_dense(tables: Seq<Seq<Entry>>, ids: Seq<usize>)
    requires
        tables.len() == ids.len() + 1,
        tables[0].len() == 0,
        forall|i: int| 0 <= i < ids.len() ==> (#[trigger] tables[i + 1]).len() == tables[i].len() + 1
            && tables[i + 1].drop_last() == tables[i],
        forall|i: int| 0 <= i < ids.len() ==> #[trigger] ids[i] == tables[i].len(),
    ensures
        forall|i: int| 0 <= i < ids.len() ==> #[trigger] ids[i] == i,
        forall|i: int, j: int| 0 <= i < ids.len() && 0 <= j < ids.len() && i != j ==> ids[i] != ids[j],
{
    assert forall|i: int| 0 <= i < tables.len() implies (#[trigger] tables[i]).len() == i by {
        lemma_table_length(tables, ids, i);
    }
    assert forall|i: int| 0 <= i < ids.len() implies #[trigger] ids[i] == i by {
        assert(tables[i].len() == i);
    }
}

proof fn lemma_table_length(tables: Seq<Seq<Entry>>, ids: Seq<usize>, i: int)
    requires
        tables.len() == ids.len() + 1,
        tables[0].len() == 0,
        forall|k: int| 0 <= k < ids.len() ==> (#[trigger] tables[k + 1]).len() == tables[k].len() + 1
            && tables[k + 1].drop_last() == tables[k],
        0 <= i < tables.len(),
    ensures
        tables[i].len() == i,
    decreases i,
{
    if i > 0 {
        lemma_table_length(tables, ids, i - 1);
        assert(tables[(i - 1) + 1].len() == tables[i - 1].len() + 1);
    }
}

proof fn lemma_gas_settled(views: Seq<BuilderView>, rs: Seq<usize>, i: int)
    requires
        views.len() == rs.len() + 1,
        1 <= rs.len(),
        forall|k: int| 0 <= k < rs.len() ==> gas_call(views[k], #[trigger] views[k + 1], rs[k]),
        1 <= i < views.len(),
    ensures
        views[i] == views[1],
        i < rs.len() ==> rs[i] == rs[0],
    decreases i,
{
    assert(gas_call(views[0], views[0int + 1], rs[0]));
    if i > 1 {
        lemma_gas_settled(views, rs, i - 1);
        assert(gas_call(views[i - 1], views[(i - 1) + 1], rs[i - 1]));
    }
    if i < rs.len() {
        assert(gas_call(views[i], views[i + 1], rs[i]));
    }
}

/// Calling the gas accessor any number of times in a row returns one
/// identifier every time and allocates at most one entry in all.
pub proof fn gas_accessor_idempotent(views: Seq<BuilderView>, rs: Seq<usize>)
    requires
        views.len() == rs.len() + 1,
        1 <= rs.len(),
        forall|k: int| 0 <= k < rs.len() ==> gas_call(views[k], #[trigger] views[k + 1], rs[k]),
    ensures
        forall|k: int| 0 <= k < rs.len() ==> #[trigger] rs[k] == rs[0],
        views.last().entries.len() <= views[0].entries.len() + 1,
{
    assert forall|k: int| 0 <= k < rs.len() implies #[trigger] rs[k] == rs[0] by {
        if k > 0 {
            lemma_gas_settled(views, rs, k);
        }
    }
    lemma_gas_settled(views, rs, views.len() - 1);
    assert(gas_call(views[0], views[0int + 1], rs[0]));
}

/// Finalization never succeeds while an intent is pending: with no resolver,
/// a pending intent is reported as unresolvable offline before anything else.
pub proof fn pending_intents_block_finalization(v: BuilderView)
    ensures
        v.intents.len() > 0 ==> v.build_error() == Some(Error::UnresolvedIntentsOffline),
        v.build_error() is None ==> v.intents.len() == 0,
{
}

} // verus!
