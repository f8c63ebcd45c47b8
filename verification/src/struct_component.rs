//! The schedulable unit: a user callable, its one-shot input, its declared
//! parameters and their persisted state, and its access record.
//!
//! A component is constructed, initialized exactly once (registering every
//! parameter's footprint; a footprint conflict is an authoring error reported
//! right there), and then offered runs by an external scheduler. A run first
//! re-validates every declared parameter: if one is unavailable the component
//! reports "did not run" and stays eligible for a later round. Otherwise the
//! parameter values are extracted, the callable executes, and its mutable
//! configuration values, lock requests and queued commands are written back
//! to storage.

use vstd::prelude::*;

use crate::access::{ConflictError, MetaData};
use crate::error::EfiError;
use crate::params::{
    BaseParam, BaseState, Param, ParamKind, ParamState, ParamValue, RunMany, RunOnce, base_name,
    cfg_through, entry_access, entry_base, entry_conflict_at, first_conflict_entry,
    first_invalid_entry, items_through, kind_entries, kind_state_ok, kind_state_sts,
    kind_state_wf, kind_valid, lemma_entry_state_ok_stable_through, lemma_states_ok_wf,
    svc_through,
};
use crate::storage::{Command, ConfigSlot, ServiceSlot, Storage};

verus! {

/// The types a component may take as its one-shot input.
pub trait ComponentInput: Sized {

}

impl ComponentInput for () {

}

/// How often a component's callable may be invoked: exactly the distinction
/// between the [`RunOnce`] and [`RunMany`] markers.
pub trait InvocationMarker {
    /// Whether the callable consumes its input, so that it can run at most
    /// once.
    spec fn one_shot() -> bool;

    /// Exposes [`InvocationMarker::one_shot`] to executable code.
    fn is_one_shot() -> (b: bool)
        ensures
            b == Self::one_shot(),
    ;
}

impl InvocationMarker for RunOnce {
    open spec fn one_shot() -> bool {
        true
    }

    fn is_one_shot() -> (b: bool) {
        true
    }
}

impl InvocationMarker for RunMany {
    open spec fn one_shot() -> bool {
        false
    }

    fn is_one_shot() -> (b: bool) {
        false
    }
}

/// A user callable whose parameters are retrieved from storage before it
/// executes. Implementors declare their parameters, name themselves for
/// diagnostics, and consume the extracted values when run.
pub trait ParamFunction: Sized {
    /// The one-shot input type, `()` where there is none.
    type In: ComponentInput;

    /// The declared parameters, in order.
    fn param_spec(&self) -> Vec<ParamKind>;

    /// The component's name, for diagnostics.
    fn name(&self) -> &'static str;

    /// Runs the callable on its input and the extracted parameter values.
    /// What it does to them is its own business: the scheduler core makes no
    /// assumption about it.
    fn run(&mut self, input: &mut Option<Self::In>, params: &mut Vec<ParamValue>) -> Result<
        (),
        EfiError,
    >;
}

/// Every parameter's state resolves to its slot in storage.
pub open spec fn kinds_states_ok(
    ks: Seq<ParamKind>,
    sts: Seq<ParamState>,
    cs: Seq<ConfigSlot>,
    ss: Seq<ServiceSlot>,
) -> bool {
    sts.len() == ks.len() && forall|i: int|
        0 <= i < ks.len() ==> kind_state_ok(ks[i], #[trigger] sts[i], cs, ss)
}

/// Every parameter is available against `s`.
pub open spec fn kinds_valid(
    ks: Seq<ParamKind>,
    sts: Seq<ParamState>,
    s: Storage,
) -> bool {
    forall|i: int| 0 <= i < ks.len() ==> kind_valid(ks[i], #[trigger] sts[i], s)
}

/// The first parameter at or after position `i` that is unavailable.
pub open spec fn first_invalid_kind(
    ks: Seq<ParamKind>,
    sts: Seq<ParamState>,
    s: Storage,
    i: int,
) -> Option<int>
    decreases ks.len() - i,
{
    if i < 0 || i >= ks.len() || i >= sts.len() {
        None
    } else if !kind_valid(ks[i], sts[i], s) {
        Some(i)
    } else {
        first_invalid_kind(ks, sts, s, i + 1)
    }
}

/// The diagnostic name validation reports for an unavailable parameter: the
/// name of its first unavailable entry's kind.
pub open spec fn invalid_kind_name(k: ParamKind, st: ParamState, s: Storage) -> &'static str {
    base_name(
        entry_base(
            kind_entries(k)[first_invalid_entry(kind_entries(k), kind_state_sts(st), s, 0).unwrap()],
        ),
    )
}

/// The access record after the first `i` parameters have registered.
pub open spec fn items_through_kinds(
    items: Seq<crate::access::AccessKind>,
    ks: Seq<ParamKind>,
    i: int,
) -> Seq<crate::access::AccessKind>
    decreases i,
{
    if i <= 0 {
        items
    } else {
        let k = ks[i - 1];
        items_through(
            items_through_kinds(items, ks, i - 1),
            kind_entries(k),
            kind_entries(k).len() as int,
        )
    }
}

/// The configuration slots after the first `i` parameters have registered.
pub open spec fn cfg_through_kinds(cs: Seq<ConfigSlot>, ks: Seq<ParamKind>, i: int) -> Seq<
    ConfigSlot,
>
    decreases i,
{
    if i <= 0 {
        cs
    } else {
        let k = ks[i - 1];
        cfg_through(cfg_through_kinds(cs, ks, i - 1), kind_entries(k), kind_entries(k).len() as int)
    }
}

/// The service slots after the first `i` parameters have registered.
pub open spec fn svc_through_kinds(ss: Seq<ServiceSlot>, ks: Seq<ParamKind>, i: int) -> Seq<
    ServiceSlot,
>
    decreases i,
{
    if i <= 0 {
        ss
    } else {
        let k = ks[i - 1];
        svc_through(svc_through_kinds(ss, ks, i - 1), kind_entries(k), kind_entries(k).len() as int)
    }
}

/// Whether parameter `j` hits a conflict when it registers after the
/// parameters before it.
pub open spec fn kind_conflicts_at(
    items: Seq<crate::access::AccessKind>,
    ks: Seq<ParamKind>,
    j: int,
) -> bool {
    first_conflict_entry(items_through_kinds(items, ks, j), kind_entries(ks[j]), 0) is Some
}

/// The first parameter at or after position `i` whose registration hits a
/// conflict.
pub open spec fn first_conflict_kind(
    items: Seq<crate::access::AccessKind>,
    ks: Seq<ParamKind>,
    i: int,
) -> Option<int>
    decreases ks.len() - i,
{
    if i < 0 || i >= ks.len() {
        None
    } else if kind_conflicts_at(items, ks, i) {
        Some(i)
    } else {
        first_conflict_kind(items, ks, i + 1)
    }
}

/// The state of a whole parameter keeps resolving to the same slots while a
/// later parameter registers.
pub proof fn lemma_kind_state_ok_stable(
    k_done: ParamKind,
    st: ParamState,
    k_new: ParamKind,
    cs: Seq<ConfigSlot>,
    ss: Seq<ServiceSlot>,
)
    requires
        kind_state_ok(k_done, st, cs, ss),
    ensures
        kind_state_ok(
            k_done,
            st,
            cfg_through(cs, kind_entries(k_new), kind_entries(k_new).len() as int),
            svc_through(ss, kind_entries(k_new), kind_entries(k_new).len() as int),
        ),
{
    let es = kind_entries(k_done);
    let sts = kind_state_sts(st);
    let cs2 = cfg_through(cs, kind_entries(k_new), kind_entries(k_new).len() as int);
    let ss2 = svc_through(ss, kind_entries(k_new), kind_entries(k_new).len() as int);
    assert forall|i: int| 0 <= i < es.len() implies crate::params::entry_state_ok(
        es[i],
        #[trigger] sts[i],
        cs2,
        ss2,
    ) by {
        lemma_entry_state_ok_stable_through(
            es[i],
            sts[i],
            kind_entries(k_new),
            kind_entries(k_new).len() as int,
            cs,
            ss,
        );
    }
}

/// The slot at `slot` is declared mutably by the parameter state `st`.
pub open spec fn base_writes_slot(st: BaseState, slot: int) -> bool {
    match st {
        BaseState::ConfigMut { slot: s } => s as int == slot,
        _ => false,
    }
}

/// Some entry of the parameter state `st` declares `slot` mutably.
pub open spec fn state_writes_slot(st: ParamState, slot: int) -> bool {
    exists|p: int|
        0 <= p < kind_state_sts(st).len() && base_writes_slot(
            #[trigger] kind_state_sts(st)[p],
            slot,
        )
}

/// Some parameter among `sts` declares `slot` mutably.
pub open spec fn states_write_slot(sts: Seq<ParamState>, slot: int) -> bool {
    exists|j: int| 0 <= j < sts.len() && state_writes_slot(#[trigger] sts[j], slot)
}

/// Every mutable-configuration slot of the state is in range.
pub open spec fn state_bounds(st: ParamState, n: int) -> bool {
    forall|p: int|
        0 <= p < kind_state_sts(st).len() ==> match #[trigger] kind_state_sts(st)[p] {
            BaseState::ConfigMut { slot } => slot < n,
            _ => true,
        }
}

/// The configuration slots after one extracted base value is written back:
/// a mutable configuration value stores its value into its state's slot and
/// locks the slot exactly when a lock was requested; every other value
/// leaves the slots alone.
pub open spec fn base_written_cfg(st: BaseState, v: ParamValue, cs: Seq<ConfigSlot>) -> Seq<
    ConfigSlot,
> {
    match (st, v) {
        (BaseState::ConfigMut { slot }, ParamValue::ConfigMut(cm)) => if (slot as int) < cs.len() {
            cs.update(
                slot as int,
                ConfigSlot {
                    type_id: cs[slot as int].type_id,
                    value: cm.value,
                    locked: if cm.lock_requested {
                        true
                    } else {
                        cs[slot as int].locked
                    },
                },
            )
        } else {
            cs
        },
        _ => cs,
    }
}

/// The deferred queue after one extracted base value is written back: a
/// command-queue handle appends its queued commands, in their order; every
/// other value leaves the queue alone.
pub open spec fn base_written_deferred(st: BaseState, v: ParamValue, df: Seq<Command>) -> Seq<
    Command,
> {
    match (st, v) {
        (BaseState::Commands, ParamValue::Commands(c)) => df + c.queue@,
        _ => df,
    }
}

/// The configuration slots after a grouping's values are written back,
/// member by member in declared order, pairing each state with the value at
/// the same position; members past the shorter of the two lists write
/// nothing.
pub open spec fn group_written_cfg(
    sts: Seq<BaseState>,
    vs: Seq<ParamValue>,
    cs: Seq<ConfigSlot>,
    p: int,
) -> Seq<ConfigSlot>
    decreases sts.len() - p,
{
    if p < 0 || p >= sts.len() || p >= vs.len() {
        cs
    } else {
        group_written_cfg(sts, vs, base_written_cfg(sts[p], vs[p], cs), p + 1)
    }
}

/// The deferred queue after a grouping's values are written back, member by
/// member in declared order.
pub open spec fn group_written_deferred(
    sts: Seq<BaseState>,
    vs: Seq<ParamValue>,
    df: Seq<Command>,
    p: int,
) -> Seq<Command>
    decreases sts.len() - p,
{
    if p < 0 || p >= sts.len() || p >= vs.len() {
        df
    } else {
        group_written_deferred(sts, vs, base_written_deferred(sts[p], vs[p], df), p + 1)
    }
}

/// The configuration slots after one parameter's value is written back: a
/// single parameter writes as its base kind does, a grouping member by
/// member; a value whose shape does not match the state writes nothing.
pub open spec fn state_written_cfg(st: ParamState, v: ParamValue, cs: Seq<ConfigSlot>) -> Seq<
    ConfigSlot,
> {
    match (st, v) {
        (ParamState::Single(b), _) => base_written_cfg(b, v, cs),
        (ParamState::Group(sts), ParamValue::Group(vs)) => group_written_cfg(sts@, vs@, cs, 0),
        _ => cs,
    }
}

/// The deferred queue after one parameter's value is written back.
pub open spec fn state_written_deferred(st: ParamState, v: ParamValue, df: Seq<Command>) -> Seq<
    Command,
> {
    match (st, v) {
        (ParamState::Single(b), _) => base_written_deferred(b, v, df),
        (ParamState::Group(sts), ParamValue::Group(vs)) => group_written_deferred(sts@, vs@, df, 0),
        _ => df,
    }
}

/// The configuration slots after a whole run's values are written back,
/// parameter by parameter in declared order, pairing each parameter's state
/// with the value at the same position.
pub open spec fn all_written_cfg(
    sts: Seq<ParamState>,
    vs: Seq<ParamValue>,
    cs: Seq<ConfigSlot>,
    j: int,
) -> Seq<ConfigSlot>
    decreases sts.len() - j,
{
    if j < 0 || j >= sts.len() || j >= vs.len() {
        cs
    } else {
        all_written_cfg(sts, vs, state_written_cfg(sts[j], vs[j], cs), j + 1)
    }
}

/// The deferred queue after a whole run's values are written back,
/// parameter by parameter in declared order.
pub open spec fn all_written_deferred(
    sts: Seq<ParamState>,
    vs: Seq<ParamValue>,
    df: Seq<Command>,
    j: int,
) -> Seq<Command>
    decreases sts.len() - j,
{
    if j < 0 || j >= sts.len() || j >= vs.len() {
        df
    } else {
        all_written_deferred(sts, vs, state_written_deferred(sts[j], vs[j], df), j + 1)
    }
}

/// Writes one extracted base value back to storage: a mutable configuration
/// value overwrites its slot and applies a lock request; a command queue is
/// appended to storage's deferred queue. Everything else has nothing to
/// write.
fn write_back_base(st: &BaseState, v: ParamValue, storage: &mut Storage)
    requires
        old(storage).wf(),
        (match *st {
            BaseState::ConfigMut { slot } => slot < old(storage).configs@.len(),
            _ => true,
        }),
    ensures
        final(storage).wf(),
        final(storage).configs@ == base_written_cfg(*st, v, old(storage).configs@),
        final(storage).deferred@ == base_written_deferred(*st, v, old(storage).deferred@),
        final(storage).services@ == old(storage).services@,
        final(storage).boot_services == old(storage).boot_services,
        final(storage).runtime_services == old(storage).runtime_services,
        final(storage).configs@.len() == old(storage).configs@.len(),
        forall|i: int|
            0 <= i < old(storage).configs@.len() ==> final(storage).configs@[i].type_id == old(storage).configs@[i].type_id,
        forall|i: int|
            0 <= i < old(storage).configs@.len() && !base_writes_slot(*st, i) ==> final(storage).configs@[i] == old(storage).configs@[i],
        final(storage).deferred@.len() >= old(storage).deferred@.len(),
        forall|k: int|
            0 <= k < old(storage).deferred@.len() ==> final(storage).deferred@[k] == old(storage).deferred@[k],
{
    match (st, v) {
        (BaseState::ConfigMut { slot }, ParamValue::ConfigMut(cm)) => {
            storage.set_config_value(*slot, cm.value);
            if cm.lock_requested {
                storage.lock_config(*slot);
            }
            proof {
                assert(storage.configs@ =~= base_written_cfg(*st, v, old(storage).configs@));
            }
        },
        (BaseState::Commands, ParamValue::Commands(c)) => {
            storage.append_deferred(c.queue);
        },
        _ => {},
    }
}

/// Writes one parameter's extracted value back to storage, member by member
/// for a grouping.
fn write_back_state(st: &ParamState, v: ParamValue, storage: &mut Storage)
    requires
        old(storage).wf(),
        state_bounds(*st, old(storage).configs@.len() as int),
    ensures
        final(storage).wf(),
        final(storage).configs@ == state_written_cfg(*st, v, old(storage).configs@),
        final(storage).deferred@ == state_written_deferred(*st, v, old(storage).deferred@),
        final(storage).services@ == old(storage).services@,
        final(storage).boot_services == old(storage).boot_services,
        final(storage).runtime_services == old(storage).runtime_services,
        final(storage).configs@.len() == old(storage).configs@.len(),
        forall|i: int|
            0 <= i < old(storage).configs@.len() ==> final(storage).configs@[i].type_id == old(storage).configs@[i].type_id,
        forall|i: int|
            0 <= i < old(storage).configs@.len() && !state_writes_slot(*st, i) ==> final(storage).configs@[i] == old(storage).configs@[i],
        final(storage).deferred@.len() >= old(storage).deferred@.len(),
        forall|k: int|
            0 <= k < old(storage).deferred@.len() ==> final(storage).deferred@[k] == old(storage).deferred@[k],
{
    match (st, v) {
        (ParamState::Single(b), v) => {
            proof {
                assert(kind_state_sts(*st)[0] == *b);
            }
            write_back_base(b, v, storage);
            proof {
                assert forall|i: int|
                    0 <= i < old(storage).configs@.len() && !state_writes_slot(*st, i) implies
                    storage.configs@[i] == old(storage).configs@[i] by {
                    if base_writes_slot(*b, i) {
                        assert(base_writes_slot(kind_state_sts(*st)[0], i));
                        assert(state_writes_slot(*st, i));
                    }
                }
            }
        },
        (ParamState::Group(sts), ParamValue::Group(vs)) => {
            let ghost cs0 = storage.configs@;
            let ghost df0 = storage.deferred@;
            let mut vs = vs;
            let ghost vs0 = vs@;
            let mut p: usize = 0;
            while p < sts.len() && vs.len() != 0
                invariant
                    storage.wf(),
                    p <= sts@.len(),
                    kind_state_sts(*st) == sts@,
                    state_bounds(*st, cs0.len() as int),
                    cs0 == old(storage).configs@,
                    df0 == old(storage).deferred@,
                    vs@.len() + p == vs0.len(),
                    forall|k: int| 0 <= k < vs@.len() ==> #[trigger] vs@[k] == vs0[p + k],
                    group_written_cfg(sts@, vs0, cs0, 0) == group_written_cfg(
                        sts@,
                        vs0,
                        storage.configs@,
                        p as int,
                    ),
                    group_written_deferred(sts@, vs0, df0, 0) == group_written_deferred(
                        sts@,
                        vs0,
                        storage.deferred@,
                        p as int,
                    ),
                    storage.services@ == old(storage).services@,
                    storage.boot_services == old(storage).boot_services,
                    storage.runtime_services == old(storage).runtime_services,
                    storage.configs@.len() == cs0.len(),
                    forall|i: int|
                        0 <= i < cs0.len() ==> storage.configs@[i].type_id == cs0[i].type_id,
                    forall|i: int|
                        0 <= i < cs0.len() && !group_writes_prefix(sts@, p as int, i)
                            ==> storage.configs@[i] == cs0[i],
                    storage.deferred@.len() >= df0.len(),
                    forall|k: int| 0 <= k < df0.len() ==> storage.deferred@[k] == df0[k],
                decreases sts@.len() - p,
            {
                let b = sts[p];
                let ghost pre = vs@;
                let v0 = vs.remove(0);
                proof {
                    assert(kind_state_sts(*st)[p as int] == sts@[p as int]);
                    assert(pre[0] == vs0[p as int]);
                    assert(v0 == vs0[p as int]);
                    pre.remove_ensures(0);
                    assert forall|k: int| 0 <= k < vs@.len() implies #[trigger] vs@[k] == vs0[
                        p as int + 1 + k
                    ] by {
                        assert(vs@[k] == pre[k + 1]);
                        assert(pre[k + 1] == vs0[p as int + 1 + k]);
                    }
                }
                let ghost cs_mid = storage.configs@;
                let ghost df_mid = storage.deferred@;
                write_back_base(&b, v0, storage);
                proof {
                    assert(storage.configs@ == base_written_cfg(sts@[p as int], vs0[p as int], cs_mid));
                    assert(storage.deferred@ == base_written_deferred(sts@[p as int], vs0[p as int], df_mid));
                    assert forall|i: int|
                        0 <= i < cs0.len() && !group_writes_prefix(sts@, p as int + 1, i) implies
                        storage.configs@[i] == cs0[i] by {
                        assert(!group_writes_prefix(sts@, p as int, i));
                        assert(!base_writes_slot(sts@[p as int], i));
                        assert(cs_mid[i] == cs0[i]);
                    }
                }
                p = p + 1;
            }
            proof {
                assert(storage.configs@ =~= state_written_cfg(*st, v, cs0));
                assert(storage.deferred@ =~= state_written_deferred(*st, v, df0));
            }
            proof {
                assert forall|i: int|
                    0 <= i < cs0.len() && !state_writes_slot(*st, i) implies storage.configs@[i]
                    == cs0[i] by {
                    if group_writes_prefix(sts@, p as int, i) {
                        let q = choose|q: int| 0 <= q < p as int && base_writes_slot(
                            #[trigger] sts@[q],
                            i,
                        );
                        assert(base_writes_slot(kind_state_sts(*st)[q], i));
                        assert(state_writes_slot(*st, i));
                    }
                }
            }
        },
        _ => {},
    }
}

/// Some state among the first `p` declares `slot` mutably.
pub open spec fn group_writes_prefix(sts: Seq<BaseState>, p: int, slot: int) -> bool {
    exists|q: int| 0 <= q < p && base_writes_slot(#[trigger] sts[q], slot)
}

/// Some parameter among the first `j` declares `slot` mutably.
pub open spec fn kinds_write_prefix(sts: Seq<ParamState>, j: int, slot: int) -> bool {
    exists|q: int| 0 <= q < j && state_writes_slot(#[trigger] sts[q], slot)
}

/// A state consistent with storage has every mutable-configuration slot in
/// range.
pub proof fn lemma_state_ok_bounds(
    k: ParamKind,
    st: ParamState,
    cs: Seq<ConfigSlot>,
    ss: Seq<ServiceSlot>,
)
    requires
        kind_state_ok(k, st, cs, ss),
    ensures
        state_bounds(st, cs.len() as int),
{
    let es = kind_entries(k);
    let sts = kind_state_sts(st);
    assert forall|p: int| 0 <= p < sts.len() implies match #[trigger] sts[p] {
        BaseState::ConfigMut { slot } => slot < cs.len(),
        _ => true,
    } by {
        assert(crate::params::entry_state_ok(es[p], sts[p], cs, ss));
        crate::params::lemma_state_ok_wf(entry_base(es[p]), sts[p], cs, ss);
    }
}

/// A state consistent with storage is well formed against it.
pub proof fn lemma_kind_ok_wf(k: ParamKind, st: ParamState, cs: Seq<ConfigSlot>, ss: Seq<ServiceSlot>)
    requires
        kind_state_ok(k, st, cs, ss),
    ensures
        kind_state_wf(k, st, cs, ss),
{
    lemma_states_ok_wf(kind_entries(k), kind_state_sts(st), cs, ss);
}

/// Writing back a value sequence normalized to one value per parameter —
/// truncated past the parameter count, padded with empty values where the
/// sequence ran short — writes exactly what the sequence itself writes: an
/// empty value writes nothing.
pub proof fn lemma_all_written_normalized(
    sts: Seq<ParamState>,
    vs: Seq<ParamValue>,
    vsp: Seq<ParamValue>,
    cs: Seq<ConfigSlot>,
    df: Seq<Command>,
    j: int,
)
    requires
        0 <= j,
        vsp.len() == sts.len(),
        forall|k: int|
            0 <= k < vsp.len() ==> vsp[k] == (if k < vs.len() {
                vs[k]
            } else {
                ParamValue::Empty
            }),
    ensures
        all_written_cfg(sts, vsp, cs, j) == all_written_cfg(sts, vs, cs, j),
        all_written_deferred(sts, vsp, df, j) == all_written_deferred(sts, vs, df, j),
    decreases sts.len() - j,
{
    if j < sts.len() {
        if j < vs.len() {
            lemma_all_written_normalized(
                sts,
                vs,
                vsp,
                state_written_cfg(sts[j], vs[j], cs),
                state_written_deferred(sts[j], vs[j], df),
                j + 1,
            );
        } else {
            assert(state_written_cfg(sts[j], ParamValue::Empty, cs) == cs);
            assert(state_written_deferred(sts[j], ParamValue::Empty, df) == df);
            lemma_all_written_normalized(sts, vs, vsp, cs, df, j + 1);
        }
    }
}

/// The schedulable unit: a user callable plus its one-shot input, the
/// parameters it declared and their persisted state, and its access record.
/// `Marker` selects whether the callable consumes its input ([`RunOnce`], at
/// most one invocation) or borrows it ([`RunMany`], any number of rounds).
pub struct StructComponent<Marker, Func: ParamFunction> {
    /// The user callable.
    pub func: Func,
    /// The one-shot input; taken by the first invocation of a [`RunOnce`]
    /// component.
    pub input: Option<Func::In>,
    /// The declared parameters, in order.
    pub params: Vec<ParamKind>,
    /// Each parameter's persisted state, computed at initialization.
    pub param_state: Option<Vec<ParamState>>,
    /// The component's name, access record and diagnostics.
    pub metadata: MetaData,
    /// Carries the invocation marker.
    pub run_mode: core::marker::PhantomData<Marker>,
}

impl<Marker: InvocationMarker, Func: ParamFunction> StructComponent<Marker, Func> {
    /// A component wrapping `func` with its one-shot input, not yet
    /// initialized.
    pub fn new(func: Func, input: Func::In) -> (c: Self)
        ensures
            c.func == func,
            c.input == Some(input),
            c.param_state is None,
            c.metadata.access.items@.len() == 0,
            c.metadata.failed_param is None,
    {
        let name = func.name();
        let params = func.param_spec();
        StructComponent {
            func,
            input: Some(input),
            params,
            param_state: None,
            metadata: MetaData::new(name),
            run_mode: core::marker::PhantomData,
        }
    }

    /// The component's name, access record and last failed parameter.
    pub fn metadata(&self) -> (m: &MetaData)
        ensures
            *m == self.metadata,
    {
        &self.metadata
    }

    /// One-time initialization: registers every parameter's footprint with
    /// the access record, parameter by parameter in declared order, and
    /// computes the persisted states. The first footprint conflict aborts
    /// initialization with an error naming both accesses and the component.
    pub fn initialize(&mut self, storage: &mut Storage) -> (r: Result<(), ConflictError>)
        requires
            old(storage).wf(),
            old(self).param_state is None,
        ensures
            final(storage).wf(),
            final(storage).deferred@ == old(storage).deferred@,
            final(storage).boot_services == old(storage).boot_services,
            final(storage).runtime_services == old(storage).runtime_services,
            final(self).func == old(self).func,
            final(self).input == old(self).input,
            final(self).params == old(self).params,
            final(self).metadata.name == old(self).metadata.name,
            final(self).metadata.failed_param == old(self).metadata.failed_param,
            r is Ok <==> first_conflict_kind(
                old(self).metadata.access.items@,
                old(self).params@,
                0,
            ) is None,
            r is Ok ==> {
                &&& final(self).param_state is Some
                &&& kinds_states_ok(
                    final(self).params@,
                    final(self).param_state.unwrap()@,
                    final(storage).configs@,
                    final(storage).services@,
                )
                &&& final(storage).configs@ == cfg_through_kinds(
                    old(storage).configs@,
                    old(self).params@,
                    old(self).params@.len() as int,
                )
                &&& final(storage).services@ == svc_through_kinds(
                    old(storage).services@,
                    old(self).params@,
                    old(self).params@.len() as int,
                )
                &&& final(self).metadata.access.items@ == items_through_kinds(
                    old(self).metadata.access.items@,
                    old(self).params@,
                    old(self).params@.len() as int,
                )
            },
            r matches Err(e) ==> {
                let j = first_conflict_kind(
                    old(self).metadata.access.items@,
                    old(self).params@,
                    0,
                ).unwrap();
                let es = kind_entries(old(self).params@[j]);
                let itemsj = items_through_kinds(
                    old(self).metadata.access.items@,
                    old(self).params@,
                    j,
                );
                let p = first_conflict_entry(itemsj, es, 0).unwrap();
                &&& final(self).param_state is None
                &&& e.component == old(self).metadata.name
                &&& entry_access(es[p]) == Some(e.new_access)
                &&& entry_conflict_at(itemsj, es, p) == Some(e.prior_access)
            },
    {
        let ghost ks = self.params@;
        let ghost items0 = self.metadata.access.items@;
        let ghost cs0 = storage.configs@;
        let ghost ss0 = storage.services@;
        let mut states: Vec<ParamState> = Vec::new();
        let mut i: usize = 0;
        while i < self.params.len()
            invariant
                storage.wf(),
                i <= ks.len(),
                self.params@ == ks,
                ks == old(self).params@,
                items0 == old(self).metadata.access.items@,
                cs0 == old(storage).configs@,
                ss0 == old(storage).services@,
                self.func == old(self).func,
                self.input == old(self).input,
                self.params == old(self).params,
                self.param_state is None,
                self.metadata.name == old(self).metadata.name,
                self.metadata.failed_param == old(self).metadata.failed_param,
                storage.deferred@ == old(storage).deferred@,
                storage.boot_services == old(storage).boot_services,
                storage.runtime_services == old(storage).runtime_services,
                states@.len() == i as int,
                self.metadata.access.items@ == items_through_kinds(items0, ks, i as int),
                storage.configs@ == cfg_through_kinds(cs0, ks, i as int),
                storage.services@ == svc_through_kinds(ss0, ks, i as int),
                first_conflict_kind(items0, ks, 0) == first_conflict_kind(items0, ks, i as int),
                forall|j: int|
                    0 <= j < i as int ==> kind_state_ok(
                        ks[j],
                        #[trigger] states@[j],
                        storage.configs@,
                        storage.services@,
                    ),
            decreases ks.len() - i,
        {
            let ghost s_before = *storage;
            let r = self.params[i].init_state(storage, &mut self.metadata);
            match r {
                Ok(st) => {
                    proof {
                        assert(!kind_conflicts_at(items0, ks, i as int));
                        assert(first_conflict_kind(items0, ks, i as int) == first_conflict_kind(
                            items0,
                            ks,
                            i as int + 1,
                        ));
                        assert(self.metadata.access.items@ == items_through_kinds(
                            items0,
                            ks,
                            i as int + 1,
                        ));
                        assert(storage.configs@ == cfg_through_kinds(cs0, ks, i as int + 1));
                        assert(storage.services@ == svc_through_kinds(ss0, ks, i as int + 1));
                        assert forall|j: int| 0 <= j < i as int implies kind_state_ok(
                            ks[j],
                            #[trigger] states@[j],
                            storage.configs@,
                            storage.services@,
                        ) by {
                            lemma_kind_state_ok_stable(
                                ks[j],
                                states@[j],
                                ks[i as int],
                                s_before.configs@,
                                s_before.services@,
                            );
                        }
                    }
                    states.push(st);
                },
                Err(e) => {
                    proof {
                        assert(kind_conflicts_at(items0, ks, i as int));
                        assert(first_conflict_kind(items0, ks, i as int) == Some(i as int));
                        assert(first_conflict_kind(items0, ks, 0) == Some(i as int));
                    }
                    return Err(e);
                },
            }
            i = i + 1;
        }
        proof {
            assert(first_conflict_kind(items0, ks, ks.len() as int) is None);
        }
        self.param_state = Some(states);
        Ok(())
    }

    /// One scheduling attempt. A completed one-shot component reports "did
    /// not run" untouched. Otherwise every declared parameter is
    /// re-validated: on the first failure the parameter's name is recorded
    /// and the component reports "did not run", staying eligible for a later
    /// round. When all parameters are available their values are extracted,
    /// the callable executes, and its mutable configuration values, lock
    /// requests and queued commands are written back: the final storage is
    /// exactly the write-back, parameter by parameter in declared order, of
    /// the values the callable left. Configuration slots the component did
    /// not declare mutably are untouched, services are untouched, and queued
    /// commands are only appended, invisible until the scheduler applies
    /// them.
    pub fn run(&mut self, storage: &mut Storage) -> (r: Result<bool, EfiError>)
        requires
            old(storage).wf(),
            old(self).param_state is Some,
            kinds_states_ok(
                old(self).params@,
                old(self).param_state.unwrap()@,
                old(storage).configs@,
                old(storage).services@,
            ),
        ensures
            final(storage).wf(),
            final(self).params == old(self).params,
            final(self).param_state == old(self).param_state,
            final(self).metadata.name == old(self).metadata.name,
            final(self).metadata.access == old(self).metadata.access,
            final(storage).services@ == old(storage).services@,
            final(storage).boot_services == old(storage).boot_services,
            final(storage).runtime_services == old(storage).runtime_services,
            final(storage).configs@.len() == old(storage).configs@.len(),
            forall|i: int|
                0 <= i < old(storage).configs@.len() ==> final(storage).configs@[i].type_id == old(
                    storage,
                ).configs@[i].type_id,
            final(storage).deferred@.len() >= old(storage).deferred@.len(),
            forall|k: int|
                0 <= k < old(storage).deferred@.len() ==> final(storage).deferred@[k] == old(
                    storage,
                ).deferred@[k],
            (Marker::one_shot() && old(self).input is None) ==> {
                &&& r == Ok::<bool, EfiError>(false)
                &&& *final(storage) == *old(storage)
                &&& *final(self) == *old(self)
            },
            (!(Marker::one_shot() && old(self).input is None) && !kinds_valid(
                old(self).params@,
                old(self).param_state.unwrap()@,
                *old(storage),
            )) ==> {
                let j = first_invalid_kind(
                    old(self).params@,
                    old(self).param_state.unwrap()@,
                    *old(storage),
                    0,
                ).unwrap();
                &&& r == Ok::<bool, EfiError>(false)
                &&& *final(storage) == *old(storage)
                &&& final(self).input == old(self).input
                &&& final(self).func == old(self).func
                &&& final(self).metadata.failed_param == Some(
                    invalid_kind_name(
                        old(self).params@[j],
                        old(self).param_state.unwrap()@[j],
                        *old(storage),
                    ),
                )
            },
            (!(Marker::one_shot() && old(self).input is None) && kinds_valid(
                old(self).params@,
                old(self).param_state.unwrap()@,
                *old(storage),
            )) ==> {
                &&& (r is Ok ==> r == Ok::<bool, EfiError>(true))
                &&& (Marker::one_shot() ==> final(self).input is None)
                &&& final(self).metadata.failed_param == old(self).metadata.failed_param
                &&& forall|i: int|
                    0 <= i < old(storage).configs@.len() && !states_write_slot(
                        old(self).param_state.unwrap()@,
                        i,
                    ) ==> final(storage).configs@[i] == old(storage).configs@[i]
                &&& (exists|vs: Seq<ParamValue>|
                    {
                        &&& vs.len() == old(self).params@.len()
                        &&& #[trigger] all_written_cfg(
                            old(self).param_state.unwrap()@,
                            vs,
                            old(storage).configs@,
                            0,
                        ) == final(storage).configs@
                        &&& all_written_deferred(
                            old(self).param_state.unwrap()@,
                            vs,
                            old(storage).deferred@,
                            0,
                        ) == final(storage).deferred@
                    })
            },
    {
        if Marker::is_one_shot() && self.input.is_none() {
            return Ok(false);
        }
        let ghost ks = self.params@;
        let ghost sts_g = self.param_state.unwrap()@;
        let mut failed: Option<&'static str> = None;
        let mut i: usize = 0;
        while i < self.params.len() && failed.is_none()
            invariant
                *storage == *old(storage),
                *self == *old(self),
                storage.wf(),
                ks == old(self).params@,
                sts_g == old(self).param_state.unwrap()@,
                self.param_state is Some,
                kinds_states_ok(ks, sts_g, storage.configs@, storage.services@),
                i <= ks.len(),
                failed is None ==> forall|j: int|
                    0 <= j < i as int ==> kind_valid(ks[j], #[trigger] sts_g[j], *storage),
                failed is None ==> first_invalid_kind(ks, sts_g, *storage, 0) == first_invalid_kind(
                    ks,
                    sts_g,
                    *storage,
                    i as int,
                ),
                failed matches Some(n) ==> {
                    &&& first_invalid_kind(ks, sts_g, *storage, 0) is Some
                    &&& !kinds_valid(ks, sts_g, *storage)
                    &&& ({
                        let j = first_invalid_kind(ks, sts_g, *storage, 0).unwrap();
                        n == invalid_kind_name(ks[j], sts_g[j], *storage)
                    })
                },
            decreases ks.len() - i + (if failed is None {
                1int
            } else {
                0int
            }),
        {
            let states = match &self.param_state {
                Some(s) => s,
                None => unreached(),
            };
            proof {
                assert(kind_state_ok(ks[i as int], sts_g[i as int], storage.configs@, storage.services@));
                lemma_kind_ok_wf(ks[i as int], sts_g[i as int], storage.configs@, storage.services@);
            }
            match self.params[i].try_validate(&states[i], storage) {
                Ok(()) => {
                    i = i + 1;
                },
                Err(n) => {
                    proof {
                        assert(!kind_valid(ks[i as int], sts_g[i as int], *storage));
                        assert(first_invalid_kind(ks, sts_g, *storage, i as int) == Some(i as int));
                        assert(first_invalid_kind(ks, sts_g, *storage, 0) == Some(i as int));
                    }
                    failed = Some(n);
                },
            }
        }
        match failed {
            Some(n) => {
                self.metadata.set_failed_param(n);
                return Ok(false);
            },
            None => {},
        }
        proof {
            assert(first_invalid_kind(ks, sts_g, *storage, ks.len() as int) is None);
            assert(kinds_valid(ks, sts_g, *storage));
        }
        let mut values: Vec<ParamValue> = Vec::new();
        let mut i2: usize = 0;
        while i2 < self.params.len()
            invariant
                *storage == *old(storage),
                *self == *old(self),
                storage.wf(),
                ks == old(self).params@,
                sts_g == old(self).param_state.unwrap()@,
                self.param_state is Some,
                kinds_states_ok(ks, sts_g, storage.configs@, storage.services@),
                kinds_valid(ks, sts_g, *storage),
                i2 <= ks.len(),
                values@.len() == i2 as int,
            decreases ks.len() - i2,
        {
            let states = match &self.param_state {
                Some(s) => s,
                None => unreached(),
            };
            proof {
                assert(kind_state_ok(ks[i2 as int], sts_g[i2 as int], storage.configs@, storage.services@));
                lemma_kind_ok_wf(ks[i2 as int], sts_g[i2 as int], storage.configs@, storage.services@);
                assert(kind_valid(ks[i2 as int], sts_g[i2 as int], *storage));
            }
            let v = self.params[i2].get_param(&states[i2], storage);
            values.push(v);
            i2 = i2 + 1;
        }
        let res = self.func.run(&mut self.input, &mut values);
        if Marker::is_one_shot() {
            self.input = None;
        }
        let ghost vs_after = values@;
        let mut j: usize = 0;
        while j < self.params.len() && values.len() != 0
            invariant
                storage.wf(),
                ks == old(self).params@,
                sts_g == old(self).param_state.unwrap()@,
                self.params == old(self).params,
                self.params@ == ks,
                self.param_state == old(self).param_state,
                self.param_state is Some,
                self.metadata == old(self).metadata,
                Marker::one_shot() ==> self.input is None,
                j <= ks.len(),
                sts_g.len() == ks.len(),
                values@.len() + j == vs_after.len(),
                forall|k: int| 0 <= k < values@.len() ==> #[trigger] values@[k] == vs_after[j + k],
                all_written_cfg(sts_g, vs_after, old(storage).configs@, 0) == all_written_cfg(
                    sts_g,
                    vs_after,
                    storage.configs@,
                    j as int,
                ),
                all_written_deferred(sts_g, vs_after, old(storage).deferred@, 0)
                    == all_written_deferred(sts_g, vs_after, storage.deferred@, j as int),
                kinds_states_ok(ks, sts_g, old(storage).configs@, old(storage).services@),
                storage.services@ == old(storage).services@,
                storage.boot_services == old(storage).boot_services,
                storage.runtime_services == old(storage).runtime_services,
                storage.configs@.len() == old(storage).configs@.len(),
                forall|i: int|
                    0 <= i < old(storage).configs@.len() ==> storage.configs@[i].type_id == old(
                        storage,
                    ).configs@[i].type_id,
                forall|i: int|
                    0 <= i < old(storage).configs@.len() && !kinds_write_prefix(sts_g, j as int, i)
                        ==> storage.configs@[i] == old(storage).configs@[i],
                storage.deferred@.len() >= old(storage).deferred@.len(),
                forall|k: int|
                    0 <= k < old(storage).deferred@.len() ==> storage.deferred@[k] == old(
                        storage,
                    ).deferred@[k],
            decreases ks.len() - j,
        {
            let states = match &self.param_state {
                Some(s) => s,
                None => unreached(),
            };
            let ghost pre = values@;
            let v0 = values.remove(0);
            proof {
                assert(kind_state_ok(ks[j as int], sts_g[j as int], old(storage).configs@, old(storage).services@));
                lemma_state_ok_bounds(ks[j as int], sts_g[j as int], old(storage).configs@, old(storage).services@);
                assert(pre[0] == vs_after[j as int]);
                assert(v0 == vs_after[j as int]);
                pre.remove_ensures(0);
                assert forall|k: int| 0 <= k < values@.len() implies #[trigger] values@[k]
                    == vs_after[j as int + 1 + k] by {
                    assert(values@[k] == pre[k + 1]);
                    assert(pre[k + 1] == vs_after[j as int + 1 + k]);
                }
                assert(states@ == sts_g);
            }
            let ghost cs_mid = storage.configs@;
            let ghost df_mid = storage.deferred@;
            write_back_state(&states[j], v0, storage);
            proof {
                assert(storage.configs@ == state_written_cfg(
                    sts_g[j as int],
                    vs_after[j as int],
                    cs_mid,
                ));
                assert(storage.deferred@ == state_written_deferred(
                    sts_g[j as int],
                    vs_after[j as int],
                    df_mid,
                ));
                assert forall|i: int|
                    0 <= i < old(storage).configs@.len() && !kinds_write_prefix(
                        sts_g,
                        j as int + 1,
                        i,
                    ) implies storage.configs@[i] == old(storage).configs@[i] by {
                    assert(!kinds_write_prefix(sts_g, j as int, i));
                    assert(!state_writes_slot(sts_g[j as int], i));
                    assert(cs_mid[i] == old(storage).configs@[i]);
                }
            }
            j = j + 1;
        }
        proof {
            assert forall|i: int|
                0 <= i < old(storage).configs@.len() && !states_write_slot(sts_g, i) implies
                storage.configs@[i] == old(storage).configs@[i] by {
                if kinds_write_prefix(sts_g, j as int, i) {
                    let q = choose|q: int|
                        0 <= q < j as int && state_writes_slot(#[trigger] sts_g[q], i);
                    assert(states_write_slot(sts_g, i));
                }
            }
            assert(all_written_cfg(sts_g, vs_after, storage.configs@, j as int)
                == storage.configs@);
            assert(all_written_deferred(sts_g, vs_after, storage.deferred@, j as int)
                == storage.deferred@);
            assert(all_written_cfg(sts_g, vs_after, old(storage).configs@, 0)
                == storage.configs@);
            assert(all_written_deferred(sts_g, vs_after, old(storage).deferred@, 0)
                == storage.deferred@);
            let vsp = Seq::new(
                sts_g.len(),
                |k: int|
                    if 0 <= k < vs_after.len() {
                        vs_after[k]
                    } else {
                        ParamValue::Empty
                    },
            );
            lemma_all_written_normalized(
                sts_g,
                vs_after,
                vsp,
                old(storage).configs@,
                old(storage).deferred@,
                0,
            );
            assert(all_written_cfg(sts_g, vsp, old(storage).configs@, 0) == storage.configs@);
            assert(all_written_deferred(sts_g, vsp, old(storage).deferred@, 0)
                == storage.deferred@);
        }
        match res {
            Ok(()) => Ok(true),
            Err(e) => Err(e),
        }
    }
}

/// Recording one more entry keeps every already-recorded access.
pub proof fn lemma_items_plus_preserves(
    items: Seq<crate::access::AccessKind>,
    e: crate::params::ParamEntry,
    a: crate::access::AccessKind,
)
    requires
        items.contains(a),
    ensures
        crate::params::items_plus_entry(items, e).contains(a),
{
    let w = choose|w: int| 0 <= w < items.len() && items[w] == a;
    match entry_access(e) {
        Some(b) => {
            assert(items.push(b)[w] == a);
        },
        None => {},
    }
}

/// Recording a sequence of entries keeps every already-recorded access.
pub proof fn lemma_items_through_preserves(
    items: Seq<crate::access::AccessKind>,
    es: Seq<crate::params::ParamEntry>,
    i: int,
    a: crate::access::AccessKind,
)
    requires
        0 <= i,
        items.contains(a),
    ensures
        items_through(items, es, i).contains(a),
    decreases i,
{
    if i > 0 {
        lemma_items_through_preserves(items, es, i - 1, a);
        lemma_items_plus_preserves(items_through(items, es, i - 1), es[i - 1], a);
    }
}

/// The access an entry declares is in the record once that entry and those
/// before it have registered.
pub proof fn lemma_items_through_adds(
    items: Seq<crate::access::AccessKind>,
    es: Seq<crate::params::ParamEntry>,
    i: int,
    p: int,
    a: crate::access::AccessKind,
)
    requires
        0 <= p < i,
        entry_access(es[p]) == Some(a),
    ensures
        items_through(items, es, i).contains(a),
    decreases i,
{
    if p == i - 1 {
        let prev = items_through(items, es, i - 1);
        assert(items_through(items, es, i) == prev.push(a));
        assert(prev.push(a)[prev.len() as int] == a);
    } else {
        lemma_items_through_adds(items, es, i - 1, p, a);
        lemma_items_plus_preserves(items_through(items, es, i - 1), es[i - 1], a);
    }
}

/// Registering a sequence of parameters keeps every already-recorded access.
pub proof fn lemma_items_through_kinds_preserves(
    items: Seq<crate::access::AccessKind>,
    ks: Seq<ParamKind>,
    i: int,
    a: crate::access::AccessKind,
)
    requires
        0 <= i,
        items.contains(a),
    ensures
        items_through_kinds(items, ks, i).contains(a),
    decreases i,
{
    if i > 0 {
        lemma_items_through_kinds_preserves(items, ks, i - 1, a);
        let k = ks[i - 1];
        lemma_items_through_preserves(
            items_through_kinds(items, ks, i - 1),
            kind_entries(k),
            kind_entries(k).len() as int,
            a,
        );
    }
}

/// The access an entry of parameter `j` declares is in the record once the
/// first `i > j` parameters have registered.
pub proof fn lemma_items_through_kinds_adds(
    items: Seq<crate::access::AccessKind>,
    ks: Seq<ParamKind>,
    i: int,
    j: int,
    p: int,
    a: crate::access::AccessKind,
)
    requires
        0 <= j < i <= ks.len(),
        0 <= p < kind_entries(ks[j]).len(),
        entry_access(kind_entries(ks[j])[p]) == Some(a),
    ensures
        items_through_kinds(items, ks, i).contains(a),
    decreases i,
{
    if j == i - 1 {
        lemma_items_through_adds(
            items_through_kinds(items, ks, i - 1),
            kind_entries(ks[j]),
            kind_entries(ks[j]).len() as int,
            p,
            a,
        );
    } else {
        lemma_items_through_kinds_adds(items, ks, i - 1, j, p, a);
        lemma_items_through_kinds_preserves_step(items, ks, i, a);
    }
}

/// One registration step keeps a recorded access, at kind level.
proof fn lemma_items_through_kinds_preserves_step(
    items: Seq<crate::access::AccessKind>,
    ks: Seq<ParamKind>,
    i: int,
    a: crate::access::AccessKind,
)
    requires
        0 < i,
        items_through_kinds(items, ks, i - 1).contains(a),
    ensures
        items_through_kinds(items, ks, i).contains(a),
{
    let k = ks[i - 1];
    lemma_items_through_preserves(
        items_through_kinds(items, ks, i - 1),
        kind_entries(k),
        kind_entries(k).len() as int,
        a,
    );
}

/// If some entry at or after position `m` hits a conflict, the scan from
/// `m` reports one.
pub proof fn lemma_conflict_entry_found(
    items: Seq<crate::access::AccessKind>,
    es: Seq<crate::params::ParamEntry>,
    m: int,
    p: int,
)
    requires
        0 <= m <= p < es.len(),
        entry_conflict_at(items, es, p) is Some,
    ensures
        first_conflict_entry(items, es, m) is Some,
    decreases p - m,
{
    if m < p && entry_conflict_at(items, es, m) is None {
        lemma_conflict_entry_found(items, es, m + 1, p);
    }
}

/// If some parameter at or after position `m` hits a conflict, the scan
/// from `m` reports one.
pub proof fn lemma_conflict_kind_found(
    items: Seq<crate::access::AccessKind>,
    ks: Seq<ParamKind>,
    m: int,
    j: int,
)
    requires
        0 <= m <= j < ks.len(),
        kind_conflicts_at(items, ks, j),
    ensures
        first_conflict_kind(items, ks, m) is Some,
    decreases j - m,
{
    if m < j && !kind_conflicts_at(items, ks, m) {
        lemma_conflict_kind_found(items, ks, m + 1, j);
    }
}

/// Two conflicting access declarations within one component make its
/// initialization abort, whatever its other declarations are: the earlier
/// one is recorded by the time the later one registers, and the later
/// registration then reports a conflict.
pub proof fn lemma_conflicting_declarations_abort(
    items0: Seq<crate::access::AccessKind>,
    ks: Seq<ParamKind>,
    j1: int,
    p1: int,
    j2: int,
    p2: int,
    a1: crate::access::AccessKind,
    a2: crate::access::AccessKind,
)
    requires
        0 <= j1 <= j2 < ks.len(),
        0 <= p1 < kind_entries(ks[j1]).len(),
        0 <= p2 < kind_entries(ks[j2]).len(),
        j1 == j2 ==> p1 < p2,
        entry_access(kind_entries(ks[j1])[p1]) == Some(a1),
        entry_access(kind_entries(ks[j2])[p2]) == Some(a2),
        crate::access::pair_conflicts(a1, a2),
    ensures
        first_conflict_kind(items0, ks, 0) is Some,
{
    let items_j2 = items_through_kinds(items0, ks, j2);
    let es2 = kind_entries(ks[j2]);
    let record = items_through(items_j2, es2, p2);
    if j1 < j2 {
        lemma_items_through_kinds_adds(items0, ks, j2, j1, p1, a1);
        lemma_items_through_preserves(items_j2, es2, p2, a1);
    } else {
        lemma_items_through_adds(items_j2, es2, p2, p1, a1);
    }
    assert(record.contains(a1));
    let w = choose|w: int| 0 <= w < record.len() && record[w] == a1;
    crate::access::lemma_first_conflict_iff(record, a2, 0);
    assert(crate::access::spec_first_conflict(record, a2) is Some);
    assert(entry_conflict_at(items_j2, es2, p2) is Some);
    lemma_conflict_entry_found(items_j2, es2, 0, p2);
    lemma_conflict_kind_found(items0, ks, 0, j2);
}

/// Declaring two mutable accesses to the same configuration type aborts
/// initialization, whatever stands between or around the two declarations
/// and whatever was recorded before them.
pub proof fn lemma_two_config_mut_abort(
    items0: Seq<crate::access::AccessKind>,
    ks: Seq<ParamKind>,
    t: u64,
    j1: int,
    p1: int,
    j2: int,
    p2: int,
)
    requires
        0 <= j1 <= j2 < ks.len(),
        0 <= p1 < kind_entries(ks[j1]).len(),
        0 <= p2 < kind_entries(ks[j2]).len(),
        j1 == j2 ==> p1 < p2,
        entry_base(kind_entries(ks[j1])[p1]) == (BaseParam::ConfigMut { type_id: t }),
        entry_base(kind_entries(ks[j2])[p2]) == (BaseParam::ConfigMut { type_id: t }),
    ensures
        first_conflict_kind(items0, ks, 0) is Some,
{
    lemma_conflicting_declarations_abort(
        items0,
        ks,
        j1,
        p1,
        j2,
        p2,
        crate::access::AccessKind::ConfigWrite { type_id: t },
        crate::access::AccessKind::ConfigWrite { type_id: t },
    );
}

/// Declaring one mutable and one read-only access to the same configuration
/// type aborts initialization, in whichever order the two are declared.
pub proof fn lemma_config_mut_and_read_abort(
    items0: Seq<crate::access::AccessKind>,
    ks: Seq<ParamKind>,
    t: u64,
    j1: int,
    p1: int,
    j2: int,
    p2: int,
)
    requires
        0 <= j1 <= j2 < ks.len(),
        0 <= p1 < kind_entries(ks[j1]).len(),
        0 <= p2 < kind_entries(ks[j2]).len(),
        j1 == j2 ==> p1 < p2,
        (entry_base(kind_entries(ks[j1])[p1]) == (BaseParam::ConfigMut { type_id: t })
            && entry_base(kind_entries(ks[j2])[p2]) == (BaseParam::Config { type_id: t })) || (
        entry_base(kind_entries(ks[j1])[p1]) == (BaseParam::Config { type_id: t })
            && entry_base(kind_entries(ks[j2])[p2]) == (BaseParam::ConfigMut { type_id: t })),
    ensures
        first_conflict_kind(items0, ks, 0) is Some,
{
    if entry_base(kind_entries(ks[j1])[p1]) == (BaseParam::ConfigMut { type_id: t }) {
        lemma_conflicting_declarations_abort(
            items0,
            ks,
            j1,
            p1,
            j2,
            p2,
            crate::access::AccessKind::ConfigWrite { type_id: t },
            crate::access::AccessKind::ConfigRead { type_id: t },
        );
    } else {
        lemma_conflicting_declarations_abort(
            items0,
            ks,
            j1,
            p1,
            j2,
            p2,
            crate::access::AccessKind::ConfigRead { type_id: t },
            crate::access::AccessKind::ConfigWrite { type_id: t },
        );
    }
}

/// Declaring two deferred-command handles aborts initialization.
pub proof fn lemma_two_commands_abort(
    items0: Seq<crate::access::AccessKind>,
    ks: Seq<ParamKind>,
    j1: int,
    p1: int,
    j2: int,
    p2: int,
)
    requires
        0 <= j1 <= j2 < ks.len(),
        0 <= p1 < kind_entries(ks[j1]).len(),
        0 <= p2 < kind_entries(ks[j2]).len(),
        j1 == j2 ==> p1 < p2,
        entry_base(kind_entries(ks[j1])[p1]) == BaseParam::Commands,
        entry_base(kind_entries(ks[j2])[p2]) == BaseParam::Commands,
    ensures
        first_conflict_kind(items0, ks, 0) is Some,
{
    lemma_conflicting_declarations_abort(
        items0,
        ks,
        j1,
        p1,
        j2,
        p2,
        crate::access::AccessKind::Deferred,
        crate::access::AccessKind::Deferred,
    );
}

/// An initialized component stays initialized across rounds: applying the
/// deferred commands between rounds moves no slot, so every parameter's
/// state still resolves to its slot afterwards.
pub proof fn lemma_states_survive_apply_deferred(
    ks: Seq<ParamKind>,
    sts: Seq<ParamState>,
    cs: Seq<ConfigSlot>,
    ss: Seq<ServiceSlot>,
    cmds: Seq<crate::storage::Command>,
    i: int,
)
    requires
        0 <= i <= cmds.len(),
        kinds_states_ok(ks, sts, cs, ss),
    ensures
        kinds_states_ok(
            ks,
            sts,
            crate::storage::apply_cmds_cfg(cs, cmds, i),
            crate::storage::apply_cmds_svc(ss, cmds, i),
        ),
    decreases cmds.len() - i,
{
    if i < cmds.len() {
        match cmds[i] {
            crate::storage::Command::AddConfig { type_id, value } => {
                lemma_states_survive_one_command(
                    ks,
                    sts,
                    cs,
                    ss,
                    crate::storage::spec_add_config(cs, type_id, value),
                    ss,
                    type_id,
                    value,
                    true,
                );
                lemma_states_survive_apply_deferred(
                    ks,
                    sts,
                    crate::storage::spec_add_config(cs, type_id, value),
                    ss,
                    cmds,
                    i + 1,
                );
            },
            crate::storage::Command::AddService { type_id, service } => {
                lemma_states_survive_one_command(
                    ks,
                    sts,
                    cs,
                    ss,
                    cs,
                    crate::storage::spec_add_service(ss, type_id, service),
                    type_id,
                    service,
                    false,
                );
                lemma_states_survive_apply_deferred(
                    ks,
                    sts,
                    cs,
                    crate::storage::spec_add_service(ss, type_id, service),
                    cmds,
                    i + 1,
                );
            },
        }
    }
}

/// One deferred command moves no slot, so every parameter's state still
/// resolves afterwards.
proof fn lemma_states_survive_one_command(
    ks: Seq<ParamKind>,
    sts: Seq<ParamState>,
    cs: Seq<ConfigSlot>,
    ss: Seq<ServiceSlot>,
    cs2: Seq<ConfigSlot>,
    ss2: Seq<ServiceSlot>,
    type_id: u64,
    value: u64,
    is_config: bool,
)
    requires
        kinds_states_ok(ks, sts, cs, ss),
        is_config ==> cs2 == crate::storage::spec_add_config(cs, type_id, value) && ss2 == ss,
        !is_config ==> cs2 == cs && ss2 == crate::storage::spec_add_service(ss, type_id, value),
    ensures
        kinds_states_ok(ks, sts, cs2, ss2),
{
    assert forall|i: int| 0 <= i < ks.len() implies kind_state_ok(
        ks[i],
        #[trigger] sts[i],
        cs2,
        ss2,
    ) by {
        let es = kind_entries(ks[i]);
        let bsts = kind_state_sts(sts[i]);
        assert forall|p: int| 0 <= p < es.len() implies crate::params::entry_state_ok(
            es[p],
            #[trigger] bsts[p],
            cs2,
            ss2,
        ) by {
            assert(crate::params::entry_state_ok(es[p], bsts[p], cs, ss));
            match entry_base(es[p]) {
                BaseParam::Config { type_id: t } | BaseParam::ConfigMut { type_id: t } => {
                    if is_config {
                        crate::storage::lemma_find_cfg_stable_add(cs, type_id, value, t);
                    }
                },
                BaseParam::Service { type_id: t } => {
                    if !is_config {
                        crate::storage::lemma_find_svc_stable_add(ss, type_id, value, t);
                    }
                },
                _ => {},
            }
        }
    }
}

/// An initialized component is untouched by another component's run: a run
/// changes configuration values and locked flags only, never a slot's type
/// or position, and never a service slot, so every parameter's state still
/// resolves to its slot afterwards.
pub proof fn lemma_states_survive_other_run(
    ks: Seq<ParamKind>,
    sts: Seq<ParamState>,
    cs1: Seq<ConfigSlot>,
    cs2: Seq<ConfigSlot>,
    ss: Seq<ServiceSlot>,
)
    requires
        kinds_states_ok(ks, sts, cs1, ss),
        cs1.len() == cs2.len(),
        forall|i: int| 0 <= i < cs1.len() ==> cs1[i].type_id == cs2[i].type_id,
    ensures
        kinds_states_ok(ks, sts, cs2, ss),
{
    assert forall|i: int| 0 <= i < ks.len() implies kind_state_ok(
        ks[i],
        #[trigger] sts[i],
        cs2,
        ss,
    ) by {
        let es = kind_entries(ks[i]);
        let bsts = kind_state_sts(sts[i]);
        assert forall|p: int| 0 <= p < es.len() implies crate::params::entry_state_ok(
            es[p],
            #[trigger] bsts[p],
            cs2,
            ss,
        ) by {
            assert(crate::params::entry_state_ok(es[p], bsts[p], cs1, ss));
            match entry_base(es[p]) {
                BaseParam::Config { type_id: t } | BaseParam::ConfigMut { type_id: t } => {
                    crate::storage::lemma_find_unchanged_cfg(cs1, cs2, t, 0);
                },
                _ => {},
            }
        }
    }
}

} // verus!
