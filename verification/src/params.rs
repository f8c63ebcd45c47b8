//! Parameters: the capability abstraction for values derived from storage.
//!
//! A component declares its parameters as a list of [`ParamKind`]
//! descriptors. Every kind knows how to register its footprint with the
//! component's access record ([`Param::init_state`], run once), how to check
//! cheaply whether its value is currently derivable ([`Param::validate`]),
//! and how to extract the value ([`Param::get_param`], called only after a
//! successful validation).
//!
//! The built-in kinds and when they are valid:
//! - a read-only configuration value ([`Config`]): when its slot is locked;
//! - a mutable configuration value ([`ConfigMut`]): when its slot is
//!   unlocked; declaring it unlocks the slot at registration;
//! - a service handle ([`crate::service::Service`]): when the service has
//!   been published;
//! - a deferred-command queue handle ([`Commands`]): always;
//! - whole-storage access, read-only or mutable: always;
//! - the boot- or runtime-services table: when the table is installed;
//! - an optional wrapper around any of these: always, extracting empty when
//!   the wrapped parameter is itself unavailable;
//! - a grouping of up to five entries: when every member is valid, members
//!   registered and checked in declared order.

use vstd::prelude::*;

use crate::access::{AccessKind, ConflictError, MetaData, spec_first_conflict};
use crate::service::Service;
use crate::storage::{
    Command, ConfigSlot, ServiceSlot, Storage, cfg_locked, find_cfg, find_svc, has_cfg, has_svc,
    lemma_find_cfg_props, lemma_find_cfg_push, lemma_find_svc_props, lemma_find_svc_push,
    lemma_find_unchanged_cfg,
};

verus! {

/// A marker for components whose callable takes ownership of its input: such
/// a component can run at most once.
pub struct RunOnce;

/// A marker for components whose callable borrows its input: such a
/// component may run in any number of rounds.
pub struct RunMany;

/// A basic, unwrapped parameter kind.
#[derive(Clone, Copy, Debug, PartialEq, Eq, Structural)]
pub enum BaseParam {
    /// Read-only configuration value of the type named by `type_id`.
    Config { type_id: u64 },
    /// Mutable configuration value of the type named by `type_id`.
    ConfigMut { type_id: u64 },
    /// Handle to the published service of the interface named by `type_id`.
    Service { type_id: u64 },
    /// Handle to the deferred-command queue.
    Commands,
    /// Read-only access to the whole storage.
    StorageRead,
    /// Mutable access to the whole storage.
    StorageWrite,
    /// The boot-services table.
    BootServices,
    /// The runtime-services table.
    RuntimeServices,
}

/// One declared parameter: a basic kind, either required or wrapped in an
/// option so that the component runs even while the kind is unavailable.
#[derive(Clone, Copy, Debug, PartialEq, Eq, Structural)]
pub enum ParamEntry {
    /// The component runs only when this parameter is available.
    Required(BaseParam),
    /// The component always runs; extraction yields empty when the wrapped
    /// parameter is unavailable.
    Optional(BaseParam),
}

/// A component parameter: a single entry, or a fixed grouping of entries
/// registered and validated in declared order.
#[derive(Clone, Debug, PartialEq, Eq)]
pub enum ParamKind {
    /// One parameter.
    Single(ParamEntry),
    /// A grouping of parameters, treated as one.
    Group(Vec<ParamEntry>),
}

/// The state one basic parameter keeps across runs: the slot index it
/// resolved to at registration, where it uses one.
#[derive(Clone, Copy, Debug, PartialEq, Eq, Structural)]
pub enum BaseState {
    Config { slot: usize },
    ConfigMut { slot: usize },
    Service { slot: usize },
    Commands,
    StorageRead,
    StorageWrite,
    BootServices,
    RuntimeServices,
}

/// The persisted state of one declared parameter.
#[derive(Clone, Debug, PartialEq, Eq)]
pub enum ParamState {
    Single(BaseState),
    Group(Vec<BaseState>),
}

/// An extracted read-only configuration value.
#[derive(Clone, Copy, Debug, PartialEq, Eq, Structural)]
pub struct Config {
    /// The slot the value was read from.
    pub slot: usize,
    /// The configuration value.
    pub value: u64,
}

impl Config {
    /// A configuration value for use outside storage, as in tests of a
    /// component's callable.
    pub fn mock(value: u64) -> (c: Config)
        ensures
            c.value == value,
    {
        Config { slot: 0, value }
    }

    /// The configuration value.
    pub fn get(&self) -> (v: u64)
        ensures
            v == self.value,
    {
        self.value
    }
}

/// An extracted mutable configuration value. Changes made through it, and a
/// lock request, are written back to storage when the component's run
/// completes.
#[derive(Clone, Copy, Debug, PartialEq, Eq, Structural)]
pub struct ConfigMut {
    /// The slot the value belongs to.
    pub slot: usize,
    /// The configuration value.
    pub value: u64,
    /// Whether the slot is to be locked when the run completes.
    pub lock_requested: bool,
}

impl ConfigMut {
    /// A mutable configuration value for use outside storage, as in tests of
    /// a component's callable.
    pub fn mock(value: u64) -> (c: ConfigMut)
        ensures
            c.value == value,
            !c.lock_requested,
    {
        ConfigMut { slot: 0, value, lock_requested: false }
    }

    /// The configuration value.
    pub fn get(&self) -> (v: u64)
        ensures
            v == self.value,
    {
        self.value
    }

    /// Overwrites the configuration value.
    pub fn set(&mut self, value: u64)
        ensures
            final(self).value == value,
            final(self).slot == old(self).slot,
            final(self).lock_requested == old(self).lock_requested,
    {
        self.value = value;
    }

    /// Requests that the underlying slot be locked once the component's run
    /// completes, preventing further changes and allowing read-only use.
    pub fn lock(&mut self)
        ensures
            final(self).lock_requested,
            final(self).slot == old(self).slot,
            final(self).value == old(self).value,
    {
        self.lock_requested = true;
    }
}

/// An extracted handle to the deferred-command queue. Commands added here
/// are appended to storage's queue when the component's run completes and
/// take effect only when the external scheduler applies them.
#[derive(Clone, Debug, PartialEq, Eq)]
pub struct Commands {
    /// The commands queued during this run, in order.
    pub queue: Vec<Command>,
}

impl Commands {
    /// Queues a configuration insert for `type_id`.
    pub fn add_config(&mut self, type_id: u64, value: u64)
        ensures
            final(self).queue@ == old(self).queue@.push(Command::AddConfig { type_id, value }),
    {
        self.queue.push(Command::AddConfig { type_id, value });
    }

    /// Queues a service publication for `type_id`.
    pub fn add_service(&mut self, type_id: u64, service: u64)
        ensures
            final(self).queue@ == old(self).queue@.push(Command::AddService { type_id, service }),
    {
        self.queue.push(Command::AddService { type_id, service });
    }

    /// A queue handle detached from any storage, as in tests of a
    /// component's callable.
    pub fn mock() -> (c: Commands)
        ensures
            c.queue@.len() == 0,
    {
        Commands { queue: Vec::new() }
    }

    /// Whether no command has been queued.
    pub fn is_empty(&self) -> (r: bool)
        ensures
            r == (self.queue@.len() == 0),
    {
        self.queue.len() == 0
    }
}

/// A value extracted for one declared parameter.
#[derive(Debug)]
pub enum ParamValue {
    Config(Config),
    ConfigMut(ConfigMut),
    Commands(Commands),
    Service(Service),
    /// Whole-storage read access; the run itself carries the storage.
    Storage,
    /// Whole-storage mutable access; the run itself carries the storage.
    StorageMut,
    BootServices(u64),
    RuntimeServices(u64),
    /// An optional parameter whose wrapped kind was unavailable.
    Empty,
    Group(Vec<ParamValue>),
}

/// The access one basic kind declares, if any. Service handles and the
/// firmware tables are read-only values without aliasing risk, so they
/// declare nothing.
pub open spec fn base_access(b: BaseParam) -> Option<AccessKind> {
    match b {
        BaseParam::Config { type_id } => Some(AccessKind::ConfigRead { type_id }),
        BaseParam::ConfigMut { type_id } => Some(AccessKind::ConfigWrite { type_id }),
        BaseParam::Commands => Some(AccessKind::Deferred),
        BaseParam::StorageRead => Some(AccessKind::AllConfigsRead),
        BaseParam::StorageWrite => Some(AccessKind::AllConfigsWrite),
        BaseParam::Service { .. } => None,
        BaseParam::BootServices => None,
        BaseParam::RuntimeServices => None,
    }
}

/// The basic kind inside an entry.
pub open spec fn entry_base(e: ParamEntry) -> BaseParam {
    match e {
        ParamEntry::Required(b) => b,
        ParamEntry::Optional(b) => b,
    }
}

/// The access one entry declares: an optional wrapper delegates to the
/// wrapped kind.
pub open spec fn entry_access(e: ParamEntry) -> Option<AccessKind> {
    base_access(entry_base(e))
}

/// Registering `b` does not conflict with the record `items`.
pub open spec fn base_entry_ok(items: Seq<AccessKind>, b: BaseParam) -> bool {
    match base_access(b) {
        Some(a) => spec_first_conflict(items, a) is None,
        None => true,
    }
}

/// The record after `b` registers.
pub open spec fn items_plus_base(items: Seq<AccessKind>, b: BaseParam) -> Seq<AccessKind> {
    match base_access(b) {
        Some(a) => items.push(a),
        None => items,
    }
}

/// Registering configuration type `type_id` with its default value if
/// absent.
pub open spec fn spec_add_default(cs: Seq<ConfigSlot>, type_id: u64) -> Seq<ConfigSlot> {
    if has_cfg(cs, type_id) {
        cs
    } else {
        cs.push(ConfigSlot { type_id, value: 0, locked: true })
    }
}

/// Unlocking the slot of configuration type `type_id`, where present.
pub open spec fn spec_unlock(cs: Seq<ConfigSlot>, type_id: u64) -> Seq<ConfigSlot> {
    match find_cfg(cs, type_id) {
        Some(i) => cs.update(
            i,
            ConfigSlot { type_id: cs[i].type_id, value: cs[i].value, locked: false },
        ),
        None => cs,
    }
}

/// Registering a service slot for interface `type_id` if absent, without
/// publishing.
pub open spec fn spec_register_svc(ss: Seq<ServiceSlot>, type_id: u64) -> Seq<ServiceSlot> {
    if has_svc(ss, type_id) {
        ss
    } else {
        ss.push(ServiceSlot { type_id, service: None })
    }
}

/// What registering one basic kind does to the configuration slots: a
/// read-only configuration locates or creates its slot; a mutable one also
/// unlocks it; other kinds leave the slots alone.
pub open spec fn base_init_cfg(cs: Seq<ConfigSlot>, b: BaseParam) -> Seq<ConfigSlot> {
    match b {
        BaseParam::Config { type_id } => spec_add_default(cs, type_id),
        BaseParam::ConfigMut { type_id } => spec_unlock(spec_add_default(cs, type_id), type_id),
        _ => cs,
    }
}

/// What registering one basic kind does to the service slots.
pub open spec fn base_init_svc(ss: Seq<ServiceSlot>, b: BaseParam) -> Seq<ServiceSlot> {
    match b {
        BaseParam::Service { type_id } => spec_register_svc(ss, type_id),
        _ => ss,
    }
}

/// The state registration computed for `b` resolves to the slot storage
/// holds for its type.
pub open spec fn base_state_ok(
    b: BaseParam,
    st: BaseState,
    cs: Seq<ConfigSlot>,
    ss: Seq<ServiceSlot>,
) -> bool {
    match (b, st) {
        (BaseParam::Config { type_id }, BaseState::Config { slot }) => find_cfg(cs, type_id)
            == Some(slot as int),
        (BaseParam::ConfigMut { type_id }, BaseState::ConfigMut { slot }) => find_cfg(cs, type_id)
            == Some(slot as int),
        (BaseParam::Service { type_id }, BaseState::Service { slot }) => find_svc(ss, type_id)
            == Some(slot as int),
        (BaseParam::Commands, BaseState::Commands) => true,
        (BaseParam::StorageRead, BaseState::StorageRead) => true,
        (BaseParam::StorageWrite, BaseState::StorageWrite) => true,
        (BaseParam::BootServices, BaseState::BootServices) => true,
        (BaseParam::RuntimeServices, BaseState::RuntimeServices) => true,
        _ => false,
    }
}

/// The state has the shape of the kind and its slot index is in range: what
/// validation and extraction need to run.
pub open spec fn base_state_wf(
    b: BaseParam,
    st: BaseState,
    cs: Seq<ConfigSlot>,
    ss: Seq<ServiceSlot>,
) -> bool {
    match (b, st) {
        (BaseParam::Config { .. }, BaseState::Config { slot }) => slot < cs.len(),
        (BaseParam::ConfigMut { .. }, BaseState::ConfigMut { slot }) => slot < cs.len(),
        (BaseParam::Service { .. }, BaseState::Service { slot }) => slot < ss.len(),
        (BaseParam::Commands, BaseState::Commands) => true,
        (BaseParam::StorageRead, BaseState::StorageRead) => true,
        (BaseParam::StorageWrite, BaseState::StorageWrite) => true,
        (BaseParam::BootServices, BaseState::BootServices) => true,
        (BaseParam::RuntimeServices, BaseState::RuntimeServices) => true,
        _ => false,
    }
}

/// A state consistent with storage is well formed.
pub proof fn lemma_state_ok_wf(b: BaseParam, st: BaseState, cs: Seq<ConfigSlot>, ss: Seq<ServiceSlot>)
    requires
        base_state_ok(b, st, cs, ss),
    ensures
        base_state_wf(b, st, cs, ss),
{
    match b {
        BaseParam::Config { type_id } | BaseParam::ConfigMut { type_id } => {
            lemma_find_cfg_props(cs, type_id, 0);
        },
        BaseParam::Service { type_id } => {
            lemma_find_svc_props(ss, type_id, 0);
        },
        _ => {},
    }
}

/// When one basic kind is available: a read-only configuration when its slot
/// is locked, a mutable one when it is unlocked, a service when published, a
/// firmware table when installed, everything else always.
pub open spec fn base_valid(b: BaseParam, st: BaseState, s: Storage) -> bool {
    match (b, st) {
        (BaseParam::Config { .. }, BaseState::Config { slot }) => s.configs@[slot as int].locked,
        (BaseParam::ConfigMut { .. }, BaseState::ConfigMut { slot }) => !s.configs@[
            slot as int
        ].locked,
        (BaseParam::Service { .. }, BaseState::Service { slot }) => s.services@[
            slot as int
        ].service is Some,
        (BaseParam::Commands, BaseState::Commands) => true,
        (BaseParam::StorageRead, BaseState::StorageRead) => true,
        (BaseParam::StorageWrite, BaseState::StorageWrite) => true,
        (BaseParam::BootServices, BaseState::BootServices) => s.boot_services is Some,
        (BaseParam::RuntimeServices, BaseState::RuntimeServices) => s.runtime_services is Some,
        _ => false,
    }
}

/// The value one basic kind extracts. Extraction happens only after a
/// successful validation of the same state against the same storage.
pub open spec fn base_extract_ok(b: BaseParam, st: BaseState, s: Storage, v: ParamValue) -> bool {
    match (b, st) {
        (BaseParam::Config { .. }, BaseState::Config { slot }) => v == ParamValue::Config(
            Config { slot, value: s.configs@[slot as int].value },
        ),
        (BaseParam::ConfigMut { .. }, BaseState::ConfigMut { slot }) => v == ParamValue::ConfigMut(
            ConfigMut { slot, value: s.configs@[slot as int].value, lock_requested: false },
        ),
        (BaseParam::Service { .. }, BaseState::Service { slot }) => v == ParamValue::Service(
            Service { value: s.services@[slot as int].service },
        ),
        (BaseParam::Commands, BaseState::Commands) => v matches ParamValue::Commands(c)
            && c.queue@.len() == 0,
        (BaseParam::StorageRead, BaseState::StorageRead) => v == ParamValue::Storage,
        (BaseParam::StorageWrite, BaseState::StorageWrite) => v == ParamValue::StorageMut,
        (BaseParam::BootServices, BaseState::BootServices) => v == ParamValue::BootServices(
            s.boot_services.unwrap(),
        ),
        (BaseParam::RuntimeServices, BaseState::RuntimeServices) => v
            == ParamValue::RuntimeServices(s.runtime_services.unwrap()),
        _ => false,
    }
}

/// The diagnostic name of one basic kind.
pub open spec fn base_name(b: BaseParam) -> &'static str {
    match b {
        BaseParam::Config { .. } => "Config",
        BaseParam::ConfigMut { .. } => "ConfigMut",
        BaseParam::Service { .. } => "Service",
        BaseParam::Commands => "Commands",
        BaseParam::StorageRead => "Storage",
        BaseParam::StorageWrite => "StorageMut",
        BaseParam::BootServices => "BootServices",
        BaseParam::RuntimeServices => "RuntimeServices",
    }
}

impl BaseParam {
    /// The diagnostic name of this kind.
    pub fn name(&self) -> (n: &'static str)
        ensures
            n == base_name(*self),
    {
        match self {
            BaseParam::Config { .. } => "Config",
            BaseParam::ConfigMut { .. } => "ConfigMut",
            BaseParam::Service { .. } => "Service",
            BaseParam::Commands => "Commands",
            BaseParam::StorageRead => "Storage",
            BaseParam::StorageWrite => "StorageMut",
            BaseParam::BootServices => "BootServices",
            BaseParam::RuntimeServices => "RuntimeServices",
        }
    }

    /// Registers this kind: locates or creates its slot, unlocks it for a
    /// mutable configuration, checks the declared access against the
    /// component's record and records it. A conflict is an authoring error,
    /// returned with both accesses and the component named.
    pub fn init_state(&self, storage: &mut Storage, meta: &mut MetaData) -> (r: Result<
        BaseState,
        ConflictError,
    >)
        requires
            old(storage).wf(),
        ensures
            final(storage).wf(),
            final(storage).configs@ == base_init_cfg(old(storage).configs@, *self),
            final(storage).services@ == base_init_svc(old(storage).services@, *self),
            final(storage).deferred@ == old(storage).deferred@,
            final(storage).boot_services == old(storage).boot_services,
            final(storage).runtime_services == old(storage).runtime_services,
            final(meta).name == old(meta).name,
            final(meta).failed_param == old(meta).failed_param,
            r is Ok <==> base_entry_ok(old(meta).access.items@, *self),
            r matches Ok(st) ==> final(meta).access.items@ == items_plus_base(
                old(meta).access.items@,
                *self,
            ) && base_state_ok(*self, st, final(storage).configs@, final(storage).services@),
            r matches Err(e) ==> final(meta).access.items@ == old(meta).access.items@ && e.component
                == old(meta).name && base_access(*self) == Some(e.new_access) && spec_first_conflict(
                old(meta).access.items@,
                e.new_access,
            ) == Some(e.prior_access),
    {
        match self {
            BaseParam::Config { type_id } => {
                let id = storage.add_config_default_if_not_present(*type_id);
                let a = AccessKind::ConfigRead { type_id: *type_id };
                match meta.access.check(&a) {
                    Some(prior) => Err(
                        ConflictError { component: meta.name, new_access: a, prior_access: prior },
                    ),
                    None => {
                        meta.access.record(a);
                        Ok(BaseState::Config { slot: id })
                    },
                }
            },
            BaseParam::ConfigMut { type_id } => {
                let id = storage.add_config_default_if_not_present(*type_id);
                proof {
                    lemma_find_cfg_props(storage.configs@, *type_id, 0);
                }
                storage.unlock_config(id);
                proof {
                    let cs1 = spec_add_default(old(storage).configs@, *type_id);
                    let cs2 = storage.configs@;
                    assert(cs1.len() == cs2.len());
                    assert(forall|k: int| 0 <= k < cs1.len() ==> cs1[k].type_id == cs2[k].type_id);
                    lemma_find_unchanged_cfg(cs1, cs2, *type_id, 0);
                    assert(forall|a: int, b: int|
                        0 <= a < b < cs2.len() ==> cs2[a].type_id != cs2[b].type_id);
                }
                let a = AccessKind::ConfigWrite { type_id: *type_id };
                match meta.access.check(&a) {
                    Some(prior) => Err(
                        ConflictError { component: meta.name, new_access: a, prior_access: prior },
                    ),
                    None => {
                        meta.access.record(a);
                        Ok(BaseState::ConfigMut { slot: id })
                    },
                }
            },
            BaseParam::Service { type_id } => {
                let id = storage.register_service(*type_id);
                Ok(BaseState::Service { slot: id })
            },
            BaseParam::Commands => {
                let a = AccessKind::Deferred;
                match meta.access.check(&a) {
                    Some(prior) => Err(
                        ConflictError { component: meta.name, new_access: a, prior_access: prior },
                    ),
                    None => {
                        meta.access.record(a);
                        Ok(BaseState::Commands)
                    },
                }
            },
            BaseParam::StorageRead => {
                let a = AccessKind::AllConfigsRead;
                match meta.access.check(&a) {
                    Some(prior) => Err(
                        ConflictError { component: meta.name, new_access: a, prior_access: prior },
                    ),
                    None => {
                        meta.access.record(a);
                        Ok(BaseState::StorageRead)
                    },
                }
            },
            BaseParam::StorageWrite => {
                let a = AccessKind::AllConfigsWrite;
                match meta.access.check(&a) {
                    Some(prior) => Err(
                        ConflictError { component: meta.name, new_access: a, prior_access: prior },
                    ),
                    None => {
                        meta.access.record(a);
                        Ok(BaseState::StorageWrite)
                    },
                }
            },
            BaseParam::BootServices => Ok(BaseState::BootServices),
            BaseParam::RuntimeServices => Ok(BaseState::RuntimeServices),
        }
    }

    /// Checks whether this kind's value is currently derivable from storage.
    pub fn validate(&self, st: &BaseState, storage: &Storage) -> (r: bool)
        requires
            base_state_wf(*self, *st, storage.configs@, storage.services@),
        ensures
            r == base_valid(*self, *st, *storage),
    {
        match (self, st) {
            (BaseParam::Config { .. }, BaseState::Config { slot }) => storage.config_locked(*slot),
            (BaseParam::ConfigMut { .. }, BaseState::ConfigMut { slot }) => !storage.config_locked(
                *slot,
            ),
            (BaseParam::Service { .. }, BaseState::Service { slot }) => storage.get_raw_service(
                *slot,
            ).is_some(),
            (BaseParam::Commands, BaseState::Commands) => true,
            (BaseParam::StorageRead, BaseState::StorageRead) => true,
            (BaseParam::StorageWrite, BaseState::StorageWrite) => true,
            (BaseParam::BootServices, BaseState::BootServices) => storage.boot_services.is_some(),
            (BaseParam::RuntimeServices, BaseState::RuntimeServices) => storage
                .runtime_services
                .is_some(),
            _ => unreached(),
        }
    }

    /// Extracts this kind's value. Valid to call only immediately after a
    /// successful validation of the same state against the same storage.
    pub fn get_param(&self, st: &BaseState, storage: &Storage) -> (v: ParamValue)
        requires
            base_state_wf(*self, *st, storage.configs@, storage.services@),
            base_valid(*self, *st, *storage),
        ensures
            base_extract_ok(*self, *st, *storage, v),
    {
        match (self, st) {
            (BaseParam::Config { .. }, BaseState::Config { slot }) => ParamValue::Config(
                Config { slot: *slot, value: storage.get_shared(*slot) },
            ),
            (BaseParam::ConfigMut { .. }, BaseState::ConfigMut { slot }) => ParamValue::ConfigMut(
                ConfigMut { slot: *slot, value: storage.get_shared(*slot), lock_requested: false },
            ),
            (BaseParam::Service { .. }, BaseState::Service { slot }) => ParamValue::Service(
                Service { value: storage.get_raw_service(*slot) },
            ),
            (BaseParam::Commands, BaseState::Commands) => ParamValue::Commands(
                Commands { queue: Vec::new() },
            ),
            (BaseParam::StorageRead, BaseState::StorageRead) => ParamValue::Storage,
            (BaseParam::StorageWrite, BaseState::StorageWrite) => ParamValue::StorageMut,
            (BaseParam::BootServices, BaseState::BootServices) => {
                match storage.boot_services {
                    Some(t) => ParamValue::BootServices(t),
                    None => unreached(),
                }
            },
            (BaseParam::RuntimeServices, BaseState::RuntimeServices) => {
                match storage.runtime_services {
                    Some(t) => ParamValue::RuntimeServices(t),
                    None => unreached(),
                }
            },
            _ => unreached(),
        }
    }
}

/// Registering an entry does not conflict with the record `items`.
pub open spec fn entry_ok(items: Seq<AccessKind>, e: ParamEntry) -> bool {
    base_entry_ok(items, entry_base(e))
}

/// The record after an entry registers.
pub open spec fn items_plus_entry(items: Seq<AccessKind>, e: ParamEntry) -> Seq<AccessKind> {
    items_plus_base(items, entry_base(e))
}

/// What registering an entry does to the configuration slots.
pub open spec fn entry_init_cfg(cs: Seq<ConfigSlot>, e: ParamEntry) -> Seq<ConfigSlot> {
    base_init_cfg(cs, entry_base(e))
}

/// What registering an entry does to the service slots.
pub open spec fn entry_init_svc(ss: Seq<ServiceSlot>, e: ParamEntry) -> Seq<ServiceSlot> {
    base_init_svc(ss, entry_base(e))
}

/// The entry's state resolves to the slot storage holds for its type.
pub open spec fn entry_state_ok(
    e: ParamEntry,
    st: BaseState,
    cs: Seq<ConfigSlot>,
    ss: Seq<ServiceSlot>,
) -> bool {
    base_state_ok(entry_base(e), st, cs, ss)
}

/// The entry's state has the right shape and an in-range slot.
pub open spec fn entry_state_wf(
    e: ParamEntry,
    st: BaseState,
    cs: Seq<ConfigSlot>,
    ss: Seq<ServiceSlot>,
) -> bool {
    base_state_wf(entry_base(e), st, cs, ss)
}

/// When an entry is available: a required entry when its kind is, an
/// optional entry always.
pub open spec fn entry_valid(e: ParamEntry, st: BaseState, s: Storage) -> bool {
    match e {
        ParamEntry::Required(b) => base_valid(b, st, s),
        ParamEntry::Optional(_) => true,
    }
}

/// The value an entry extracts: an optional entry yields empty exactly when
/// its wrapped kind is unavailable.
pub open spec fn entry_extract_ok(e: ParamEntry, st: BaseState, s: Storage, v: ParamValue) -> bool {
    match e {
        ParamEntry::Required(b) => base_extract_ok(b, st, s, v),
        ParamEntry::Optional(b) => if base_valid(b, st, s) {
            base_extract_ok(b, st, s, v)
        } else {
            v == ParamValue::Empty
        },
    }
}

impl ParamEntry {
    /// The diagnostic name of the entry's kind.
    pub fn name(&self) -> (n: &'static str)
        ensures
            n == base_name(entry_base(*self)),
    {
        match self {
            ParamEntry::Required(b) => b.name(),
            ParamEntry::Optional(b) => b.name(),
        }
    }

    /// Registers this entry; an optional wrapper registers the footprint of
    /// its wrapped kind.
    pub fn init_state(&self, storage: &mut Storage, meta: &mut MetaData) -> (r: Result<
        BaseState,
        ConflictError,
    >)
        requires
            old(storage).wf(),
        ensures
            final(storage).wf(),
            final(storage).configs@ == entry_init_cfg(old(storage).configs@, *self),
            final(storage).services@ == entry_init_svc(old(storage).services@, *self),
            final(storage).deferred@ == old(storage).deferred@,
            final(storage).boot_services == old(storage).boot_services,
            final(storage).runtime_services == old(storage).runtime_services,
            final(meta).name == old(meta).name,
            final(meta).failed_param == old(meta).failed_param,
            r is Ok <==> entry_ok(old(meta).access.items@, *self),
            r matches Ok(st) ==> final(meta).access.items@ == items_plus_entry(
                old(meta).access.items@,
                *self,
            ) && entry_state_ok(*self, st, final(storage).configs@, final(storage).services@),
            r matches Err(e) ==> final(meta).access.items@ == old(meta).access.items@ && e.component
                == old(meta).name && entry_access(*self) == Some(e.new_access)
                && spec_first_conflict(old(meta).access.items@, e.new_access) == Some(
                e.prior_access,
            ),
    {
        match self {
            ParamEntry::Required(b) => b.init_state(storage, meta),
            ParamEntry::Optional(b) => b.init_state(storage, meta),
        }
    }

    /// Checks whether this entry blocks the component: a required entry
    /// blocks while its kind is unavailable; an optional entry never blocks.
    pub fn validate(&self, st: &BaseState, storage: &Storage) -> (r: bool)
        requires
            entry_state_wf(*self, *st, storage.configs@, storage.services@),
        ensures
            r == entry_valid(*self, *st, *storage),
    {
        match self {
            ParamEntry::Required(b) => b.validate(st, storage),
            ParamEntry::Optional(_) => true,
        }
    }

    /// Extracts this entry's value; an optional entry yields empty when its
    /// wrapped kind is unavailable.
    pub fn get_param(&self, st: &BaseState, storage: &Storage) -> (v: ParamValue)
        requires
            entry_state_wf(*self, *st, storage.configs@, storage.services@),
            entry_valid(*self, *st, *storage),
        ensures
            entry_extract_ok(*self, *st, *storage, v),
    {
        match self {
            ParamEntry::Required(b) => b.get_param(st, storage),
            ParamEntry::Optional(b) => {
                if b.validate(st, storage) {
                    b.get_param(st, storage)
                } else {
                    ParamValue::Empty
                }
            },
        }
    }
}

/// The record after the first `i` entries have registered, in order.
pub open spec fn items_through(items: Seq<AccessKind>, es: Seq<ParamEntry>, i: int) -> Seq<
    AccessKind,
>
    decreases i,
{
    if i <= 0 {
        items
    } else {
        items_plus_entry(items_through(items, es, i - 1), es[i - 1])
    }
}

/// The configuration slots after the first `i` entries have registered.
pub open spec fn cfg_through(cs: Seq<ConfigSlot>, es: Seq<ParamEntry>, i: int) -> Seq<ConfigSlot>
    decreases i,
{
    if i <= 0 {
        cs
    } else {
        entry_init_cfg(cfg_through(cs, es, i - 1), es[i - 1])
    }
}

/// The service slots after the first `i` entries have registered.
pub open spec fn svc_through(ss: Seq<ServiceSlot>, es: Seq<ParamEntry>, i: int) -> Seq<ServiceSlot>
    decreases i,
{
    if i <= 0 {
        ss
    } else {
        entry_init_svc(svc_through(ss, es, i - 1), es[i - 1])
    }
}

/// The conflict entry `i` would hit when it registers after the entries
/// before it, if any.
pub open spec fn entry_conflict_at(items: Seq<AccessKind>, es: Seq<ParamEntry>, i: int) -> Option<
    AccessKind,
> {
    match entry_access(es[i]) {
        Some(a) => spec_first_conflict(items_through(items, es, i), a),
        None => None,
    }
}

/// The first entry at or after position `i` whose registration conflicts
/// with what was recorded before it.
pub open spec fn first_conflict_entry(items: Seq<AccessKind>, es: Seq<ParamEntry>, i: int) -> Option<
    int,
>
    decreases es.len() - i,
{
    if i < 0 || i >= es.len() {
        None
    } else if entry_conflict_at(items, es, i) is Some {
        Some(i)
    } else {
        first_conflict_entry(items, es, i + 1)
    }
}

/// Every entry's state resolves to its slot in storage.
pub open spec fn entries_states_ok(
    es: Seq<ParamEntry>,
    sts: Seq<BaseState>,
    cs: Seq<ConfigSlot>,
    ss: Seq<ServiceSlot>,
) -> bool {
    sts.len() == es.len() && forall|i: int|
        0 <= i < es.len() ==> entry_state_ok(es[i], #[trigger] sts[i], cs, ss)
}

/// Every entry's state has the right shape and an in-range slot.
pub open spec fn entries_states_wf(
    es: Seq<ParamEntry>,
    sts: Seq<BaseState>,
    cs: Seq<ConfigSlot>,
    ss: Seq<ServiceSlot>,
) -> bool {
    sts.len() == es.len() && forall|i: int|
        0 <= i < es.len() ==> entry_state_wf(es[i], #[trigger] sts[i], cs, ss)
}

/// Every entry is available.
pub open spec fn entries_valid(es: Seq<ParamEntry>, sts: Seq<BaseState>, s: Storage) -> bool {
    forall|i: int| 0 <= i < es.len() ==> entry_valid(es[i], #[trigger] sts[i], s)
}

/// The first entry at or after position `i` that is unavailable.
pub open spec fn first_invalid_entry(
    es: Seq<ParamEntry>,
    sts: Seq<BaseState>,
    s: Storage,
    i: int,
) -> Option<int>
    decreases es.len() - i,
{
    if i < 0 || i >= es.len() {
        None
    } else if !entry_valid(es[i], sts[i], s) {
        Some(i)
    } else {
        first_invalid_entry(es, sts, s, i + 1)
    }
}

/// Every entry extracted the value its kind derives.
pub open spec fn entries_extract_ok(
    es: Seq<ParamEntry>,
    sts: Seq<BaseState>,
    s: Storage,
    vs: Seq<ParamValue>,
) -> bool {
    vs.len() == es.len() && forall|i: int|
        0 <= i < es.len() ==> entry_extract_ok(es[i], sts[i], s, #[trigger] vs[i])
}

/// The entries a parameter declares, in order.
pub open spec fn kind_entries(k: ParamKind) -> Seq<ParamEntry> {
    match k {
        ParamKind::Single(e) => seq![e],
        ParamKind::Group(v) => v@,
    }
}

/// The per-entry states a parameter's state carries, in order.
pub open spec fn kind_state_sts(st: ParamState) -> Seq<BaseState> {
    match st {
        ParamState::Single(b) => seq![b],
        ParamState::Group(v) => v@,
    }
}

/// The state has the same shape as the parameter.
pub open spec fn kind_state_shape_ok(k: ParamKind, st: ParamState) -> bool {
    match (k, st) {
        (ParamKind::Single(_), ParamState::Single(_)) => true,
        (ParamKind::Group(es), ParamState::Group(sts)) => sts@.len() == es@.len(),
        _ => false,
    }
}

/// A present configuration type is still found at the same slot after any
/// kind registers: registration only appends slots or toggles locked flags.
pub proof fn lemma_find_cfg_stable_init(cs: Seq<ConfigSlot>, b: BaseParam, t: u64)
    requires
        find_cfg(cs, t) is Some,
    ensures
        find_cfg(base_init_cfg(cs, b), t) == find_cfg(cs, t),
{
    match b {
        BaseParam::Config { type_id } => {
            if !has_cfg(cs, type_id) {
                lemma_find_cfg_push(cs, ConfigSlot { type_id, value: 0, locked: true }, t, 0);
            }
        },
        BaseParam::ConfigMut { type_id } => {
            let cs1 = spec_add_default(cs, type_id);
            if !has_cfg(cs, type_id) {
                lemma_find_cfg_push(cs, ConfigSlot { type_id, value: 0, locked: true }, t, 0);
            }
            let cs2 = spec_unlock(cs1, type_id);
            match find_cfg(cs1, type_id) {
                Some(i) => {
                    lemma_find_cfg_props(cs1, type_id, 0);
                    assert(cs1.len() == cs2.len());
                    assert(forall|k: int| 0 <= k < cs1.len() ==> cs1[k].type_id == cs2[k].type_id);
                    lemma_find_unchanged_cfg(cs1, cs2, t, 0);
                },
                None => {},
            }
        },
        _ => {},
    }
}

/// A registered service interface is still found at the same slot after any
/// kind registers.
pub proof fn lemma_find_svc_stable_init(ss: Seq<ServiceSlot>, b: BaseParam, t: u64)
    requires
        find_svc(ss, t) is Some,
    ensures
        find_svc(base_init_svc(ss, b), t) == find_svc(ss, t),
{
    match b {
        BaseParam::Service { type_id } => {
            if !has_svc(ss, type_id) {
                lemma_find_svc_push(ss, ServiceSlot { type_id, service: None }, t, 0);
            }
        },
        _ => {},
    }
}

/// An entry's resolved state keeps resolving to the same slot while further
/// entries register: registration only appends slots or toggles a locked
/// flag, never moves or removes a slot.
pub proof fn lemma_entry_state_ok_stable(
    e_done: ParamEntry,
    st: BaseState,
    e_new: ParamEntry,
    cs: Seq<ConfigSlot>,
    ss: Seq<ServiceSlot>,
)
    requires
        entry_state_ok(e_done, st, cs, ss),
    ensures
        entry_state_ok(e_done, st, entry_init_cfg(cs, e_new), entry_init_svc(ss, e_new)),
{
    match entry_base(e_done) {
        BaseParam::Config { type_id } => {
            lemma_find_cfg_stable_init(cs, entry_base(e_new), type_id);
        },
        BaseParam::ConfigMut { type_id } => {
            lemma_find_cfg_stable_init(cs, entry_base(e_new), type_id);
        },
        BaseParam::Service { type_id } => {
            lemma_find_svc_stable_init(ss, entry_base(e_new), type_id);
        },
        _ => {},
    }
}

/// An entry's resolved state keeps resolving to the same slot while a whole
/// sequence of further entries registers.
pub proof fn lemma_entry_state_ok_stable_through(
    e_done: ParamEntry,
    st: BaseState,
    es: Seq<ParamEntry>,
    m: int,
    cs: Seq<ConfigSlot>,
    ss: Seq<ServiceSlot>,
)
    requires
        entry_state_ok(e_done, st, cs, ss),
        0 <= m,
    ensures
        entry_state_ok(e_done, st, cfg_through(cs, es, m), svc_through(ss, es, m)),
    decreases m,
{
    if m > 0 {
        lemma_entry_state_ok_stable_through(e_done, st, es, m - 1, cs, ss);
        lemma_entry_state_ok_stable(
            e_done,
            st,
            es[m - 1],
            cfg_through(cs, es, m - 1),
            svc_through(ss, es, m - 1),
        );
    }
}

/// A parameter whose state is consistent with storage also has a
/// well-formed state there.
pub proof fn lemma_states_ok_wf(
    es: Seq<ParamEntry>,
    sts: Seq<BaseState>,
    cs: Seq<ConfigSlot>,
    ss: Seq<ServiceSlot>,
)
    requires
        entries_states_ok(es, sts, cs, ss),
    ensures
        entries_states_wf(es, sts, cs, ss),
{
    assert forall|i: int| 0 <= i < es.len() implies entry_state_wf(
        es[i],
        #[trigger] sts[i],
        cs,
        ss,
    ) by {
        lemma_state_ok_wf(entry_base(es[i]), sts[i], cs, ss);
    }
}

/// The state's shape matches the parameter and every entry's state resolves
/// to its slot in storage.
pub open spec fn kind_state_ok(
    k: ParamKind,
    st: ParamState,
    cs: Seq<ConfigSlot>,
    ss: Seq<ServiceSlot>,
) -> bool {
    kind_state_shape_ok(k, st) && entries_states_ok(kind_entries(k), kind_state_sts(st), cs, ss)
}

/// The state has the parameter's shape and in-range slots.
pub open spec fn kind_state_wf(
    k: ParamKind,
    st: ParamState,
    cs: Seq<ConfigSlot>,
    ss: Seq<ServiceSlot>,
) -> bool {
    kind_state_shape_ok(k, st) && entries_states_wf(kind_entries(k), kind_state_sts(st), cs, ss)
}

/// Every required entry of the parameter is available.
pub open spec fn kind_valid(k: ParamKind, st: ParamState, s: Storage) -> bool {
    entries_valid(kind_entries(k), kind_state_sts(st), s)
}

/// The value the parameter extracts: a grouping yields the grouped values of
/// its members, in order.
pub open spec fn kind_extract_ok(k: ParamKind, st: ParamState, s: Storage, v: ParamValue) -> bool {
    match k {
        ParamKind::Single(e) => entry_extract_ok(e, kind_state_sts(st)[0], s, v),
        ParamKind::Group(es) => v matches ParamValue::Group(vs) && entries_extract_ok(
            es@,
            kind_state_sts(st),
            s,
            vs@,
        ),
    }
}

/// A read-only configuration parameter is retrievable exactly when its slot
/// is locked, and a mutable one exactly when its slot is unlocked.
pub proof fn lemma_config_availability(t: u64, slot: usize, s: Storage)
    requires
        slot < s.configs@.len(),
    ensures
        base_valid(
            BaseParam::Config { type_id: t },
            BaseState::Config { slot },
            s,
        ) == s.configs@[slot as int].locked,
        base_valid(
            BaseParam::ConfigMut { type_id: t },
            BaseState::ConfigMut { slot },
            s,
        ) == !s.configs@[slot as int].locked,
{
}

/// Registering a mutable configuration parameter unlocks its slot as a side
/// effect, before the component ever runs.
pub proof fn lemma_config_mut_init_unlocks(cs: Seq<ConfigSlot>, t: u64)
    ensures
        has_cfg(base_init_cfg(cs, BaseParam::ConfigMut { type_id: t }), t),
        !cfg_locked(base_init_cfg(cs, BaseParam::ConfigMut { type_id: t }), t),
{
    let cs1 = spec_add_default(cs, t);
    if !has_cfg(cs, t) {
        lemma_find_cfg_props(cs, t, 0);
        lemma_find_cfg_props(cs1, t, 0);
        assert(cs1[cs.len() as int].type_id == t);
        crate::storage::lemma_find_cfg_exists(cs1, t, 0);
    }
    lemma_find_cfg_props(cs1, t, 0);
    let i = find_cfg(cs1, t).unwrap();
    let cs2 = spec_unlock(cs1, t);
    assert(cs2[i].locked == false);
    assert(forall|k: int| 0 <= k < cs1.len() ==> cs1[k].type_id == cs2[k].type_id);
    lemma_find_unchanged_cfg(cs1, cs2, t, 0);
}

/// An optional parameter never blocks its component, and it extracts empty
/// exactly when the wrapped parameter is itself unavailable.
pub proof fn lemma_optional_never_blocks(b: BaseParam, st: BaseState, s: Storage)
    ensures
        entry_valid(ParamEntry::Optional(b), st, s),
        forall|v: ParamValue|
            entry_extract_ok(ParamEntry::Optional(b), st, s, v) ==> ((v == ParamValue::Empty)
                == !base_valid(b, st, s)),
{
    assert forall|v: ParamValue|
        entry_extract_ok(ParamEntry::Optional(b), st, s, v) implies ((v == ParamValue::Empty)
        == !base_valid(b, st, s)) by {
        if base_valid(b, st, s) {
            assert(base_extract_ok(b, st, s, v));
            match (b, st) {
                (BaseParam::Commands, BaseState::Commands) => {
                    assert(v matches ParamValue::Commands(_));
                },
                _ => {},
            }
            assert(v != ParamValue::Empty);
        }
    }
}

/// A published service stays published while a parameter registers:
/// registration creates empty slots but never publishes or unpublishes.
pub proof fn lemma_init_preserves_published(ss: Seq<ServiceSlot>, es: Seq<ParamEntry>, m: int, t: u64)
    requires
        0 <= m,
        crate::storage::svc_published(ss, t),
    ensures
        crate::storage::svc_published(svc_through(ss, es, m), t),
    decreases m,
{
    if m > 0 {
        lemma_init_preserves_published(ss, es, m - 1, t);
        let ss1 = svc_through(ss, es, m - 1);
        let ss2 = entry_init_svc(ss1, es[m - 1]);
        match entry_base(es[m - 1]) {
            BaseParam::Service { type_id } => {
                if !has_svc(ss1, type_id) {
                    lemma_find_svc_props(ss1, t, 0);
                    lemma_find_svc_push(ss1, ServiceSlot { type_id, service: None }, t, 0);
                }
            },
            _ => {},
        }
    }
}

/// The capability abstraction every parameter implements: how to register
/// its footprint once, how to check cheaply whether it is available, and how
/// to extract its value.
pub trait Param: Sized {
    /// The entries this parameter declares, in order.
    spec fn entries(&self) -> Seq<ParamEntry>;

    /// The computed state resolves to storage's slots.
    spec fn state_ok(&self, st: ParamState, s: Storage) -> bool;

    /// The state has the parameter's shape and in-range slots.
    spec fn state_wf(&self, st: ParamState, s: Storage) -> bool;

    /// Every required entry is available.
    spec fn valid(&self, st: ParamState, s: Storage) -> bool;

    /// `v` is the value this parameter extracts.
    spec fn extract_ok(&self, st: ParamState, s: Storage, v: ParamValue) -> bool;

    /// Registers the parameter against storage and the component's access
    /// record, entry by entry in declared order, and computes its persistent
    /// state. Runs exactly once per component. A footprint conflict is an
    /// authoring error: the first one is returned, naming both accesses and
    /// the component, with everything before it registered.
    fn init_state(&self, storage: &mut Storage, meta: &mut MetaData) -> (r: Result<
        ParamState,
        ConflictError,
    >)
        requires
            old(storage).wf(),
        ensures
            final(storage).wf(),
            final(storage).deferred@ == old(storage).deferred@,
            final(storage).boot_services == old(storage).boot_services,
            final(storage).runtime_services == old(storage).runtime_services,
            final(meta).name == old(meta).name,
            final(meta).failed_param == old(meta).failed_param,
            r is Ok <==> first_conflict_entry(old(meta).access.items@, self.entries(), 0) is None,
            r matches Ok(st) ==> {
                &&& final(storage).configs@ == cfg_through(
                    old(storage).configs@,
                    self.entries(),
                    self.entries().len() as int,
                )
                &&& final(storage).services@ == svc_through(
                    old(storage).services@,
                    self.entries(),
                    self.entries().len() as int,
                )
                &&& final(meta).access.items@ == items_through(
                    old(meta).access.items@,
                    self.entries(),
                    self.entries().len() as int,
                )
                &&& self.state_ok(st, *final(storage))
            },
            r matches Err(e) ==> {
                let j = first_conflict_entry(old(meta).access.items@, self.entries(), 0).unwrap();
                &&& first_conflict_entry(old(meta).access.items@, self.entries(), 0) is Some
                &&& e.component == old(meta).name
                &&& entry_access(self.entries()[j]) == Some(e.new_access)
                &&& entry_conflict_at(old(meta).access.items@, self.entries(), j) == Some(
                    e.prior_access,
                )
                &&& final(meta).access.items@ == items_through(
                    old(meta).access.items@,
                    self.entries(),
                    j,
                )
                &&& final(storage).configs@ == cfg_through(
                    old(storage).configs@,
                    self.entries(),
                    j + 1,
                )
                &&& final(storage).services@ == svc_through(
                    old(storage).services@,
                    self.entries(),
                    j + 1,
                )
            },
    ;

    /// Checks whether the parameter is available: a cheap, side-effect-free
    /// test the scheduler repeats every round.
    fn validate(&self, st: &ParamState, storage: &Storage) -> (r: bool)
        requires
            self.state_wf(*st, *storage),
        ensures
            r == self.valid(*st, *storage),
    ;

    /// Like [`Param::validate`], but a failure names the first unavailable
    /// entry's kind, as a triage aid.
    fn try_validate(&self, st: &ParamState, storage: &Storage) -> (r: Result<(), &'static str>)
        requires
            self.state_wf(*st, *storage),
        ensures
            r is Ok <==> self.valid(*st, *storage),
            r matches Err(n) ==> {
                let j = first_invalid_entry(self.entries(), kind_state_sts(*st), *storage, 0);
                &&& j is Some
                &&& n == base_name(entry_base(self.entries()[j.unwrap()]))
            },
    ;

    /// Extracts the parameter's value. Valid to call only immediately after
    /// a successful validation of the same state against the same storage:
    /// an unchecked precondition, not a runtime test.
    fn get_param(&self, st: &ParamState, storage: &Storage) -> (v: ParamValue)
        requires
            self.state_wf(*st, *storage),
            self.valid(*st, *storage),
        ensures
            self.extract_ok(*st, *storage, v),
    ;
}

impl Param for ParamKind {
    open spec fn entries(&self) -> Seq<ParamEntry> {
        kind_entries(*self)
    }

    open spec fn state_ok(&self, st: ParamState, s: Storage) -> bool {
        kind_state_ok(*self, st, s.configs@, s.services@)
    }

    open spec fn state_wf(&self, st: ParamState, s: Storage) -> bool {
        kind_state_wf(*self, st, s.configs@, s.services@)
    }

    open spec fn valid(&self, st: ParamState, s: Storage) -> bool {
        kind_valid(*self, st, s)
    }

    open spec fn extract_ok(&self, st: ParamState, s: Storage, v: ParamValue) -> bool {
        kind_extract_ok(*self, st, s, v)
    }

    fn init_state(&self, storage: &mut Storage, meta: &mut MetaData) -> (r: Result<
        ParamState,
        ConflictError,
    >) {
        match self {
            ParamKind::Single(e) => {
                let ghost es = kind_entries(*self);
                let ghost items0 = meta.access.items@;
                let ghost cs0 = storage.configs@;
                let ghost ss0 = storage.services@;
                proof {
                    assert(es =~= seq![*e]);
                    assert(es[0] == *e);
                    assert(items_through(items0, es, 0) == items0);
                    assert(cfg_through(cs0, es, 0) == cs0);
                    assert(svc_through(ss0, es, 0) == ss0);
                }
                match e.init_state(storage, meta) {
                    Ok(b) => {
                        proof {
                            assert(entry_conflict_at(items0, es, 0) is None);
                            assert(first_conflict_entry(items0, es, 1) is None);
                            assert(meta.access.items@ == items_through(items0, es, 1));
                            assert(storage.configs@ == cfg_through(cs0, es, 1));
                            assert(storage.services@ == svc_through(ss0, es, 1));
                            assert(kind_state_sts(ParamState::Single(b)) =~= seq![b]);
                            assert(entries_states_ok(es, seq![b], storage.configs@, storage.services@));
                        }
                        Ok(ParamState::Single(b))
                    },
                    Err(er) => {
                        proof {
                            assert(entry_conflict_at(items0, es, 0) == Some(er.prior_access));
                            assert(first_conflict_entry(items0, es, 0) == Some(0int));
                            assert(meta.access.items@ == items_through(items0, es, 0));
                            assert(storage.configs@ == cfg_through(cs0, es, 1));
                            assert(storage.services@ == svc_through(ss0, es, 1));
                        }
                        Err(er)
                    },
                }
            },
            ParamKind::Group(v) => {
                let ghost es = kind_entries(*self);
                let ghost prior = meta.access.items@;
                let ghost cs0 = storage.configs@;
                let ghost ss0 = storage.services@;
                let ghost df0 = storage.deferred@;
                let ghost bs0 = storage.boot_services;
                let ghost rs0 = storage.runtime_services;
                let ghost name0 = meta.name;
                let ghost fp0 = meta.failed_param;
                proof {
                    assert(es =~= v@);
                }
                let mut states: Vec<BaseState> = Vec::new();
                let mut i: usize = 0;
                while i < v.len()
                    invariant
                        storage.wf(),
                        i <= v@.len(),
                        es == v@,
                        es == kind_entries(*self),
                        prior == old(meta).access.items@,
                        cs0 == old(storage).configs@,
                        ss0 == old(storage).services@,
                        df0 == old(storage).deferred@,
                        bs0 == old(storage).boot_services,
                        rs0 == old(storage).runtime_services,
                        name0 == old(meta).name,
                        fp0 == old(meta).failed_param,
                        states@.len() == i as int,
                        meta.access.items@ == items_through(prior, es, i as int),
                        storage.configs@ == cfg_through(cs0, es, i as int),
                        storage.services@ == svc_through(ss0, es, i as int),
                        storage.deferred@ == df0,
                        storage.boot_services == bs0,
                        storage.runtime_services == rs0,
                        meta.name == name0,
                        meta.failed_param == fp0,
                        first_conflict_entry(prior, es, 0) == first_conflict_entry(
                            prior,
                            es,
                            i as int,
                        ),
                        forall|j: int|
                            0 <= j < i as int ==> entry_state_ok(
                                es[j],
                                #[trigger] states@[j],
                                storage.configs@,
                                storage.services@,
                            ),
                    decreases v@.len() - i,
                {
                    let ghost s_before = *storage;
                    let e = v[i];
                    match e.init_state(storage, meta) {
                        Ok(b) => {
                            proof {
                                assert(entry_conflict_at(prior, es, i as int) is None);
                                assert(first_conflict_entry(prior, es, i as int)
                                    == first_conflict_entry(prior, es, i as int + 1));
                                assert(meta.access.items@ == items_through(
                                    prior,
                                    es,
                                    i as int + 1,
                                ));
                                assert(storage.configs@ == cfg_through(cs0, es, i as int + 1));
                                assert(storage.services@ == svc_through(ss0, es, i as int + 1));
                                assert forall|j: int| 0 <= j < i as int implies entry_state_ok(
                                    es[j],
                                    #[trigger] states@[j],
                                    storage.configs@,
                                    storage.services@,
                                ) by {
                                    lemma_entry_state_ok_stable(
                                        es[j],
                                        states@[j],
                                        es[i as int],
                                        s_before.configs@,
                                        s_before.services@,
                                    );
                                }
                            }
                            states.push(b);
                        },
                        Err(er) => {
                            proof {
                                assert(entry_conflict_at(prior, es, i as int) == Some(
                                    er.prior_access,
                                ));
                                assert(first_conflict_entry(prior, es, i as int) == Some(i as int));
                                assert(first_conflict_entry(prior, es, 0) == Some(i as int));
                                assert(meta.access.items@ == items_through(prior, es, i as int));
                                assert(storage.configs@ == cfg_through(cs0, es, i as int + 1));
                                assert(storage.services@ == svc_through(ss0, es, i as int + 1));
                            }
                            return Err(er);
                        },
                    }
                    i = i + 1;
                }
                proof {
                    assert(first_conflict_entry(prior, es, v@.len() as int) is None);
                    assert(kind_state_sts(ParamState::Group(states)) == states@);
                    assert(entries_states_ok(es, states@, storage.configs@, storage.services@));
                }
                Ok(ParamState::Group(states))
            },
        }
    }

    fn validate(&self, st: &ParamState, storage: &Storage) -> (r: bool) {
        match (self, st) {
            (ParamKind::Single(e), ParamState::Single(b)) => {
                proof {
                    assert(kind_entries(*self)[0] == *e);
                    assert(kind_state_sts(*st)[0] == *b);
                }
                let r = e.validate(b, storage);
                proof {
                    if r {
                        assert forall|j: int| 0 <= j < kind_entries(*self).len() implies entry_valid(
                            kind_entries(*self)[j],
                            #[trigger] kind_state_sts(*st)[j],
                            *storage,
                        ) by {
                            assert(j == 0);
                        }
                    }
                }
                r
            },
            (ParamKind::Group(es), ParamState::Group(sts)) => {
                let mut i: usize = 0;
                while i < es.len()
                    invariant
                        i <= es@.len(),
                        sts@.len() == es@.len(),
                        es@ == kind_entries(*self),
                        sts@ == kind_state_sts(*st),
                        forall|j: int|
                            0 <= j < es@.len() ==> entry_state_wf(
                                es@[j],
                                #[trigger] sts@[j],
                                storage.configs@,
                                storage.services@,
                            ),
                        forall|j: int|
                            0 <= j < i as int ==> entry_valid(
                                es@[j],
                                #[trigger] sts@[j],
                                *storage,
                            ),
                    decreases es@.len() - i,
                {
                    if !es[i].validate(&sts[i], storage) {
                        proof {
                            assert(!entry_valid(es@[i as int], sts@[i as int], *storage));
                            assert(!entries_valid(es@, sts@, *storage));
                        }
                        return false;
                    }
                    i = i + 1;
                }
                true
            },
            _ => unreached(),
        }
    }

    fn try_validate(&self, st: &ParamState, storage: &Storage) -> (r: Result<(), &'static str>) {
        match (self, st) {
            (ParamKind::Single(e), ParamState::Single(b)) => {
                proof {
                    assert(kind_entries(*self)[0] == *e);
                    assert(kind_state_sts(*st)[0] == *b);
                }
                if e.validate(b, storage) {
                    proof {
                        assert forall|j: int| 0 <= j < kind_entries(*self).len() implies entry_valid(
                            kind_entries(*self)[j],
                            #[trigger] kind_state_sts(*st)[j],
                            *storage,
                        ) by {
                            assert(j == 0);
                        }
                    }
                    Ok(())
                } else {
                    proof {
                        assert(first_invalid_entry(
                            kind_entries(*self),
                            kind_state_sts(*st),
                            *storage,
                            0,
                        ) == Some(0int));
                    }
                    Err(e.name())
                }
            },
            (ParamKind::Group(es), ParamState::Group(sts)) => {
                let ghost kes = kind_entries(*self);
                let ghost ksts = kind_state_sts(*st);
                proof {
                    assert(kes == es@);
                    assert(ksts == sts@);
                }
                let mut i: usize = 0;
                while i < es.len()
                    invariant
                        i <= es@.len(),
                        sts@.len() == es@.len(),
                        es@ == kind_entries(*self),
                        sts@ == kind_state_sts(*st),
                        forall|j: int|
                            0 <= j < es@.len() ==> entry_state_wf(
                                es@[j],
                                #[trigger] sts@[j],
                                storage.configs@,
                                storage.services@,
                            ),
                        forall|j: int|
                            0 <= j < i as int ==> entry_valid(
                                es@[j],
                                #[trigger] sts@[j],
                                *storage,
                            ),
                        first_invalid_entry(es@, sts@, *storage, 0) == first_invalid_entry(
                            es@,
                            sts@,
                            *storage,
                            i as int,
                        ),
                    decreases es@.len() - i,
                {
                    if !es[i].validate(&sts[i], storage) {
                        proof {
                            assert(first_invalid_entry(es@, sts@, *storage, i as int) == Some(
                                i as int,
                            ));
                            assert(!entries_valid(es@, sts@, *storage));
                        }
                        return Err(es[i].name());
                    }
                    i = i + 1;
                }
                proof {
                    assert(first_invalid_entry(es@, sts@, *storage, es@.len() as int) is None);
                }
                Ok(())
            },
            _ => unreached(),
        }
    }

    fn get_param(&self, st: &ParamState, storage: &Storage) -> (v: ParamValue) {
        match (self, st) {
            (ParamKind::Single(e), ParamState::Single(b)) => {
                proof {
                    assert(kind_entries(*self)[0] == *e);
                    assert(kind_state_sts(*st)[0] == *b);
                }
                e.get_param(b, storage)
            },
            (ParamKind::Group(es), ParamState::Group(sts)) => {
                let mut values: Vec<ParamValue> = Vec::new();
                let mut i: usize = 0;
                while i < es.len()
                    invariant
                        i <= es@.len(),
                        sts@.len() == es@.len(),
                        es@ == kind_entries(*self),
                        sts@ == kind_state_sts(*st),
                        values@.len() == i as int,
                        forall|j: int|
                            0 <= j < es@.len() ==> entry_state_wf(
                                es@[j],
                                #[trigger] sts@[j],
                                storage.configs@,
                                storage.services@,
                            ),
                        forall|j: int|
                            0 <= j < es@.len() ==> entry_valid(
                                es@[j],
                                #[trigger] sts@[j],
                                *storage,
                            ),
                        forall|j: int|
                            0 <= j < i as int ==> entry_extract_ok(
                                es@[j],
                                sts@[j],
                                *storage,
                                #[trigger] values@[j],
                            ),
                    decreases es@.len() - i,
                {
                    let v = es[i].get_param(&sts[i], storage);
                    values.push(v);
                    i = i + 1;
                }
                ParamValue::Group(values)
            },
            _ => unreached(),
        }
    }
}

} // verus!
