//! Type-erased shared storage: configuration slots, service slots and the
//! deferred-command queue.
//!
//! Storage holds at most one configuration value per configuration type and
//! at most one service per service interface. Types and interfaces are named
//! by caller-chosen 64-bit identities; each distinct identity is assigned a
//! stable small slot index on first registration. A configuration slot
//! carries a value and a locked flag: slots are locked by default and a slot
//! is unlocked only when some component claims it mutably. A service slot is
//! empty until its service is published and read-only afterwards.
//!
//! The deferred-command queue captures structural mutations (new
//! configurations, new services) requested during a component's run; they
//! become visible only when the external scheduler calls [`Storage::apply_deferred`]
//! between rounds.

use vstd::prelude::*;

verus! {

/// One configuration slot: the identity of the configuration type it holds,
/// the current value, and whether the slot is locked (readable) or unlocked
/// (writable).
#[derive(Clone, Copy, Debug, PartialEq, Eq, Structural)]
pub struct ConfigSlot {
    pub type_id: u64,
    pub value: u64,
    pub locked: bool,
}

/// One service slot: the identity of the service interface and the published
/// service, if any.
#[derive(Clone, Copy, Debug, PartialEq, Eq, Structural)]
pub struct ServiceSlot {
    pub type_id: u64,
    pub service: Option<u64>,
}

/// A deferred structural mutation of storage.
#[derive(Clone, Copy, Debug, PartialEq, Eq, Structural)]
pub enum Command {
    /// Insert or overwrite the configuration value for a type.
    AddConfig { type_id: u64, value: u64 },
    /// Register and publish a service for an interface.
    AddService { type_id: u64, service: u64 },
}

/// The first configuration slot holding `type_id`, at or after position `i`.
pub open spec fn find_cfg_from(cs: Seq<ConfigSlot>, type_id: u64, i: int) -> Option<int>
    decreases cs.len() - i,
{
    if i < 0 || i >= cs.len() {
        None
    } else if cs[i].type_id == type_id {
        Some(i)
    } else {
        find_cfg_from(cs, type_id, i + 1)
    }
}

/// The slot index of configuration type `type_id`, if registered.
pub open spec fn find_cfg(cs: Seq<ConfigSlot>, type_id: u64) -> Option<int> {
    find_cfg_from(cs, type_id, 0)
}

/// Configuration type `type_id` has a slot.
pub open spec fn has_cfg(cs: Seq<ConfigSlot>, type_id: u64) -> bool {
    find_cfg(cs, type_id) is Some
}

/// The value held for configuration type `type_id`.
pub open spec fn cfg_value(cs: Seq<ConfigSlot>, type_id: u64) -> u64 {
    cs[find_cfg(cs, type_id).unwrap()].value
}

/// Whether the slot of configuration type `type_id` is locked.
pub open spec fn cfg_locked(cs: Seq<ConfigSlot>, type_id: u64) -> bool {
    cs[find_cfg(cs, type_id).unwrap()].locked
}

/// The first service slot holding `type_id`, at or after position `i`.
pub open spec fn find_svc_from(ss: Seq<ServiceSlot>, type_id: u64, i: int) -> Option<int>
    decreases ss.len() - i,
{
    if i < 0 || i >= ss.len() {
        None
    } else if ss[i].type_id == type_id {
        Some(i)
    } else {
        find_svc_from(ss, type_id, i + 1)
    }
}

/// The slot index of service interface `type_id`, if registered.
pub open spec fn find_svc(ss: Seq<ServiceSlot>, type_id: u64) -> Option<int> {
    find_svc_from(ss, type_id, 0)
}

/// Service interface `type_id` has a slot.
pub open spec fn has_svc(ss: Seq<ServiceSlot>, type_id: u64) -> bool {
    find_svc(ss, type_id) is Some
}

/// A service has been published for interface `type_id`.
pub open spec fn svc_published(ss: Seq<ServiceSlot>, type_id: u64) -> bool {
    match find_svc(ss, type_id) {
        Some(i) => ss[i].service is Some,
        None => false,
    }
}

/// The published service of interface `type_id`.
pub open spec fn svc_value(ss: Seq<ServiceSlot>, type_id: u64) -> u64 {
    ss[find_svc(ss, type_id).unwrap()].service.unwrap()
}

/// What the scan for a configuration type yields: the index found holds the
/// type and nothing before it does; if nothing is found, no slot holds it.
pub proof fn lemma_find_cfg_props(cs: Seq<ConfigSlot>, type_id: u64, i: int)
    requires
        0 <= i <= cs.len(),
    ensures
        match find_cfg_from(cs, type_id, i) {
            Some(j) => i <= j < cs.len() && cs[j].type_id == type_id && forall|k: int|
                i <= k < j ==> cs[k].type_id != type_id,
            None => forall|k: int| i <= k < cs.len() ==> cs[k].type_id != type_id,
        },
    decreases cs.len() - i,
{
    if i < cs.len() {
        lemma_find_cfg_props(cs, type_id, i + 1);
    }
}

/// What the scan for a service interface yields.
pub proof fn lemma_find_svc_props(ss: Seq<ServiceSlot>, type_id: u64, i: int)
    requires
        0 <= i <= ss.len(),
    ensures
        match find_svc_from(ss, type_id, i) {
            Some(j) => i <= j < ss.len() && ss[j].type_id == type_id && forall|k: int|
                i <= k < j ==> ss[k].type_id != type_id,
            None => forall|k: int| i <= k < ss.len() ==> ss[k].type_id != type_id,
        },
    decreases ss.len() - i,
{
    if i < ss.len() {
        lemma_find_svc_props(ss, type_id, i + 1);
    }
}

/// Inserting or overwriting the configuration value of one type. A new slot
/// starts locked; an existing slot keeps its locked state.
pub open spec fn spec_add_config(cs: Seq<ConfigSlot>, type_id: u64, value: u64) -> Seq<ConfigSlot> {
    match find_cfg(cs, type_id) {
        Some(i) => cs.update(i, ConfigSlot { type_id, value, locked: cs[i].locked }),
        None => cs.push(ConfigSlot { type_id, value, locked: true }),
    }
}

/// Registering and publishing the service of one interface.
pub open spec fn spec_add_service(ss: Seq<ServiceSlot>, type_id: u64, service: u64) -> Seq<
    ServiceSlot,
> {
    match find_svc(ss, type_id) {
        Some(i) => ss.update(i, ServiceSlot { type_id, service: Some(service) }),
        None => ss.push(ServiceSlot { type_id, service: Some(service) }),
    }
}

/// The configuration slots after the commands from position `i` on have been
/// applied in order.
pub open spec fn apply_cmds_cfg(cs: Seq<ConfigSlot>, cmds: Seq<Command>, i: int) -> Seq<ConfigSlot>
    decreases cmds.len() - i,
{
    if i < 0 || i >= cmds.len() {
        cs
    } else {
        let next = match cmds[i] {
            Command::AddConfig { type_id, value } => spec_add_config(cs, type_id, value),
            Command::AddService { .. } => cs,
        };
        apply_cmds_cfg(next, cmds, i + 1)
    }
}

/// The service slots after the commands from position `i` on have been
/// applied in order.
pub open spec fn apply_cmds_svc(ss: Seq<ServiceSlot>, cmds: Seq<Command>, i: int) -> Seq<
    ServiceSlot,
>
    decreases cmds.len() - i,
{
    if i < 0 || i >= cmds.len() {
        ss
    } else {
        let next = match cmds[i] {
            Command::AddService { type_id, service } => spec_add_service(ss, type_id, service),
            Command::AddConfig { .. } => ss,
        };
        apply_cmds_svc(next, cmds, i + 1)
    }
}

/// No two configuration slots hold the same type.
pub open spec fn cfg_wf(cs: Seq<ConfigSlot>) -> bool {
    forall|i: int, j: int| 0 <= i < j < cs.len() ==> cs[i].type_id != cs[j].type_id
}

/// No two service slots hold the same interface.
pub open spec fn svc_wf(ss: Seq<ServiceSlot>) -> bool {
    forall|i: int, j: int| 0 <= i < j < ss.len() ==> ss[i].type_id != ss[j].type_id
}

/// The single source of truth for configuration and services, plus the
/// pending deferred commands and the boot- and runtime-service tables.
pub struct Storage {
    pub configs: Vec<ConfigSlot>,
    pub services: Vec<ServiceSlot>,
    pub deferred: Vec<Command>,
    pub boot_services: Option<u64>,
    pub runtime_services: Option<u64>,
}

impl Storage {
    /// Each registered type and interface has exactly one slot.
    pub open spec fn wf(&self) -> bool {
        cfg_wf(self.configs@) && svc_wf(self.services@)
    }

    /// Empty storage: no slots, no pending commands, no firmware tables.
    pub fn new() -> (s: Storage)
        ensures
            s.configs@.len() == 0,
            s.services@.len() == 0,
            s.deferred@.len() == 0,
            s.boot_services is None,
            s.runtime_services is None,
            s.wf(),
    {
        Storage {
            configs: Vec::new(),
            services: Vec::new(),
            deferred: Vec::new(),
            boot_services: None,
            runtime_services: None,
        }
    }

    /// The slot index of configuration type `type_id`, if registered.
    pub fn find_config(&self, type_id: u64) -> (r: Option<usize>)
        ensures
            match r {
                Some(i) => find_cfg(self.configs@, type_id) == Some(i as int),
                None => find_cfg(self.configs@, type_id) is None,
            },
    {
        let mut i: usize = 0;
        while i < self.configs.len()
            invariant
                i <= self.configs@.len(),
                find_cfg(self.configs@, type_id) == find_cfg_from(self.configs@, type_id, i as int),
            decreases self.configs@.len() - i,
        {
            if self.configs[i].type_id == type_id {
                return Some(i);
            }
            i = i + 1;
        }
        None
    }

    /// The slot index of service interface `type_id`, if registered.
    pub fn find_service(&self, type_id: u64) -> (r: Option<usize>)
        ensures
            match r {
                Some(i) => find_svc(self.services@, type_id) == Some(i as int),
                None => find_svc(self.services@, type_id) is None,
            },
    {
        let mut i: usize = 0;
        while i < self.services.len()
            invariant
                i <= self.services@.len(),
                find_svc(self.services@, type_id) == find_svc_from(
                    self.services@,
                    type_id,
                    i as int,
                ),
            decreases self.services@.len() - i,
        {
            if self.services[i].type_id == type_id {
                return Some(i);
            }
            i = i + 1;
        }
        None
    }

    /// Inserts or overwrites the configuration value for `type_id`,
    /// returning its slot index. A new slot starts locked; an existing slot
    /// keeps its locked state and its index.
    pub fn add_config(&mut self, type_id: u64, value: u64) -> (id: usize)
        requires
            old(self).wf(),
        ensures
            final(self).wf(),
            final(self).configs@ == spec_add_config(old(self).configs@, type_id, value),
            find_cfg(final(self).configs@, type_id) == Some(id as int),
            final(self).services@ == old(self).services@,
            final(self).deferred@ == old(self).deferred@,
            final(self).boot_services == old(self).boot_services,
            final(self).runtime_services == old(self).runtime_services,
    {
        proof {
            lemma_find_cfg_props(self.configs@, type_id, 0);
        }
        match self.find_config(type_id) {
            Some(i) => {
                let locked = self.configs[i].locked;
                self.configs[i] = ConfigSlot { type_id, value, locked };
                proof {
                    let cs = self.configs@;
                    lemma_find_cfg_props(cs, type_id, 0);
                    assert forall|a: int, b: int| 0 <= a < b < cs.len() implies cs[a].type_id
                        != cs[b].type_id by {
                        assert(old(self).configs@[a].type_id == cs[a].type_id);
                        assert(old(self).configs@[b].type_id == cs[b].type_id);
                    }
                    assert(find_cfg_from(cs, type_id, 0) == Some(i as int)) by {
                        lemma_find_unchanged_cfg(old(self).configs@, cs, type_id, 0);
                    }
                }
                i
            },
            None => {
                let id = self.configs.len();
                self.configs.push(ConfigSlot { type_id, value, locked: true });
                proof {
                    let cs = self.configs@;
                    assert(find_cfg_from(cs, type_id, 0) == Some(id as int)) by {
                        lemma_find_cfg_props(cs, type_id, 0);
                        assert(cs[id as int].type_id == type_id);
                    }
                }
                id
            },
        }
    }

    /// Registers configuration type `type_id` with its default value if no
    /// slot exists yet, and returns the slot index. An existing slot is left
    /// untouched.
    pub fn add_config_default_if_not_present(&mut self, type_id: u64) -> (id: usize)
        requires
            old(self).wf(),
        ensures
            final(self).wf(),
            final(self).configs@ == if has_cfg(old(self).configs@, type_id) {
                old(self).configs@
            } else {
                old(self).configs@.push(ConfigSlot { type_id, value: 0, locked: true })
            },
            find_cfg(final(self).configs@, type_id) == Some(id as int),
            final(self).services@ == old(self).services@,
            final(self).deferred@ == old(self).deferred@,
            final(self).boot_services == old(self).boot_services,
            final(self).runtime_services == old(self).runtime_services,
    {
        match self.find_config(type_id) {
            Some(i) => i,
            None => {
                proof {
                    lemma_find_cfg_props(self.configs@, type_id, 0);
                }
                let id = self.configs.len();
                self.configs.push(ConfigSlot { type_id, value: 0, locked: true });
                proof {
                    let cs = self.configs@;
                    assert(find_cfg_from(cs, type_id, 0) == Some(id as int)) by {
                        lemma_find_cfg_props(cs, type_id, 0);
                        assert(cs[id as int].type_id == type_id);
                    }
                }
                id
            },
        }
    }

    /// Unlocks the configuration slot at `id`, making it writable.
    pub fn unlock_config(&mut self, id: usize)
        requires
            id < old(self).configs@.len(),
        ensures
            final(self).configs@ == old(self).configs@.update(
                id as int,
                ConfigSlot {
                    type_id: old(self).configs@[id as int].type_id,
                    value: old(self).configs@[id as int].value,
                    locked: false,
                },
            ),
            final(self).services@ == old(self).services@,
            final(self).deferred@ == old(self).deferred@,
            final(self).boot_services == old(self).boot_services,
            final(self).runtime_services == old(self).runtime_services,
    {
        let slot = self.configs[id];
        self.configs[id] = ConfigSlot { type_id: slot.type_id, value: slot.value, locked: false };
    }

    /// Locks the configuration slot at `id`, freezing its value.
    pub fn lock_config(&mut self, id: usize)
        requires
            id < old(self).configs@.len(),
        ensures
            final(self).configs@ == old(self).configs@.update(
                id as int,
                ConfigSlot {
                    type_id: old(self).configs@[id as int].type_id,
                    value: old(self).configs@[id as int].value,
                    locked: true,
                },
            ),
            final(self).services@ == old(self).services@,
            final(self).deferred@ == old(self).deferred@,
            final(self).boot_services == old(self).boot_services,
            final(self).runtime_services == old(self).runtime_services,
    {
        let slot = self.configs[id];
        self.configs[id] = ConfigSlot { type_id: slot.type_id, value: slot.value, locked: true };
    }

    /// Locks every configuration slot: the sweep the external scheduler runs
    /// once no component can make further progress.
    pub fn lock_configs(&mut self)
        ensures
            final(self).configs@.len() == old(self).configs@.len(),
            forall|i: int|
                0 <= i < old(self).configs@.len() ==> final(self).configs@[i] == (ConfigSlot {
                    type_id: old(self).configs@[i].type_id,
                    value: old(self).configs@[i].value,
                    locked: true,
                }),
            final(self).services@ == old(self).services@,
            final(self).deferred@ == old(self).deferred@,
            final(self).boot_services == old(self).boot_services,
            final(self).runtime_services == old(self).runtime_services,
    {
        let mut i: usize = 0;
        while i < self.configs.len()
            invariant
                i <= self.configs@.len(),
                self.configs@.len() == old(self).configs@.len(),
                forall|j: int|
                    0 <= j < i ==> self.configs@[j] == (ConfigSlot {
                        type_id: old(self).configs@[j].type_id,
                        value: old(self).configs@[j].value,
                        locked: true,
                    }),
                forall|j: int|
                    i <= j < self.configs@.len() ==> self.configs@[j] == old(self).configs@[j],
                self.services@ == old(self).services@,
                self.deferred@ == old(self).deferred@,
                self.boot_services == old(self).boot_services,
                self.runtime_services == old(self).runtime_services,
            decreases self.configs@.len() - i,
        {
            let slot = self.configs[i];
            self.configs[i] = ConfigSlot { type_id: slot.type_id, value: slot.value, locked: true };
            i = i + 1;
        }
    }

    /// The value held for configuration type `type_id`, if registered.
    pub fn get_config(&self, type_id: u64) -> (r: Option<u64>)
        ensures
            r == if has_cfg(self.configs@, type_id) {
                Some(cfg_value(self.configs@, type_id))
            } else {
                None::<u64>
            },
    {
        proof {
            lemma_find_cfg_props(self.configs@, type_id, 0);
        }
        match self.find_config(type_id) {
            Some(i) => Some(self.configs[i].value),
            None => None,
        }
    }

    /// A shared read of the configuration slot at `id`. Callers must only
    /// request slots already cleared by validation.
    pub fn get_shared(&self, id: usize) -> (v: u64)
        requires
            id < self.configs@.len(),
        ensures
            v == self.configs@[id as int].value,
    {
        self.configs[id].value
    }

    /// An exclusive write of the configuration slot at `id`. Callers must
    /// only request slots already cleared by validation.
    pub fn set_config_value(&mut self, id: usize, value: u64)
        requires
            id < old(self).configs@.len(),
        ensures
            final(self).configs@ == old(self).configs@.update(
                id as int,
                ConfigSlot {
                    type_id: old(self).configs@[id as int].type_id,
                    value,
                    locked: old(self).configs@[id as int].locked,
                },
            ),
            final(self).services@ == old(self).services@,
            final(self).deferred@ == old(self).deferred@,
            final(self).boot_services == old(self).boot_services,
            final(self).runtime_services == old(self).runtime_services,
    {
        let slot = self.configs[id];
        self.configs[id] = ConfigSlot { type_id: slot.type_id, value, locked: slot.locked };
    }

    /// Whether the configuration slot at `id` is locked.
    pub fn config_locked(&self, id: usize) -> (r: bool)
        requires
            id < self.configs@.len(),
        ensures
            r == self.configs@[id as int].locked,
    {
        self.configs[id].locked
    }

    /// Registers a slot for service interface `type_id` if none exists, and
    /// returns the slot index. Registration does not publish a service.
    pub fn register_service(&mut self, type_id: u64) -> (id: usize)
        requires
            old(self).wf(),
        ensures
            final(self).wf(),
            final(self).services@ == if has_svc(old(self).services@, type_id) {
                old(self).services@
            } else {
                old(self).services@.push(ServiceSlot { type_id, service: None })
            },
            find_svc(final(self).services@, type_id) == Some(id as int),
            final(self).configs@ == old(self).configs@,
            final(self).deferred@ == old(self).deferred@,
            final(self).boot_services == old(self).boot_services,
            final(self).runtime_services == old(self).runtime_services,
    {
        match self.find_service(type_id) {
            Some(i) => i,
            None => {
                proof {
                    lemma_find_svc_props(self.services@, type_id, 0);
                }
                let id = self.services.len();
                self.services.push(ServiceSlot { type_id, service: None });
                proof {
                    let ss = self.services@;
                    assert(find_svc_from(ss, type_id, 0) == Some(id as int)) by {
                        lemma_find_svc_props(ss, type_id, 0);
                        assert(ss[id as int].type_id == type_id);
                    }
                }
                id
            },
        }
    }

    /// Publishes `service` in the service slot at `id`.
    pub fn insert_service(&mut self, id: usize, service: u64)
        requires
            id < old(self).services@.len(),
        ensures
            final(self).services@ == old(self).services@.update(
                id as int,
                ServiceSlot {
                    type_id: old(self).services@[id as int].type_id,
                    service: Some(service),
                },
            ),
            final(self).configs@ == old(self).configs@,
            final(self).deferred@ == old(self).deferred@,
            final(self).boot_services == old(self).boot_services,
            final(self).runtime_services == old(self).runtime_services,
    {
        let slot = self.services[id];
        self.services[id] = ServiceSlot { type_id: slot.type_id, service: Some(service) };
    }

    /// Registers interface `type_id` and publishes `service` for it.
    pub fn add_service(&mut self, type_id: u64, service: u64)
        requires
            old(self).wf(),
        ensures
            final(self).wf(),
            final(self).services@ == spec_add_service(old(self).services@, type_id, service),
            final(self).configs@ == old(self).configs@,
            final(self).deferred@ == old(self).deferred@,
            final(self).boot_services == old(self).boot_services,
            final(self).runtime_services == old(self).runtime_services,
    {
        proof {
            lemma_find_svc_props(self.services@, type_id, 0);
        }
        let id = self.register_service(type_id);
        proof {
            lemma_find_svc_props(self.services@, type_id, 0);
        }
        self.insert_service(id, service);
        proof {
            if !has_svc(old(self).services@, type_id) {
                assert(id == old(self).services@.len());
                assert(self.services@ =~= spec_add_service(old(self).services@, type_id, service));
            }
        }
    }

    /// The published service for interface `type_id`, if any. The slot index
    /// form of this lookup is [`Storage::get_raw_service`].
    pub fn get_service(&self, type_id: u64) -> (r: Option<u64>)
        ensures
            r == if svc_published(self.services@, type_id) {
                Some(svc_value(self.services@, type_id))
            } else {
                None::<u64>
            },
    {
        proof {
            lemma_find_svc_props(self.services@, type_id, 0);
        }
        match self.find_service(type_id) {
            Some(i) => self.services[i].service,
            None => None,
        }
    }

    /// The published service in the slot at `id`, if any.
    pub fn get_raw_service(&self, id: usize) -> (r: Option<u64>)
        requires
            id < self.services@.len(),
        ensures
            r == self.services@[id as int].service,
    {
        self.services[id].service
    }

    /// Appends one deferred command to the queue.
    pub fn push_deferred(&mut self, c: Command)
        ensures
            final(self).deferred@ == old(self).deferred@.push(c),
            final(self).configs@ == old(self).configs@,
            final(self).services@ == old(self).services@,
            final(self).boot_services == old(self).boot_services,
            final(self).runtime_services == old(self).runtime_services,
    {
        self.deferred.push(c);
    }

    /// Appends a whole command queue, in its order, to the deferred queue.
    pub fn append_deferred(&mut self, cmds: Vec<Command>)
        ensures
            final(self).deferred@ == old(self).deferred@ + cmds@,
            final(self).configs@ == old(self).configs@,
            final(self).services@ == old(self).services@,
            final(self).boot_services == old(self).boot_services,
            final(self).runtime_services == old(self).runtime_services,
    {
        let mut cmds = cmds;
        self.deferred.append(&mut cmds);
    }

    /// Whether no deferred command is pending.
    pub fn deferred_is_empty(&self) -> (r: bool)
        ensures
            r == (self.deferred@.len() == 0),
    {
        self.deferred.len() == 0
    }

    /// Runs every queued deferred command against storage, in enqueue order,
    /// then clears the queue.
    pub fn apply_deferred(&mut self)
        requires
            old(self).wf(),
        ensures
            final(self).wf(),
            final(self).configs@ == apply_cmds_cfg(old(self).configs@, old(self).deferred@, 0),
            final(self).services@ == apply_cmds_svc(old(self).services@, old(self).deferred@, 0),
            final(self).deferred@.len() == 0,
            final(self).boot_services == old(self).boot_services,
            final(self).runtime_services == old(self).runtime_services,
    {
        let ghost cmds = self.deferred@;
        let mut i: usize = 0;
        while i < self.deferred.len()
            invariant
                self.wf(),
                i <= cmds.len(),
                self.deferred@ == cmds,
                apply_cmds_cfg(old(self).configs@, cmds, 0) == apply_cmds_cfg(
                    self.configs@,
                    cmds,
                    i as int,
                ),
                apply_cmds_svc(old(self).services@, cmds, 0) == apply_cmds_svc(
                    self.services@,
                    cmds,
                    i as int,
                ),
                self.boot_services == old(self).boot_services,
                self.runtime_services == old(self).runtime_services,
            decreases cmds.len() - i,
        {
            let c = self.deferred[i];
            match c {
                Command::AddConfig { type_id, value } => {
                    let _ = self.add_config(type_id, value);
                },
                Command::AddService { type_id, service } => {
                    self.add_service(type_id, service);
                },
            }
            i = i + 1;
        }
        self.deferred.clear();
    }

    /// Installs the boot-services table handle.
    pub fn set_boot_services(&mut self, services: u64)
        ensures
            final(self).boot_services == Some(services),
            final(self).configs@ == old(self).configs@,
            final(self).services@ == old(self).services@,
            final(self).deferred@ == old(self).deferred@,
            final(self).runtime_services == old(self).runtime_services,
    {
        self.boot_services = Some(services);
    }

    /// Installs the runtime-services table handle.
    pub fn set_runtime_services(&mut self, services: u64)
        ensures
            final(self).runtime_services == Some(services),
            final(self).configs@ == old(self).configs@,
            final(self).services@ == old(self).services@,
            final(self).deferred@ == old(self).deferred@,
            final(self).boot_services == old(self).boot_services,
    {
        self.runtime_services = Some(services);
    }
}

/// Scanning for a type is unchanged when only the value or locked flag of a
/// slot changes: the two sequences carry the same type at every index.
pub proof fn lemma_find_unchanged_cfg(cs1: Seq<ConfigSlot>, cs2: Seq<ConfigSlot>, type_id: u64, i: int)
    requires
        0 <= i <= cs1.len(),
        cs1.len() == cs2.len(),
        forall|k: int| 0 <= k < cs1.len() ==> cs1[k].type_id == cs2[k].type_id,
    ensures
        find_cfg_from(cs1, type_id, i) == find_cfg_from(cs2, type_id, i),
    decreases cs1.len() - i,
{
    if i < cs1.len() {
        lemma_find_unchanged_cfg(cs1, cs2, type_id, i + 1);
    }
}

/// Scanning for an interface is unchanged when only a published service
/// changes: the two sequences carry the same interface at every index.
pub proof fn lemma_find_unchanged_svc(
    ss1: Seq<ServiceSlot>,
    ss2: Seq<ServiceSlot>,
    type_id: u64,
    i: int,
)
    requires
        0 <= i <= ss1.len(),
        ss1.len() == ss2.len(),
        forall|k: int| 0 <= k < ss1.len() ==> ss1[k].type_id == ss2[k].type_id,
    ensures
        find_svc_from(ss1, type_id, i) == find_svc_from(ss2, type_id, i),
    decreases ss1.len() - i,
{
    if i < ss1.len() {
        lemma_find_unchanged_svc(ss1, ss2, type_id, i + 1);
    }
}

/// Appending a slot does not change where an already-present type is found.
pub proof fn lemma_find_cfg_push(cs: Seq<ConfigSlot>, x: ConfigSlot, type_id: u64, i: int)
    requires
        0 <= i <= cs.len(),
    ensures
        find_cfg_from(cs, type_id, i) is Some ==> find_cfg_from(cs.push(x), type_id, i)
            == find_cfg_from(cs, type_id, i),
    decreases cs.len() - i,
{
    if i < cs.len() {
        lemma_find_cfg_push(cs, x, type_id, i + 1);
    }
}

/// Appending a slot does not change where an already-present interface is
/// found.
pub proof fn lemma_find_svc_push(ss: Seq<ServiceSlot>, x: ServiceSlot, type_id: u64, i: int)
    requires
        0 <= i <= ss.len(),
    ensures
        find_svc_from(ss, type_id, i) is Some ==> find_svc_from(ss.push(x), type_id, i)
            == find_svc_from(ss, type_id, i),
    decreases ss.len() - i,
{
    if i < ss.len() {
        lemma_find_svc_push(ss, x, type_id, i + 1);
    }
}

/// A type is found exactly when some slot from position `i` on holds it.
pub proof fn lemma_find_cfg_exists(cs: Seq<ConfigSlot>, type_id: u64, i: int)
    requires
        0 <= i <= cs.len(),
    ensures
        find_cfg_from(cs, type_id, i) is Some <==> exists|k: int|
            i <= k < cs.len() && cs[k].type_id == type_id,
    decreases cs.len() - i,
{
    if i < cs.len() {
        lemma_find_cfg_exists(cs, type_id, i + 1);
    }
}

/// Adding a configuration makes its type present and removes no other type.
pub proof fn lemma_add_config_presence(cs: Seq<ConfigSlot>, type_id: u64, value: u64, other: u64)
    ensures
        has_cfg(spec_add_config(cs, type_id, value), type_id),
        has_cfg(cs, other) ==> has_cfg(spec_add_config(cs, type_id, value), other),
{
    let cs2 = spec_add_config(cs, type_id, value);
    lemma_find_cfg_props(cs, type_id, 0);
    lemma_find_cfg_exists(cs, other, 0);
    lemma_find_cfg_exists(cs2, type_id, 0);
    lemma_find_cfg_exists(cs2, other, 0);
    match find_cfg(cs, type_id) {
        Some(i) => {
            assert(cs2[i].type_id == type_id);
        },
        None => {
            assert(cs2[cs.len() as int].type_id == type_id);
        },
    }
    if has_cfg(cs, other) {
        let k = choose|k: int| 0 <= k < cs.len() && cs[k].type_id == other;
        assert(cs2[k].type_id == other);
    }
}

/// Every configuration a queued command adds is present once the commands
/// from position `i` on have run, and no present configuration disappears.
pub proof fn lemma_apply_cmds_cfg_monotone(cs: Seq<ConfigSlot>, cmds: Seq<Command>, i: int, t: u64)
    requires
        0 <= i <= cmds.len(),
        has_cfg(cs, t),
    ensures
        has_cfg(apply_cmds_cfg(cs, cmds, i), t),
    decreases cmds.len() - i,
{
    if i < cmds.len() {
        match cmds[i] {
            Command::AddConfig { type_id, value } => {
                lemma_add_config_presence(cs, type_id, value, t);
                lemma_apply_cmds_cfg_monotone(spec_add_config(cs, type_id, value), cmds, i + 1, t);
            },
            Command::AddService { .. } => {
                lemma_apply_cmds_cfg_monotone(cs, cmds, i + 1, t);
            },
        }
    }
}

/// A configuration enqueued at position `j` is present once the commands
/// from position `i` on have run.
pub proof fn lemma_apply_cmds_cfg_adds(
    cs: Seq<ConfigSlot>,
    cmds: Seq<Command>,
    i: int,
    j: int,
    t: u64,
    v: u64,
)
    requires
        0 <= i <= j < cmds.len(),
        cmds[j] == (Command::AddConfig { type_id: t, value: v }),
    ensures
        has_cfg(apply_cmds_cfg(cs, cmds, i), t),
    decreases cmds.len() - i,
{
    if i == j {
        lemma_add_config_presence(cs, t, v, t);
        lemma_apply_cmds_cfg_monotone(spec_add_config(cs, t, v), cmds, i + 1, t);
    } else {
        match cmds[i] {
            Command::AddConfig { type_id, value } => {
                lemma_apply_cmds_cfg_adds(spec_add_config(cs, type_id, value), cmds, i + 1, j, t, v);
            },
            Command::AddService { .. } => {
                lemma_apply_cmds_cfg_adds(cs, cmds, i + 1, j, t, v);
            },
        }
    }
}

/// Publishing a service makes its interface available and unpublishes no
/// other interface.
pub proof fn lemma_add_service_presence(ss: Seq<ServiceSlot>, type_id: u64, service: u64, other: u64)
    ensures
        svc_published(spec_add_service(ss, type_id, service), type_id),
        svc_published(ss, other) ==> svc_published(spec_add_service(ss, type_id, service), other),
{
    let ss2 = spec_add_service(ss, type_id, service);
    lemma_find_svc_props(ss, type_id, 0);
    match find_svc(ss, type_id) {
        Some(i) => {
            lemma_find_unchanged_svc(ss, ss2, type_id, 0);
            assert(ss2[i].service is Some);
            if svc_published(ss, other) {
                lemma_find_unchanged_svc(ss, ss2, other, 0);
                lemma_find_svc_props(ss, other, 0);
                let k = find_svc(ss, other).unwrap();
                if k != i {
                    assert(ss2[k] == ss[k]);
                } else {
                    assert(ss2[k].service is Some);
                }
            }
        },
        None => {
            let n = ss.len() as int;
            lemma_find_svc_props(ss2, type_id, 0);
            assert(ss2[n].type_id == type_id);
            assert(find_svc(ss2, type_id) is Some) by {
                lemma_find_svc_exists(ss2, type_id, 0);
            }
            let j = find_svc(ss2, type_id).unwrap();
            assert(forall|k: int| 0 <= k < n ==> ss[k].type_id != type_id);
            assert(ss2[j].service is Some);
            if svc_published(ss, other) {
                lemma_find_svc_props(ss, other, 0);
                lemma_find_svc_push(ss, ServiceSlot { type_id, service: Some(service) }, other, 0);
                let k = find_svc(ss, other).unwrap();
                assert(ss2[k] == ss[k]);
            }
        },
    }
}

/// An interface is found exactly when some slot from position `i` on holds
/// it.
pub proof fn lemma_find_svc_exists(ss: Seq<ServiceSlot>, type_id: u64, i: int)
    requires
        0 <= i <= ss.len(),
    ensures
        find_svc_from(ss, type_id, i) is Some <==> exists|k: int|
            i <= k < ss.len() && ss[k].type_id == type_id,
    decreases ss.len() - i,
{
    if i < ss.len() {
        lemma_find_svc_exists(ss, type_id, i + 1);
    }
}

/// A published service stays published while queued commands run: running
/// the commands from position `i` on never unpublishes an interface.
pub proof fn lemma_apply_cmds_svc_monotone(ss: Seq<ServiceSlot>, cmds: Seq<Command>, i: int, t: u64)
    requires
        0 <= i <= cmds.len(),
        svc_published(ss, t),
    ensures
        svc_published(apply_cmds_svc(ss, cmds, i), t),
    decreases cmds.len() - i,
{
    if i < cmds.len() {
        match cmds[i] {
            Command::AddService { type_id, service } => {
                lemma_add_service_presence(ss, type_id, service, t);
                lemma_apply_cmds_svc_monotone(
                    spec_add_service(ss, type_id, service),
                    cmds,
                    i + 1,
                    t,
                );
            },
            Command::AddConfig { .. } => {
                lemma_apply_cmds_svc_monotone(ss, cmds, i + 1, t);
            },
        }
    }
}

/// A service enqueued at position `j` is published once the commands from
/// position `i` on have run.
pub proof fn lemma_apply_cmds_svc_adds(
    ss: Seq<ServiceSlot>,
    cmds: Seq<Command>,
    i: int,
    j: int,
    t: u64,
    v: u64,
)
    requires
        0 <= i <= j < cmds.len(),
        cmds[j] == (Command::AddService { type_id: t, service: v }),
    ensures
        svc_published(apply_cmds_svc(ss, cmds, i), t),
    decreases cmds.len() - i,
{
    if i == j {
        lemma_add_service_presence(ss, t, v, t);
        lemma_apply_cmds_svc_monotone(spec_add_service(ss, t, v), cmds, i + 1, t);
    } else {
        match cmds[i] {
            Command::AddService { type_id, service } => {
                lemma_apply_cmds_svc_adds(
                    spec_add_service(ss, type_id, service),
                    cmds,
                    i + 1,
                    j,
                    t,
                    v,
                );
            },
            Command::AddConfig { .. } => {
                lemma_apply_cmds_svc_adds(ss, cmds, i + 1, j, t, v);
            },
        }
    }
}

/// Adding or overwriting one configuration does not move any present
/// type's slot.
pub proof fn lemma_find_cfg_stable_add(cs: Seq<ConfigSlot>, t_add: u64, v: u64, t: u64)
    requires
        find_cfg(cs, t) is Some,
    ensures
        find_cfg(spec_add_config(cs, t_add, v), t) == find_cfg(cs, t),
{
    let cs2 = spec_add_config(cs, t_add, v);
    match find_cfg(cs, t_add) {
        Some(i) => {
            lemma_find_cfg_props(cs, t_add, 0);
            assert(forall|k: int| 0 <= k < cs.len() ==> cs[k].type_id == cs2[k].type_id);
            lemma_find_unchanged_cfg(cs, cs2, t, 0);
        },
        None => {
            lemma_find_cfg_push(cs, ConfigSlot { type_id: t_add, value: v, locked: true }, t, 0);
        },
    }
}

/// Registering or publishing one service does not move any present
/// interface's slot.
pub proof fn lemma_find_svc_stable_add(ss: Seq<ServiceSlot>, t_add: u64, v: u64, t: u64)
    requires
        find_svc(ss, t) is Some,
    ensures
        find_svc(spec_add_service(ss, t_add, v), t) == find_svc(ss, t),
{
    let ss2 = spec_add_service(ss, t_add, v);
    match find_svc(ss, t_add) {
        Some(i) => {
            lemma_find_svc_props(ss, t_add, 0);
            assert(forall|k: int| 0 <= k < ss.len() ==> ss[k].type_id == ss2[k].type_id);
            lemma_find_unchanged_svc(ss, ss2, t, 0);
        },
        None => {
            lemma_find_svc_push(ss, ServiceSlot { type_id: t_add, service: Some(v) }, t, 0);
        },
    }
}

} // verus!
