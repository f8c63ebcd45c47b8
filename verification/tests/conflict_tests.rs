use patina::access::AccessKind;
use patina::error::EfiError;
use patina::params::{BaseParam, ParamEntry, ParamKind, ParamValue, RunOnce};
use patina::storage::Storage;
use patina::struct_component::{ParamFunction, StructComponent};

const TID_USIZE: u64 = 11;
const TID_I32: u64 = 12;

struct TwoMutableConfigs;

impl ParamFunction for TwoMutableConfigs {
    type In = ();

    fn param_spec(&self) -> Vec<ParamKind> {
        vec![
            ParamKind::Single(ParamEntry::Required(BaseParam::ConfigMut { type_id: TID_USIZE })),
            ParamKind::Single(ParamEntry::Required(BaseParam::ConfigMut { type_id: TID_USIZE })),
        ]
    }

    fn name(&self) -> &'static str {
        "TwoMutableConfigs"
    }

    fn run(
        &mut self,
        _input: &mut Option<()>,
        _params: &mut Vec<ParamValue>,
    ) -> Result<(), EfiError> {
        Ok(())
    }
}

/// Two mutable accesses to the same configuration type are rejected at
/// initialization, naming the mutable kind and the component.
#[test]
fn two_mutable_config_accesses_to_same_type_fail() {
    let mut storage = Storage::new();

    let mut component =
        StructComponent::<RunOnce, TwoMutableConfigs>::new(TwoMutableConfigs, ());
    let err = component.initialize(&mut storage).unwrap_err();
    assert_eq!(err.component, "TwoMutableConfigs");
    assert_eq!(err.new_access, AccessKind::ConfigWrite { type_id: TID_USIZE });
    assert_eq!(err.prior_access, AccessKind::ConfigWrite { type_id: TID_USIZE });
}

struct MutableThenReadOnly;

impl ParamFunction for MutableThenReadOnly {
    type In = ();

    fn param_spec(&self) -> Vec<ParamKind> {
        vec![
            ParamKind::Single(ParamEntry::Required(BaseParam::ConfigMut { type_id: TID_USIZE })),
            ParamKind::Single(ParamEntry::Required(BaseParam::Config { type_id: TID_USIZE })),
        ]
    }

    fn name(&self) -> &'static str {
        "MutableThenReadOnly"
    }

    fn run(
        &mut self,
        _input: &mut Option<()>,
        _params: &mut Vec<ParamValue>,
    ) -> Result<(), EfiError> {
        Ok(())
    }
}

/// A mutable and a read-only access to the same configuration type are
/// rejected at initialization, with the mutable one declared first.
#[test]
fn mutable_and_read_only_config_access_to_same_type_fails_mutable_first() {
    let mut storage = Storage::new();

    let mut component =
        StructComponent::<RunOnce, MutableThenReadOnly>::new(MutableThenReadOnly, ());
    let err = component.initialize(&mut storage).unwrap_err();
    assert_eq!(err.component, "MutableThenReadOnly");
    assert_eq!(err.new_access, AccessKind::ConfigRead { type_id: TID_USIZE });
    assert_eq!(err.prior_access, AccessKind::ConfigWrite { type_id: TID_USIZE });
}

struct ReadOnlyThenMutable;

impl ParamFunction for ReadOnlyThenMutable {
    type In = ();

    fn param_spec(&self) -> Vec<ParamKind> {
        vec![
            ParamKind::Single(ParamEntry::Required(BaseParam::Config { type_id: TID_USIZE })),
            ParamKind::Single(ParamEntry::Required(BaseParam::ConfigMut { type_id: TID_USIZE })),
        ]
    }

    fn name(&self) -> &'static str {
        "ReadOnlyThenMutable"
    }

    fn run(
        &mut self,
        _input: &mut Option<()>,
        _params: &mut Vec<ParamValue>,
    ) -> Result<(), EfiError> {
        Ok(())
    }
}

/// The same rejection happens with the read-only access declared first.
#[test]
fn mutable_and_read_only_config_access_to_same_type_fails_read_only_first() {
    let mut storage = Storage::new();

    let mut component =
        StructComponent::<RunOnce, ReadOnlyThenMutable>::new(ReadOnlyThenMutable, ());
    let err = component.initialize(&mut storage).unwrap_err();
    assert_eq!(err.component, "ReadOnlyThenMutable");
    assert_eq!(err.new_access, AccessKind::ConfigWrite { type_id: TID_USIZE });
    assert_eq!(err.prior_access, AccessKind::ConfigRead { type_id: TID_USIZE });
}

struct StorageThenConfig;

impl ParamFunction for StorageThenConfig {
    type In = ();

    fn param_spec(&self) -> Vec<ParamKind> {
        vec![
            ParamKind::Single(ParamEntry::Required(BaseParam::StorageWrite)),
            ParamKind::Single(ParamEntry::Required(BaseParam::Config { type_id: TID_USIZE })),
        ]
    }

    fn name(&self) -> &'static str {
        "StorageThenConfig"
    }

    fn run(
        &mut self,
        _input: &mut Option<()>,
        _params: &mut Vec<ParamValue>,
    ) -> Result<(), EfiError> {
        Ok(())
    }
}

/// Mutable whole-storage access excludes any per-slot configuration access.
#[test]
fn mutable_storage_and_immutable_config_fail() {
    let mut storage = Storage::new();

    let mut component = StructComponent::<RunOnce, StorageThenConfig>::new(StorageThenConfig, ());
    let err = component.initialize(&mut storage).unwrap_err();
    assert_eq!(err.new_access, AccessKind::ConfigRead { type_id: TID_USIZE });
    assert_eq!(err.prior_access, AccessKind::AllConfigsWrite);
}

struct ConfigThenStorage;

impl ParamFunction for ConfigThenStorage {
    type In = ();

    fn param_spec(&self) -> Vec<ParamKind> {
        vec![
            ParamKind::Single(ParamEntry::Required(BaseParam::Config { type_id: TID_USIZE })),
            ParamKind::Single(ParamEntry::Required(BaseParam::StorageWrite)),
        ]
    }

    fn name(&self) -> &'static str {
        "ConfigThenStorage"
    }

    fn run(
        &mut self,
        _input: &mut Option<()>,
        _params: &mut Vec<ParamValue>,
    ) -> Result<(), EfiError> {
        Ok(())
    }
}

/// The same exclusion applies when the whole-storage access comes second.
#[test]
fn config_and_mutable_storage_fail() {
    let mut storage = Storage::new();

    let mut component = StructComponent::<RunOnce, ConfigThenStorage>::new(ConfigThenStorage, ());
    let err = component.initialize(&mut storage).unwrap_err();
    assert_eq!(err.new_access, AccessKind::AllConfigsWrite);
    assert_eq!(err.prior_access, AccessKind::ConfigRead { type_id: TID_USIZE });
}

struct GroupedMutablePair;

impl ParamFunction for GroupedMutablePair {
    type In = ();

    fn param_spec(&self) -> Vec<ParamKind> {
        vec![ParamKind::Group(vec![
            ParamEntry::Required(BaseParam::ConfigMut { type_id: TID_I32 }),
            ParamEntry::Required(BaseParam::ConfigMut { type_id: TID_I32 }),
        ])]
    }

    fn name(&self) -> &'static str {
        "GroupedMutablePair"
    }

    fn run(
        &mut self,
        _input: &mut Option<()>,
        _params: &mut Vec<ParamValue>,
    ) -> Result<(), EfiError> {
        Ok(())
    }
}

/// A grouping of two mutable accesses to the same configuration type is
/// rejected at initialization just as two separate parameters would be,
/// naming the mutable kind.
#[test]
fn grouped_mutable_accesses_to_same_type_fail() {
    let mut storage = Storage::new();

    let mut component =
        StructComponent::<RunOnce, GroupedMutablePair>::new(GroupedMutablePair, ());
    let err = component.initialize(&mut storage).unwrap_err();
    assert_eq!(err.component, "GroupedMutablePair");
    assert_eq!(err.new_access, AccessKind::ConfigWrite { type_id: TID_I32 });
    assert_eq!(err.prior_access, AccessKind::ConfigWrite { type_id: TID_I32 });
}

struct TwoCommandHandles;

impl ParamFunction for TwoCommandHandles {
    type In = ();

    fn param_spec(&self) -> Vec<ParamKind> {
        vec![
            ParamKind::Single(ParamEntry::Required(BaseParam::Commands)),
            ParamKind::Single(ParamEntry::Required(BaseParam::Commands)),
        ]
    }

    fn name(&self) -> &'static str {
        "TwoCommandHandles"
    }

    fn run(
        &mut self,
        _input: &mut Option<()>,
        _params: &mut Vec<ParamValue>,
    ) -> Result<(), EfiError> {
        Ok(())
    }
}

/// Two deferred-command handles in one component are rejected at
/// initialization, naming the deferred-handle kind.
#[test]
fn two_deferred_command_handles_fail() {
    let mut storage = Storage::new();

    let mut component = StructComponent::<RunOnce, TwoCommandHandles>::new(TwoCommandHandles, ());
    let err = component.initialize(&mut storage).unwrap_err();
    assert_eq!(err.component, "TwoCommandHandles");
    assert_eq!(err.new_access, AccessKind::Deferred);
    assert_eq!(err.prior_access, AccessKind::Deferred);
}
