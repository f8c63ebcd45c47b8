use patina::access::{AccessKind, MetaData};
use patina::params::{
    BaseParam, BaseState, Commands, Config, ConfigMut, Param, ParamEntry, ParamKind, ParamState,
    ParamValue,
};
use patina::storage::Storage;

const TID_I32: u64 = 1;
const TID_U32: u64 = 2;
const TID_USIZE: u64 = 3;

fn my_fn_outside(cfg: &mut ConfigMut) {
    cfg.set(cfg.get() + 1);
}

fn my_fn_inside(cfg: &mut ConfigMut) {
    cfg.set(cfg.get() + 1);
    assert_eq!(43, cfg.get());
}

fn my_fn_config(cfg: &Config) {
    assert_eq!(cfg.get(), 42);
}

#[test]
fn test_config_mut_deref_sticks_outside_fn() {
    let mut config = ConfigMut::mock(42);
    my_fn_outside(&mut config);

    assert_eq!(config.get(), 43);
}

#[test]
fn test_config_mut_deref_sticks_inside_fn() {
    let mut cfg = ConfigMut::mock(42);
    my_fn_inside(&mut cfg);
}

#[test]
fn test_config_deref() {
    let config = Config::mock(42);

    my_fn_config(&config);
}

#[test]
fn test_config_can_be_accessed_while_unlocked() {
    let mut storage = Storage::new();
    let mut mock_metadata = MetaData::new("i32");

    let kind = ParamKind::Single(ParamEntry::Required(BaseParam::Config { type_id: TID_I32 }));
    let state = kind.init_state(&mut storage, &mut mock_metadata).unwrap();

    assert!(kind.try_validate(&state, &storage).is_ok());

    match kind.get_param(&state, &storage) {
        ParamValue::Config(c) => assert_eq!(0, c.get()),
        _ => panic!("expected a configuration value"),
    }
}

#[test]
fn test_config_cannot_be_accessed_while_unlocked() {
    let mut storage = Storage::new();
    let mut mock_metadata = MetaData::new("i32");

    // A mutable registration keeps the slot unlocked.
    let mut_kind = ParamKind::Single(ParamEntry::Required(BaseParam::ConfigMut {
        type_id: TID_I32,
    }));
    let mut_state = mut_kind.init_state(&mut storage, &mut mock_metadata).unwrap();

    // A read-only parameter for the same slot fails validation while it is
    // unlocked.
    let slot = match mut_state {
        ParamState::Single(BaseState::ConfigMut { slot }) => slot,
        _ => panic!("expected a mutable configuration state"),
    };
    let read_kind = ParamKind::Single(ParamEntry::Required(BaseParam::Config { type_id: TID_I32 }));
    let read_state = ParamState::Single(BaseState::Config { slot });
    assert_eq!(read_kind.try_validate(&read_state, &storage), Err("Config"));
}

#[test]
fn test_config_mut_cannot_be_accessed_while_locked() {
    let mut storage = Storage::new();
    let mut mock_metadata = MetaData::new("i32");

    let read_kind = ParamKind::Single(ParamEntry::Required(BaseParam::Config { type_id: TID_I32 }));
    let read_state = read_kind.init_state(&mut storage, &mut mock_metadata).unwrap();
    let slot = match read_state {
        ParamState::Single(BaseState::Config { slot }) => slot,
        _ => panic!("expected a read-only configuration state"),
    };

    let mut_kind = ParamKind::Single(ParamEntry::Required(BaseParam::ConfigMut {
        type_id: TID_I32,
    }));
    let mut_state = ParamState::Single(BaseState::ConfigMut { slot });
    assert_eq!(mut_kind.try_validate(&mut_state, &storage), Err("ConfigMut"));
}

#[test]
fn test_config_mut_can_always_be_retrieved_while_unlocked() {
    let mut storage = Storage::new();
    let mut mock_metadata = MetaData::new("i32");

    let kind = ParamKind::Single(ParamEntry::Required(BaseParam::ConfigMut { type_id: TID_I32 }));
    let state = kind.init_state(&mut storage, &mut mock_metadata).unwrap();

    assert!(kind.try_validate(&state, &storage).is_ok());

    match kind.get_param(&state, &storage) {
        ParamValue::ConfigMut(c) => assert_eq!(0, c.get()),
        _ => panic!("expected a mutable configuration value"),
    }
}

#[test]
fn test_config_mut_lock_fn_prevents_future_config_mut_access() {
    let mut storage = Storage::new();
    let mut mock_metadata = MetaData::new("i32");

    let kind = ParamKind::Single(ParamEntry::Required(BaseParam::ConfigMut { type_id: TID_I32 }));
    let state = kind.init_state(&mut storage, &mut mock_metadata).unwrap();

    assert!(kind.try_validate(&state, &storage).is_ok());

    let slot = match state {
        ParamState::Single(BaseState::ConfigMut { slot }) => slot,
        _ => panic!("expected a mutable configuration state"),
    };
    storage.lock_config(slot);

    assert!(kind.try_validate(&state, &storage).is_err());
}

#[test]
fn test_config_mut_and_storage_cannot_be_requested_in_same_function() {
    let mut storage = Storage::new();

    // Mock metadata for the param function. This gets updated as you init
    // each param.
    let mut mock_metadata = MetaData::new("i32");

    let storage_kind = ParamKind::Single(ParamEntry::Required(BaseParam::StorageRead));
    storage_kind.init_state(&mut storage, &mut mock_metadata).unwrap();

    let mut_kind = ParamKind::Single(ParamEntry::Required(BaseParam::ConfigMut {
        type_id: TID_I32,
    }));
    let err = mut_kind.init_state(&mut storage, &mut mock_metadata).unwrap_err();
    assert_eq!(err.component, "i32");
    assert_eq!(err.new_access, AccessKind::ConfigWrite { type_id: TID_I32 });
    assert_eq!(err.prior_access, AccessKind::AllConfigsRead);
}

#[test]
fn test_storage_can_always_be_retrieved() {
    let mut storage = Storage::new();
    let mut mock_metadata = MetaData::new("i32");

    let kind = ParamKind::Single(ParamEntry::Required(BaseParam::StorageRead));
    let state = kind.init_state(&mut storage, &mut mock_metadata).unwrap();

    assert!(kind.try_validate(&state, &storage).is_ok());

    // does not panic
    let _ = kind.get_param(&state, &storage);
}

#[test]
fn test_storage_mut_can_always_be_retrieved() {
    let mut storage = Storage::new();
    let mut mock_metadata = MetaData::new("i32");

    let kind = ParamKind::Single(ParamEntry::Required(BaseParam::StorageWrite));
    let state = kind.init_state(&mut storage, &mut mock_metadata).unwrap();

    assert!(kind.try_validate(&state, &storage).is_ok());

    // does not panic
    let _ = kind.get_param(&state, &storage);
}

#[test]
fn test_boot_services_fails_to_validate_when_null() {
    let mut storage = Storage::new(); // boot services not installed
    let mut mock_metadata = MetaData::new("i32");

    let kind = ParamKind::Single(ParamEntry::Required(BaseParam::BootServices));
    let state = kind.init_state(&mut storage, &mut mock_metadata).unwrap();
    assert_eq!(Err("BootServices"), kind.try_validate(&state, &storage));
}

#[test]
fn test_boot_services_can_be_retrieved() {
    let mut storage = Storage::new();
    let mut mock_metadata = MetaData::new("i32");

    storage.set_boot_services(0x1000);

    let kind = ParamKind::Single(ParamEntry::Required(BaseParam::BootServices));
    let state = kind.init_state(&mut storage, &mut mock_metadata).unwrap();
    assert!(kind.try_validate(&state, &storage).is_ok());

    match kind.get_param(&state, &storage) {
        ParamValue::BootServices(t) => assert_eq!(t, 0x1000),
        _ => panic!("expected the boot-services table"),
    }
}

#[test]
fn test_runtime_services_fails_to_validate_when_null() {
    let mut storage = Storage::new(); // runtime services not installed
    let mut mock_metadata = MetaData::new("i32");

    let kind = ParamKind::Single(ParamEntry::Required(BaseParam::RuntimeServices));
    let state = kind.init_state(&mut storage, &mut mock_metadata).unwrap();
    assert_eq!(Err("RuntimeServices"), kind.try_validate(&state, &storage));
}

#[test]
fn test_runtime_services_can_be_retrieved() {
    let mut storage = Storage::new();
    let mut mock_metadata = MetaData::new("i32");

    storage.set_runtime_services(0x2000);

    let kind = ParamKind::Single(ParamEntry::Required(BaseParam::RuntimeServices));
    let state = kind.init_state(&mut storage, &mut mock_metadata).unwrap();
    assert!(kind.try_validate(&state, &storage).is_ok());

    match kind.get_param(&state, &storage) {
        ParamValue::RuntimeServices(t) => assert_eq!(t, 0x2000),
        _ => panic!("expected the runtime-services table"),
    }
}

#[test]
fn test_option_returns_none_when_underlying_param_is_unavailable() {
    let mut storage = Storage::new();
    let mut mock_metadata = MetaData::new("i32");

    let kind = ParamKind::Single(ParamEntry::Optional(BaseParam::BootServices));
    let state = kind.init_state(&mut storage, &mut mock_metadata).unwrap();
    assert!(kind.try_validate(&state, &storage).is_ok());
    assert!(matches!(kind.get_param(&state, &storage), ParamValue::Empty));
}

#[test]
fn test_option_returns_underlying_param() {
    let mut storage = Storage::new();
    let mut mock_metadata = MetaData::new("i32");
    storage.add_config(TID_U32, 42);

    let kind = ParamKind::Single(ParamEntry::Optional(BaseParam::Config { type_id: TID_U32 }));
    let state = kind.init_state(&mut storage, &mut mock_metadata).unwrap();
    assert!(kind.try_validate(&state, &storage).is_ok());
    match kind.get_param(&state, &storage) {
        ParamValue::Config(c) => assert_eq!(c.get(), 42),
        _ => panic!("expected the wrapped configuration value"),
    }
}

#[test]
fn test_try_validate_on_tuple_returns_underlying_param_type_not_full_tuple_name() {
    let mut storage = Storage::new();
    let mut mock_metadata = MetaData::new("i32");
    let kind = ParamKind::Group(vec![
        ParamEntry::Required(BaseParam::BootServices),
        ParamEntry::Required(BaseParam::Config { type_id: TID_I32 }),
    ]);
    let state = kind.init_state(&mut storage, &mut mock_metadata).unwrap();
    // The failure names the member kind that is unavailable, not the whole
    // grouping.
    assert_eq!(Err("BootServices"), kind.try_validate(&state, &storage));
}

#[test]
fn test_get_commands() {
    let mut storage = Storage::new();
    let mut mock_metadata = MetaData::new("i32");

    let kind = ParamKind::Single(ParamEntry::Required(BaseParam::Commands));
    let state = kind.init_state(&mut storage, &mut mock_metadata).unwrap();
    assert!(kind.try_validate(&state, &storage).is_ok());

    let mut commands = match kind.get_param(&state, &storage) {
        ParamValue::Commands(c) => c,
        _ => panic!("expected a command-queue handle"),
    };
    assert!(commands.is_empty());
    commands.add_config(TID_I32, 42);
    assert!(!commands.is_empty());
}

#[test]
fn commands_mock_starts_empty() {
    let mut commands = Commands::mock();
    assert!(commands.is_empty());
    commands.add_config(TID_USIZE, 7);
    commands.add_service(5, 9);
    assert!(!commands.is_empty());
    assert_eq!(commands.queue.len(), 2);
}
