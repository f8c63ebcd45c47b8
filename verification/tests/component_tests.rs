use patina::error::EfiError;
use patina::params::{BaseParam, ParamEntry, ParamKind, ParamValue, RunMany, RunOnce};
use patina::storage::Storage;
use patina::struct_component::{ParamFunction, StructComponent};

const TID_I32: u64 = 31;
const TID_U32: u64 = 32;
const SID_S: u64 = 33;

pub struct TestStructSuccess {
    pub x: i32,
}

impl ParamFunction for TestStructSuccess {
    type In = ();

    fn param_spec(&self) -> Vec<ParamKind> {
        vec![ParamKind::Single(ParamEntry::Required(BaseParam::Config { type_id: TID_I32 }))]
    }

    fn name(&self) -> &'static str {
        "TestStructSuccess"
    }

    fn run(
        &mut self,
        _input: &mut Option<()>,
        _params: &mut Vec<ParamValue>,
    ) -> Result<(), EfiError> {
        Ok(())
    }
}

pub enum TestEnumSuccess {
    A,
    #[allow(dead_code)]
    B,
}

impl ParamFunction for TestEnumSuccess {
    type In = ();

    fn param_spec(&self) -> Vec<ParamKind> {
        vec![ParamKind::Single(ParamEntry::Required(BaseParam::Config { type_id: TID_I32 }))]
    }

    fn name(&self) -> &'static str {
        "TestEnumSuccess"
    }

    fn run(
        &mut self,
        _input: &mut Option<()>,
        _params: &mut Vec<ParamValue>,
    ) -> Result<(), EfiError> {
        Ok(())
    }
}

pub struct TestStructNotDispatched {
    pub x: i32,
}

impl ParamFunction for TestStructNotDispatched {
    type In = ();

    fn param_spec(&self) -> Vec<ParamKind> {
        vec![ParamKind::Single(ParamEntry::Required(BaseParam::ConfigMut { type_id: TID_U32 }))]
    }

    fn name(&self) -> &'static str {
        "TestStructNotDispatched"
    }

    fn run(
        &mut self,
        _input: &mut Option<()>,
        _params: &mut Vec<ParamValue>,
    ) -> Result<(), EfiError> {
        Ok(())
    }
}

pub struct TestStructFail {
    pub x: i32,
}

impl ParamFunction for TestStructFail {
    type In = ();

    fn param_spec(&self) -> Vec<ParamKind> {
        Vec::new()
    }

    fn name(&self) -> &'static str {
        "TestStructFail"
    }

    fn run(
        &mut self,
        _input: &mut Option<()>,
        _params: &mut Vec<ParamValue>,
    ) -> Result<(), EfiError> {
        Err(EfiError::NotReady)
    }
}

#[test]
fn test_struct_component() {
    let test_struct = TestStructSuccess { x: 5 };
    let _ = StructComponent::<RunOnce, TestStructSuccess>::new(test_struct, ());
}

#[test]
fn test_enum_component() {
    let test_enum = TestEnumSuccess::A;
    let _ = StructComponent::<RunOnce, TestEnumSuccess>::new(test_enum, ());
}

#[test]
fn test_component_run_handling_works_as_expected() {
    let mut storage = Storage::new();

    let mut test_struct =
        StructComponent::<RunOnce, TestStructSuccess>::new(TestStructSuccess { x: 5 }, ());
    test_struct.initialize(&mut storage).unwrap();
    assert!(test_struct.run(&mut storage).is_ok_and(|res| res));

    let mut test_enum =
        StructComponent::<RunOnce, TestEnumSuccess>::new(TestEnumSuccess::A, ());
    test_enum.initialize(&mut storage).unwrap();
    assert!(test_enum.run(&mut storage).is_ok_and(|res| res));

    let mut test_struct = StructComponent::<RunOnce, TestStructNotDispatched>::new(
        TestStructNotDispatched { x: 5 },
        (),
    );
    test_struct.initialize(&mut storage).unwrap();
    storage.lock_configs(); // Lock it so the mutable configuration can't be accessed
    assert!(test_struct.run(&mut storage).is_ok_and(|res| !res));
    assert_eq!(test_struct.metadata().failed_param(), Some("ConfigMut"));

    let mut test_struct =
        StructComponent::<RunOnce, TestStructFail>::new(TestStructFail { x: 5 }, ());
    test_struct.initialize(&mut storage).unwrap();
    assert!(test_struct.run(&mut storage).is_err_and(|res| res == EfiError::NotReady));
}

//Test structs that use generics and where clause
struct GenericStruct<T>
where
    T: 'static,
{
    _x: T,
}

impl<T> ParamFunction for GenericStruct<T>
where
    T: 'static,
{
    type In = ();

    fn param_spec(&self) -> Vec<ParamKind> {
        vec![ParamKind::Single(ParamEntry::Required(BaseParam::Config { type_id: TID_U32 }))]
    }

    fn name(&self) -> &'static str {
        "GenericStruct"
    }

    fn run(
        &mut self,
        _input: &mut Option<()>,
        _params: &mut Vec<ParamValue>,
    ) -> Result<(), EfiError> {
        Ok(())
    }
}

#[test]
fn test_generic_struct_can_be_component() {
    let test_struct = GenericStruct { _x: 5 };
    let _ = StructComponent::<RunOnce, GenericStruct<i32>>::new(test_struct, ());
}

struct GenericStruct2<T: 'static> {
    _x: T,
}

impl<T: 'static> ParamFunction for GenericStruct2<T> {
    type In = ();

    fn param_spec(&self) -> Vec<ParamKind> {
        vec![ParamKind::Single(ParamEntry::Required(BaseParam::Config { type_id: TID_U32 }))]
    }

    fn name(&self) -> &'static str {
        "GenericStruct2"
    }

    fn run(
        &mut self,
        _input: &mut Option<()>,
        _params: &mut Vec<ParamValue>,
    ) -> Result<(), EfiError> {
        Ok(())
    }
}

#[test]
fn test_generic_struct_with_where_clause_can_be_component() {
    let test_struct = GenericStruct2 { _x: 5 };
    let _ = StructComponent::<RunOnce, GenericStruct2<i32>>::new(test_struct, ());
}

struct ByValue {
    _x: u32,
}

impl ParamFunction for ByValue {
    type In = ();

    fn param_spec(&self) -> Vec<ParamKind> {
        vec![ParamKind::Single(ParamEntry::Required(BaseParam::Config { type_id: TID_U32 }))]
    }

    fn name(&self) -> &'static str {
        "ByValue"
    }

    fn run(
        &mut self,
        _input: &mut Option<()>,
        _params: &mut Vec<ParamValue>,
    ) -> Result<(), EfiError> {
        Ok(())
    }
}

/// A component whose callable takes its input by value runs through the
/// one-shot marker.
#[test]
fn test_component_entry_point_that_take_by_value_works() {
    let _ = StructComponent::<RunOnce, ByValue>::new(ByValue { _x: 5 }, ());
}

struct ByRef {
    _x: u32,
}

impl ParamFunction for ByRef {
    type In = ();

    fn param_spec(&self) -> Vec<ParamKind> {
        vec![ParamKind::Single(ParamEntry::Required(BaseParam::Config { type_id: TID_U32 }))]
    }

    fn name(&self) -> &'static str {
        "ByRef"
    }

    fn run(
        &mut self,
        _input: &mut Option<()>,
        _params: &mut Vec<ParamValue>,
    ) -> Result<(), EfiError> {
        Ok(())
    }
}

/// A component whose callable borrows its input runs through the repeatable
/// marker.
#[test]
fn test_component_entry_point_that_take_by_ref_works() {
    let _ = StructComponent::<RunMany, ByRef>::new(ByRef { _x: 5 }, ());
}

struct ByMut {
    _x: u32,
}

impl ParamFunction for ByMut {
    type In = ();

    fn param_spec(&self) -> Vec<ParamKind> {
        vec![ParamKind::Single(ParamEntry::Required(BaseParam::Config { type_id: TID_U32 }))]
    }

    fn name(&self) -> &'static str {
        "ByMut"
    }

    fn run(
        &mut self,
        _input: &mut Option<()>,
        _params: &mut Vec<ParamValue>,
    ) -> Result<(), EfiError> {
        Ok(())
    }
}

/// A component whose callable mutably borrows its input runs through the
/// repeatable marker.
#[test]
fn test_component_entry_point_that_take_by_mut_works() {
    let _ = StructComponent::<RunMany, ByMut>::new(ByMut { _x: 5 }, ());
}

struct CountingRunner {
    pub ran: u32,
}

impl ParamFunction for CountingRunner {
    type In = ();

    fn param_spec(&self) -> Vec<ParamKind> {
        Vec::new()
    }

    fn name(&self) -> &'static str {
        "CountingRunner"
    }

    fn run(
        &mut self,
        _input: &mut Option<()>,
        _params: &mut Vec<ParamValue>,
    ) -> Result<(), EfiError> {
        self.ran += 1;
        Ok(())
    }
}

#[test]
fn test_param_function_consume_self_runs_successfully() {
    let mut storage = Storage::new();

    let mut component =
        StructComponent::<RunOnce, CountingRunner>::new(CountingRunner { ran: 0 }, ());
    component.initialize(&mut storage).unwrap();
    assert_eq!(component.run(&mut storage), Ok(true));
    assert_eq!(component.func.ran, 1);
}

struct BorrowingRunner {
    pub ran: u32,
}

impl ParamFunction for BorrowingRunner {
    type In = ();

    fn param_spec(&self) -> Vec<ParamKind> {
        Vec::new()
    }

    fn name(&self) -> &'static str {
        "BorrowingRunner"
    }

    fn run(
        &mut self,
        _input: &mut Option<()>,
        _params: &mut Vec<ParamValue>,
    ) -> Result<(), EfiError> {
        self.ran += 1;
        Ok(())
    }
}

#[test]
fn test_param_function_consume_ref_self_runs_successfully() {
    let mut storage = Storage::new();

    let mut component =
        StructComponent::<RunMany, BorrowingRunner>::new(BorrowingRunner { ran: 0 }, ());
    component.initialize(&mut storage).unwrap();
    assert_eq!(component.run(&mut storage), Ok(true));
    assert_eq!(component.func.ran, 1);
}

struct MutBorrowingRunner {
    pub ran: u32,
}

impl ParamFunction for MutBorrowingRunner {
    type In = ();

    fn param_spec(&self) -> Vec<ParamKind> {
        Vec::new()
    }

    fn name(&self) -> &'static str {
        "MutBorrowingRunner"
    }

    fn run(
        &mut self,
        _input: &mut Option<()>,
        _params: &mut Vec<ParamValue>,
    ) -> Result<(), EfiError> {
        self.ran += 1;
        Ok(())
    }
}

#[test]
fn test_param_function_consume_mut_ref_self_runs_successfully() {
    let mut storage = Storage::new();

    let mut component =
        StructComponent::<RunMany, MutBorrowingRunner>::new(MutBorrowingRunner { ran: 0 }, ());
    component.initialize(&mut storage).unwrap();
    assert_eq!(component.run(&mut storage), Ok(true));
    assert_eq!(component.func.ran, 1);
}

/// A one-shot component's callable is invoked at most once: after a
/// successful run, further scheduling attempts report "did not run" without
/// invoking it again.
#[test]
fn run_once_component_runs_at_most_once() {
    let mut storage = Storage::new();

    let mut component =
        StructComponent::<RunOnce, CountingRunner>::new(CountingRunner { ran: 0 }, ());
    component.initialize(&mut storage).unwrap();
    assert_eq!(component.run(&mut storage), Ok(true));
    assert_eq!(component.run(&mut storage), Ok(false));
    assert_eq!(component.run(&mut storage), Ok(false));
    assert_eq!(component.func.ran, 1);
}

/// A repeatable component may run in every round.
#[test]
fn run_many_component_runs_every_round() {
    let mut storage = Storage::new();

    let mut component =
        StructComponent::<RunMany, CountingRunner>::new(CountingRunner { ran: 0 }, ());
    component.initialize(&mut storage).unwrap();
    assert_eq!(component.run(&mut storage), Ok(true));
    assert_eq!(component.run(&mut storage), Ok(true));
    assert_eq!(component.func.ran, 2);
}

struct WriterA;

impl ParamFunction for WriterA {
    type In = ();

    fn param_spec(&self) -> Vec<ParamKind> {
        vec![ParamKind::Single(ParamEntry::Required(BaseParam::ConfigMut { type_id: TID_U32 }))]
    }

    fn name(&self) -> &'static str {
        "WriterA"
    }

    fn run(
        &mut self,
        _input: &mut Option<()>,
        params: &mut Vec<ParamValue>,
    ) -> Result<(), EfiError> {
        if let Some(ParamValue::ConfigMut(cm)) = params.get_mut(0) {
            cm.set(7);
            cm.lock();
        }
        Ok(())
    }
}

struct ReaderB {
    pub seen: Option<u64>,
}

impl ParamFunction for ReaderB {
    type In = ();

    fn param_spec(&self) -> Vec<ParamKind> {
        vec![ParamKind::Single(ParamEntry::Required(BaseParam::Config { type_id: TID_U32 }))]
    }

    fn name(&self) -> &'static str {
        "ReaderB"
    }

    fn run(
        &mut self,
        _input: &mut Option<()>,
        params: &mut Vec<ParamValue>,
    ) -> Result<(), EfiError> {
        if let Some(ParamValue::Config(c)) = params.get(0) {
            self.seen = Some(c.get());
        }
        Ok(())
    }
}

/// A writer unlocks the slot it claims, excluding readers; once it has run
/// and locked the slot, a reader validates and sees the written value.
#[test]
fn reader_waits_for_writer_to_lock_the_config() {
    let mut storage = Storage::new();

    let mut writer = StructComponent::<RunOnce, WriterA>::new(WriterA, ());
    writer.initialize(&mut storage).unwrap();

    let mut reader = StructComponent::<RunMany, ReaderB>::new(ReaderB { seen: None }, ());
    reader.initialize(&mut storage).unwrap();

    // Before the writer runs, the slot is unlocked and the reader must wait.
    assert_eq!(reader.run(&mut storage), Ok(false));
    assert_eq!(reader.metadata().failed_param(), Some("Config"));

    // The writer stores a value and locks the slot.
    assert_eq!(writer.run(&mut storage), Ok(true));

    // Now the reader validates and yields the value the writer set.
    assert_eq!(reader.run(&mut storage), Ok(true));
    assert_eq!(reader.func.seen, Some(7));
}

struct ServiceWaiter {
    pub seen: Option<u64>,
}

impl ParamFunction for ServiceWaiter {
    type In = ();

    fn param_spec(&self) -> Vec<ParamKind> {
        vec![ParamKind::Single(ParamEntry::Required(BaseParam::Service { type_id: SID_S }))]
    }

    fn name(&self) -> &'static str {
        "ServiceWaiter"
    }

    fn run(
        &mut self,
        _input: &mut Option<()>,
        params: &mut Vec<ParamValue>,
    ) -> Result<(), EfiError> {
        if let Some(ParamValue::Service(s)) = params.get(0) {
            self.seen = Some(s.get());
        }
        Ok(())
    }
}

/// A component waiting on a service fails validation until the service is
/// published; from the round it is published on, the component validates
/// and runs.
#[test]
fn service_waiter_runs_once_service_is_published() {
    let mut storage = Storage::new();

    let mut waiter = StructComponent::<RunMany, ServiceWaiter>::new(ServiceWaiter { seen: None }, ());
    waiter.initialize(&mut storage).unwrap();

    assert_eq!(waiter.run(&mut storage), Ok(false));
    assert_eq!(waiter.metadata().failed_param(), Some("Service"));

    storage.add_service(SID_S, 99);

    assert_eq!(waiter.run(&mut storage), Ok(true));
    assert_eq!(waiter.func.seen, Some(99));
    // The service stays published; the waiter keeps validating.
    assert_eq!(waiter.run(&mut storage), Ok(true));
}
