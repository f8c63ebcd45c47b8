//! Service handles and service registration.
//!
//! A service is a published, read-only, type-erased interface implementation.
//! Here a service object is carried as an opaque 64-bit handle chosen by its
//! producer; storage keeps at most one published handle per interface
//! identity. A [`Service`] value wraps such a handle once it has been looked
//! up, or is uninitialized until one is supplied.

use vstd::prelude::*;

use crate::storage::Storage;

verus! {

/// A handle to a published service. It starts uninitialized and is filled
/// exactly once, either from storage when used as a component parameter or
/// explicitly through [`Service::replace`].
#[derive(Clone, Copy, Debug, PartialEq, Eq, Structural)]
pub struct Service {
    /// The published service handle, if initialized.
    pub value: Option<u64>,
}

impl Service {
    /// A service handle with no value yet.
    pub fn new_uninit() -> (s: Service)
        ensures
            s.value is None,
    {
        Service { value: None }
    }

    /// Whether the handle has been initialized.
    pub fn is_init(&self) -> (r: bool)
        ensures
            r == (self.value is Some),
    {
        self.value.is_some()
    }

    /// Fills an uninitialized handle from an initialized one. The source is
    /// left untouched.
    pub fn replace(&mut self, service: &Service)
        requires
            old(self).value is None,
            service.value is Some,
        ensures
            final(self).value == service.value,
    {
        self.value = service.value;
    }

    /// A handle wrapping `value` directly, without storage.
    pub fn mock(value: u64) -> (s: Service)
        ensures
            s.value == Some(value),
    {
        Service { value: Some(value) }
    }

    /// The wrapped service handle. Using a handle before it is initialized
    /// is a programming error, so initialization is a precondition here.
    pub fn get(&self) -> (v: u64)
        requires
            self.value is Some,
        ensures
            self.value == Some(v),
    {
        match self.value {
            Some(v) => v,
            None => unreached(),
        }
    }
}

/// Implementors can register themselves as a published service. The
/// implementor names its interface identity and yields the service handle;
/// registration locates the interface's slot and publishes the handle there.
pub trait IntoService: Sized {
    /// The identity of the interface this service implements.
    fn service_type_id(&self) -> u64;

    /// The handle standing for the service object.
    fn service_handle(&self) -> u64;

    /// Registers the service with storage, consuming self.
    fn register(self, storage: &mut Storage)
        requires
            old(storage).wf(),
        ensures
            final(storage).wf(),
    ;

    /// Locates the slot of interface `type_id` and publishes `service`
    /// there: the common body of `register` implementations.
    fn register_service(storage: &mut Storage, type_id: u64, service: u64)
        requires
            old(storage).wf(),
        ensures
            final(storage).wf(),
            final(storage).services@ == crate::storage::spec_add_service(
                old(storage).services@,
                type_id,
                service,
            ),
            final(storage).configs@ == old(storage).configs@,
            final(storage).deferred@ == old(storage).deferred@,
            final(storage).boot_services == old(storage).boot_services,
            final(storage).runtime_services == old(storage).runtime_services,
    {
        storage.add_service(type_id, service);
    }
}

} // verus!
