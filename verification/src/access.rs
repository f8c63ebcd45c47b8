//! Per-component access records and conflict detection.
//!
//! Every parameter of a component registers the accesses it will make against
//! shared storage (a read or write of one configuration slot, a read or write
//! of the whole storage, or use of the deferred-command queue). Before an
//! access is recorded it is checked against everything already recorded for
//! the same component; a conflict means the component could alias shared
//! state with itself, which is an authoring bug reported at initialization.

use vstd::prelude::*;

verus! {

/// One declared access to shared storage, identified by the configuration
/// type it touches where it touches a single slot.
#[derive(Clone, Copy, Debug, PartialEq, Eq, Structural)]
pub enum AccessKind {
    /// Read-only access to the configuration slot of one type.
    ConfigRead { type_id: u64 },
    /// Mutable access to the configuration slot of one type.
    ConfigWrite { type_id: u64 },
    /// Read-only access to every configuration slot.
    AllConfigsRead,
    /// Mutable access to the whole storage.
    AllConfigsWrite,
    /// Use of the deferred-command queue.
    Deferred,
}

/// Whether two accesses declared by the same component may alias shared
/// state: a write to a slot conflicts with any other access to that slot,
/// whole-storage access conflicts with any per-slot access of the opposing
/// polarity, and the deferred queue admits a single handle. The relation is
/// symmetric.
pub open spec fn pair_conflicts(a: AccessKind, b: AccessKind) -> bool {
    match (a, b) {
        (AccessKind::Deferred, AccessKind::Deferred) => true,
        (AccessKind::AllConfigsWrite, AccessKind::AllConfigsWrite) => true,
        (AccessKind::AllConfigsWrite, AccessKind::AllConfigsRead) => true,
        (AccessKind::AllConfigsRead, AccessKind::AllConfigsWrite) => true,
        (AccessKind::AllConfigsWrite, AccessKind::ConfigRead { .. }) => true,
        (AccessKind::ConfigRead { .. }, AccessKind::AllConfigsWrite) => true,
        (AccessKind::AllConfigsWrite, AccessKind::ConfigWrite { .. }) => true,
        (AccessKind::ConfigWrite { .. }, AccessKind::AllConfigsWrite) => true,
        (AccessKind::AllConfigsRead, AccessKind::ConfigWrite { .. }) => true,
        (AccessKind::ConfigWrite { .. }, AccessKind::AllConfigsRead) => true,
        (AccessKind::ConfigWrite { type_id: x }, AccessKind::ConfigWrite { type_id: y }) => x == y,
        (AccessKind::ConfigWrite { type_id: x }, AccessKind::ConfigRead { type_id: y }) => x == y,
        (AccessKind::ConfigRead { type_id: x }, AccessKind::ConfigWrite { type_id: y }) => x == y,
        _ => false,
    }
}

/// The first already-recorded access that conflicts with `a`, scanning the
/// record from position `i` on.
pub open spec fn spec_first_conflict_from(items: Seq<AccessKind>, a: AccessKind, i: int) -> Option<
    AccessKind,
>
    decreases items.len() - i,
{
    if i < 0 || i >= items.len() {
        None
    } else if pair_conflicts(items[i], a) {
        Some(items[i])
    } else {
        spec_first_conflict_from(items, a, i + 1)
    }
}

/// The first already-recorded access that conflicts with `a`, if any.
pub open spec fn spec_first_conflict(items: Seq<AccessKind>, a: AccessKind) -> Option<AccessKind> {
    spec_first_conflict_from(items, a, 0)
}

/// A sequence of declared accesses holds a conflict: some later declaration
/// aliases an earlier one.
pub open spec fn seq_has_conflict(items: Seq<AccessKind>) -> bool {
    exists|i: int, j: int| 0 <= i < j < items.len() && pair_conflicts(items[i], items[j])
}

/// A found conflict is a real one: if the scan reports a prior access, some
/// recorded item conflicts with the new one, and conversely.
pub proof fn lemma_first_conflict_iff(items: Seq<AccessKind>, a: AccessKind, i: int)
    requires
        0 <= i <= items.len(),
    ensures
        spec_first_conflict_from(items, a, i) is Some <==> exists|j: int|
            i <= j < items.len() && pair_conflicts(items[j], a),
    decreases items.len() - i,
{
    if i < items.len() {
        lemma_first_conflict_iff(items, a, i + 1);
    }
}

/// The record of the accesses one component has declared, in declaration
/// order.
pub struct Access {
    pub items: Vec<AccessKind>,
}

impl Access {
    /// An empty record.
    pub fn new() -> (a: Access)
        ensures
            a.items@.len() == 0,
    {
        Access { items: Vec::new() }
    }

    /// Whether `a` and `b` may alias shared state.
    pub fn kinds_conflict(a: &AccessKind, b: &AccessKind) -> (r: bool)
        ensures
            r == pair_conflicts(*a, *b),
    {
        match (a, b) {
            (AccessKind::Deferred, AccessKind::Deferred) => true,
            (AccessKind::AllConfigsWrite, AccessKind::AllConfigsWrite) => true,
            (AccessKind::AllConfigsWrite, AccessKind::AllConfigsRead) => true,
            (AccessKind::AllConfigsRead, AccessKind::AllConfigsWrite) => true,
            (AccessKind::AllConfigsWrite, AccessKind::ConfigRead { .. }) => true,
            (AccessKind::ConfigRead { .. }, AccessKind::AllConfigsWrite) => true,
            (AccessKind::AllConfigsWrite, AccessKind::ConfigWrite { .. }) => true,
            (AccessKind::ConfigWrite { .. }, AccessKind::AllConfigsWrite) => true,
            (AccessKind::AllConfigsRead, AccessKind::ConfigWrite { .. }) => true,
            (AccessKind::ConfigWrite { .. }, AccessKind::AllConfigsRead) => true,
            (AccessKind::ConfigWrite { type_id: x }, AccessKind::ConfigWrite { type_id: y }) => x
                == y,
            (AccessKind::ConfigWrite { type_id: x }, AccessKind::ConfigRead { type_id: y }) => x
                == y,
            (AccessKind::ConfigRead { type_id: x }, AccessKind::ConfigWrite { type_id: y }) => x
                == y,
            _ => false,
        }
    }

    /// Scans the record for the first access that conflicts with `a`.
    pub fn check(&self, a: &AccessKind) -> (r: Option<AccessKind>)
        ensures
            r == spec_first_conflict(self.items@, *a),
    {
        let mut i: usize = 0;
        while i < self.items.len()
            invariant
                i <= self.items@.len(),
                spec_first_conflict(self.items@, *a) == spec_first_conflict_from(
                    self.items@,
                    *a,
                    i as int,
                ),
            decreases self.items@.len() - i,
        {
            if Self::kinds_conflict(&self.items[i], a) {
                return Some(self.items[i]);
            }
            i = i + 1;
        }
        None
    }

    /// Appends `a` to the record.
    pub fn record(&mut self, a: AccessKind)
        ensures
            final(self).items@ == old(self).items@.push(a),
    {
        self.items.push(a);
    }

    /// Whether the record already claims the deferred-command queue.
    pub fn has_deferred(&self) -> (r: bool)
        ensures
            r == self.items@.contains(AccessKind::Deferred),
    {
        let mut i: usize = 0;
        while i < self.items.len()
            invariant
                i <= self.items@.len(),
                forall|j: int| 0 <= j < i ==> self.items@[j] != AccessKind::Deferred,
            decreases self.items@.len() - i,
        {
            if matches!(self.items[i], AccessKind::Deferred) {
                assert(self.items@[i as int] == AccessKind::Deferred);
                return true;
            }
            i = i + 1;
        }
        false
    }
}

/// Per-component bookkeeping: the component's name, its declared access
/// record, and the name of the last parameter that failed validation.
pub struct MetaData {
    pub name: &'static str,
    pub access: Access,
    pub failed_param: Option<&'static str>,
}

impl MetaData {
    /// A fresh record for the component called `name`.
    pub fn new(name: &'static str) -> (m: MetaData)
        ensures
            m.name == name,
            m.access.items@.len() == 0,
            m.failed_param is None,
    {
        MetaData { name, access: Access::new(), failed_param: None }
    }

    /// The component's name.
    pub fn name(&self) -> (n: &'static str)
        ensures
            n == self.name,
    {
        self.name
    }

    /// The name of the parameter recorded by the last failed validation.
    pub fn failed_param(&self) -> (r: Option<&'static str>)
        ensures
            r == self.failed_param,
    {
        self.failed_param
    }

    /// Records the name of a parameter that failed validation.
    pub fn set_failed_param(&mut self, name: &'static str)
        ensures
            final(self).failed_param == Some(name),
            final(self).name == old(self).name,
            final(self).access == old(self).access,
    {
        self.failed_param = Some(name);
    }
}

/// A conflict between two access declarations of one component: an
/// initialization-time authoring error, naming both accesses and the
/// component.
#[derive(Clone, Copy, Debug, PartialEq, Eq)]
pub struct ConflictError {
    /// The component whose declarations conflict.
    pub component: &'static str,
    /// The access whose registration detected the conflict.
    pub new_access: AccessKind,
    /// The earlier access it conflicts with.
    pub prior_access: AccessKind,
}

/// What a conflict-free record guarantees: no two of its accesses alias, so
/// no slot is both written and otherwise touched by the same component, and
/// the unchecked extraction step that follows validation is safe.
pub proof fn lemma_conflict_free_record_has_no_aliasing(items: Seq<AccessKind>)
    requires
        !seq_has_conflict(items),
    ensures
        forall|i: int, j: int| 0 <= i < j < items.len() ==> !pair_conflicts(items[i], items[j]),
{
}

/// Declaring mutable access twice for the same configuration type is always
/// a conflict, wherever the two declarations stand.
pub proof fn lemma_two_writes_conflict(items: Seq<AccessKind>, i: int, j: int, t: u64)
    requires
        0 <= i < j < items.len(),
        items[i] == (AccessKind::ConfigWrite { type_id: t }),
        items[j] == (AccessKind::ConfigWrite { type_id: t }),
    ensures
        seq_has_conflict(items),
{
    assert(pair_conflicts(items[i], items[j]));
}

/// Declaring mutable and read-only access for the same configuration type is
/// a conflict, in whichever order the two are declared.
pub proof fn lemma_write_and_read_conflict(items: Seq<AccessKind>, i: int, j: int, t: u64)
    requires
        0 <= i < items.len(),
        0 <= j < items.len(),
        i != j,
        items[i] == (AccessKind::ConfigWrite { type_id: t }),
        items[j] == (AccessKind::ConfigRead { type_id: t }),
    ensures
        seq_has_conflict(items),
{
    if i < j {
        assert(pair_conflicts(items[i], items[j]));
    } else {
        assert(pair_conflicts(items[j], items[i]));
    }
}

/// Declaring two deferred-command handles is always a conflict.
pub proof fn lemma_two_deferred_conflict(items: Seq<AccessKind>, i: int, j: int)
    requires
        0 <= i < j < items.len(),
        items[i] == AccessKind::Deferred,
        items[j] == AccessKind::Deferred,
    ensures
        seq_has_conflict(items),
{
    assert(pair_conflicts(items[i], items[j]));
}

} // verus!
