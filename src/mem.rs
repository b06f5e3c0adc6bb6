use std::sync::Arc;
use vstd::pervasive::strictly_cloned;
use vstd::prelude::*;
use vstd::rwlock::RwLock;

verus! {

/// The storage behind a cell: a lock whose predicate admits exactly the value
/// the owning handle last stored.
type Slot<T> = RwLock<T, spec_fn(T) -> bool>;

/// A reference-counted, lock-protected cell holding one value of type `T`.
#[verifier::reject_recursive_types(T)]
pub struct Ptr<T> {
    slot: Arc<Slot<T>>,
    value: Ghost<T>,
}

impl<T> Ptr<T> {
    /// The value currently stored in the cell.
    pub closed spec fn view(&self) -> T {
        self.value@
    }

    #[verifier::type_invariant]
    spec fn holds_value(&self) -> bool {
        forall|v: T| #[trigger] self.slot.inv(v) <==> v == self.value@
    }
}

impl<T: Clone> Ptr<T> {
    /// Wraps `val` in fresh storage and returns its handle.
    pub fn new(val: T) -> (p: Self)
        ensures
            p@ == val,
    {
        let ghost v = val;
        let slot = Arc::new(RwLock::new(val, Ghost(|x: T| x == v)));
        Ptr { slot, value: Ghost(v) }
    }

    /// Replaces the stored value with `val`; the previous value is dropped.
    ///
    /// A handle is the only way to reach its storage and `set` borrows it
    /// exclusively, so no reader can hold the old storage while it is
    /// replaced by fresh storage admitting only `val`.
    pub fn set(&mut self, val: T)
        ensures
            final(self)@ == val,
    {
        let ghost v = val;
        let slot = Arc::new(RwLock::new(val, Ghost(|x: T| x == v)));
        *self = Ptr { slot, value: Ghost(v) };
    }

    /// Takes the lock exclusively, clones the stored value, puts the value
    /// back and releases the lock before handing back the clone.
    pub fn clone_inner(&self) -> (r: T)
        ensures
            cloned(self@, r),
    {
        proof {
            use_type_invariant(self);
        }
        let (val, guard) = self.slot.acquire_write();
        let r = val.clone();
        guard.release_write(val);
        r
    }
}

/// Reading a cell right after storing `x` in it, with no store in between,
/// gives back a clone of `x`, and `x` itself where cloning gives an equal
/// value: `set` leaves `x` as the cell's value and `clone_inner` returns a
/// clone of the cell's value.
pub proof fn lemma_read_after_set<T: Clone>(stored: Ptr<T>, x: T, r: T)
    requires
        stored@ == x,
        cloned(stored@, r),
    ensures
        cloned(x, r),
        (forall|a: T, b: T| #[trigger] strictly_cloned(a, b) ==> a == b) ==> r == x,
{
}

/// A snapshot is independent of the cell. Reading borrows the cell only
/// shared, so it leaves the cell's value as it was, and what a read returns
/// depends on that value alone, never on an earlier snapshot. Where cloning
/// gives an equal value, every read until the next store returns exactly the
/// value that store left, however earlier snapshots were changed meanwhile.
pub proof fn lemma_snapshots_independent<T: Clone>(p: Ptr<T>, x: T, later: T)
    requires
        p@ == x,
        cloned(p@, later),
        forall|a: T, b: T| #[trigger] strictly_cloned(a, b) ==> a == b,
    ensures
        later == x,
{
}

} // verus!
