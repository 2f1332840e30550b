//! The dirty-tracking wrappers that gate expensive re-render work, and the
//! recoverable-or-fatal error sum.
//!
//! A dirty guard wraps a value together with a boolean flag. The flag is set
//! by every write access, even one that mutates nothing, and is cleared only
//! by an explicit consuming read; an ordinary read never clears it. This
//! conservative policy trades false-positive re-renders for the guarantee
//! that no write is ever missed.
//!
//! The guards own their value exclusively: the registry is the sole owner of
//! every group, so the lock acquisition of a reader-writer lock cannot fail
//! or be contended here, and the wrappers expose plain borrows instead of
//! lock guards.

use vstd::prelude::*;

verus! {

/// The state of a dirty guard: the guarded value and the flag.
#[verifier::ext_equal]
pub struct GuardState<T> {
    pub value: T,
    pub dirty: bool,
}

/// The state any write access leaves behind: the new value, and the flag
/// set unconditionally.
pub open spec fn written_state<T>(value: T) -> GuardState<T> {
    GuardState { value, dirty: true }
}

/// The state a consuming read leaves behind: the value untouched, and the
/// flag cleared.
pub open spec fn consumed_state<T>(s: GuardState<T>) -> GuardState<T> {
    GuardState { value: s.value, dirty: false }
}

/// The dirty-flag protocol: a consuming read immediately following any
/// write observes dirty = true, whatever was written; and of two
/// consecutive consuming reads with no intervening write, the second
/// observes dirty = false, whatever the state before.
pub proof fn lemma_dirty_flag_protocol<T>(s: GuardState<T>, value: T)
    ensures
        written_state(value).dirty,
        !consumed_state(written_state(value)).dirty,
        !consumed_state(consumed_state(s)).dirty,
{
}

/// A reader-writer wrapper with a dirty state check. The dirty state is set
/// whenever the value is accessed for writing, and is cleared manually or
/// by a consuming read.
pub struct DirtyCheckLock<T> {
    lock: T,
    dirty: bool,
}

impl<T> View for DirtyCheckLock<T> {
    type V = GuardState<T>;

    closed spec fn view(&self) -> GuardState<T> {
        GuardState { value: self.lock, dirty: self.dirty }
    }
}

impl<T> DirtyCheckLock<T> {
    /// Create a new instance with the given value. Sets `dirty` to `true`
    /// when created.
    pub fn new(t: T) -> (r: DirtyCheckLock<T>)
        ensures
            r@ == written_state(t),
    {
        DirtyCheckLock { lock: t, dirty: true }
    }

    /// Create a new instance around an already-guarded value. Sets `dirty`
    /// to `true` when created.
    pub fn from_lock(lock: T) -> (r: DirtyCheckLock<T>)
        ensures
            r@ == written_state(lock),
    {
        DirtyCheckLock { lock, dirty: true }
    }

    /// Whether a write happened since the last consuming read.
    pub fn is_dirty(&self) -> (r: bool)
        ensures
            r == self@.dirty,
    {
        self.dirty
    }

    /// Clear the dirty flag.
    pub fn clear_dirty(&mut self)
        ensures
            final(self)@ == consumed_state(old(self)@),
    {
        self.dirty = false;
    }

    /// Set the dirty flag explicitly.
    pub fn set_dirty(&mut self, dirty: bool)
        ensures
            final(self)@.value == old(self)@.value,
            final(self)@.dirty == dirty,
    {
        self.dirty = dirty;
    }

    /// Access the inner contents read-only. With `clear_dirty` this is the
    /// consuming read that resets the flag; without it the flag is left as
    /// it was.
    pub fn read(&mut self, clear_dirty: bool) -> (r: &T)
        ensures
            *r == old(self)@.value,
            final(self)@.value == old(self)@.value,
            final(self)@.dirty == (old(self)@.dirty && !clear_dirty),
    {
        if clear_dirty {
            self.dirty = false;
        }
        &self.lock
    }

    /// Access the inner contents for writing, and set the dirty flag, even
    /// if the writer then mutates nothing.
    pub fn write(&mut self) -> (r: &mut T)
        ensures
            *r == old(self)@.value,
            final(self)@ == written_state(*final(r)),
    {
        self.dirty = true;
        &mut self.lock
    }
}

/// A reader-writer wrapper with a dirty state check, set whenever the value
/// is write-locked and cleared manually.
pub struct DirtyCheckRwLock<T> {
    lock: T,
    dirty: bool,
}

impl<T> View for DirtyCheckRwLock<T> {
    type V = GuardState<T>;

    closed spec fn view(&self) -> GuardState<T> {
        GuardState { value: self.lock, dirty: self.dirty }
    }
}

impl<T> DirtyCheckRwLock<T> {
    /// Create a new instance with the given value. Sets `dirty` to `true`
    /// when created.
    pub fn new(t: T) -> (r: DirtyCheckRwLock<T>)
        ensures
            r@ == written_state(t),
    {
        DirtyCheckRwLock { lock: t, dirty: true }
    }

    /// Create a new instance around an already-guarded value. Sets `dirty`
    /// to `true` when created.
    pub fn from_lock(lock: T) -> (r: DirtyCheckRwLock<T>)
        ensures
            r@ == written_state(lock),
    {
        DirtyCheckRwLock { lock, dirty: true }
    }

    /// Whether a write happened since the last consuming read.
    pub fn is_dirty(&self) -> (r: bool)
        ensures
            r == self@.dirty,
    {
        self.dirty
    }

    /// Clear the dirty flag.
    pub fn clear_dirty(&mut self)
        ensures
            final(self)@ == consumed_state(old(self)@),
    {
        self.dirty = false;
    }

    /// Set the dirty flag explicitly.
    pub fn set_dirty(&mut self, dirty: bool)
        ensures
            final(self)@.value == old(self)@.value,
            final(self)@.dirty == dirty,
    {
        self.dirty = dirty;
    }

    /// Acquire the value for writing and set the dirty flag. An exclusively
    /// owned value cannot be poisoned, so there is no failure arm.
    pub fn write(&mut self) -> (r: &mut T)
        ensures
            *r == old(self)@.value,
            final(self)@ == written_state(*final(r)),
    {
        self.dirty = true;
        &mut self.lock
    }

    /// Try to acquire the value for writing. An exclusively owned value is
    /// never contended, so acquisition always succeeds and the dirty flag
    /// is always set.
    pub fn try_write(&mut self) -> (r: &mut T)
        ensures
            *r == old(self)@.value,
            final(self)@ == written_state(*final(r)),
    {
        self.dirty = true;
        &mut self.lock
    }
}

/// An error that is either recoverable or fatal.
#[derive(Debug)]
pub enum MaybeFatal<E, F> {
    Recoverable(E),
    Fatal(F),
}

impl<E, F> From<E> for MaybeFatal<E, F> {
    /// A bare error converts to its recoverable form.
    fn from(v: E) -> (r: Self)
        ensures
            r == MaybeFatal::<E, F>::Recoverable(v),
    {
        MaybeFatal::Recoverable(v)
    }
}

impl<E, F> vstd::std_specs::convert::FromSpecImpl<E> for MaybeFatal<E, F> {
    open spec fn obeys_from_spec() -> bool {
        true
    }

    open spec fn from_spec(v: E) -> Self {
        MaybeFatal::Recoverable(v)
    }
}

} // verus!
