//! The error surface of the key/value store abstraction: a generic,
//! redacted runtime error class for backend faults, distinguishable from
//! policy denials, and a distinguished compare-and-swap conflict error that
//! is expected in normal operation and retriable.

use vstd::prelude::*;

verus! {

/// A store operation's error. Backend-internal detail is deliberately not
/// carried here: untrusted guest code sees only the class of the failure.
#[derive(Clone, Debug, PartialEq, Eq)]
pub enum Error {
    /// The named store is not defined in the runtime configuration.
    NoSuchStore,
    /// The component's grant does not include the named store.
    AccessDenied,
    /// A backend or value fault (connection, protocol, or a stored value
    /// that does not have the expected shape).
    Runtime,
}

impl Error {
    /// A short description of the error class, for operator-facing logs.
    pub fn describe(&self) -> (r: &'static str)
        ensures
            r@ == match self {
                Error::NoSuchStore => "no such store"@,
                Error::AccessDenied => "access denied"@,
                Error::Runtime => "runtime error"@,
            },
    {
        match self {
            Error::NoSuchStore => "no such store",
            Error::AccessDenied => "access denied",
            Error::Runtime => "runtime error",
        }
    }
}

/// The store bindings of one component instance: the set of logical store
/// names its grant lets it open. Attached when the instance is prepared and
/// immutable afterwards; a name outside the set is denied before any call
/// reaches a store manager.
pub struct StoreBindings {
    allowed: Vec<String>,
}

impl StoreBindings {
    /// Whether the grant includes the named store.
    pub open spec fn bound(&self, name: Seq<char>) -> bool {
        exists|i: int| 0 <= i < self.spec_allowed().len() && #[trigger] self.spec_allowed()[i]@
            == name
    }

    /// The names the grant includes.
    pub closed spec fn spec_allowed(&self) -> Seq<String> {
        self.allowed@
    }

    /// Creates the bindings of one instance from the names its grant
    /// includes.
    pub fn new(allowed: Vec<String>) -> (r: Self)
        ensures
            r.spec_allowed() == allowed@,
    {
        StoreBindings { allowed }
    }

    /// Tests whether the grant includes the named store.
    pub fn is_bound(&self, name: &str) -> (r: bool)
        ensures
            r == self.bound(name@),
    {
        let mut i: usize = 0;
        while i < self.allowed.len()
            invariant
                i <= self.spec_allowed().len(),
                forall|j: int| 0 <= j < i ==> self.spec_allowed()[j]@ != name@,
            decreases self.spec_allowed().len() - i,
        {
            if crate::strutil::str_eq(self.allowed[i].as_str(), name) {
                proof {
                    assert(0 <= i < self.spec_allowed().len() && self.spec_allowed()[i as int]@
                        == name@);
                }
                return true;
            }
            i = i + 1;
        }
        false
    }

    /// The check in front of every store access: a name the grant does not
    /// include is denied here, with no I/O, before anything contacts a
    /// store manager.
    pub fn check_access(&self, name: &str) -> (r: Result<(), Error>)
        ensures
            r is Ok <==> self.bound(name@),
            !self.bound(name@) ==> r == Err::<(), Error>(Error::AccessDenied),
    {
        if self.is_bound(name) {
            Ok(())
        } else {
            Err(Error::AccessDenied)
        }
    }
}

/// A store name outside the instance's bindings is always denied, whatever
/// the rest of the grant says: the denial needs no store, no manager, and
/// no I/O.
pub proof fn law_unbound_store_denied(b: &StoreBindings, name: Seq<char>)
    requires
        forall|i: int| 0 <= i < b.spec_allowed().len() ==> (#[trigger] b.spec_allowed()[i])@
            != name,
    ensures
        !b.bound(name),
{
}

/// A compare-and-swap outcome that is not a plain success: losing the race
/// is `CasFailed` and is expected and retriable; anything else is `Other`.
#[derive(Clone, Debug, PartialEq, Eq)]
pub enum SwapError {
    /// The optimistic update lost a race: the watched key changed between
    /// the observation and the swap. The caller may retry from a fresh
    /// observation.
    CasFailed(String),
    /// A fault that is not a lost race.
    Other(String),
}

} // verus!
