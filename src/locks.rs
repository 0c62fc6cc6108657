use std::collections::HashMap;
use std::sync::Arc;
use vstd::prelude::*;

verus! {

broadcast use vstd::std_specs::hash::group_hash_axioms;

/// Relies on tokio's `Mutex`: an asynchronous lock around a value.
#[verifier::external_type_specification]
#[verifier::external_body]
#[verifier::reject_recursive_types(T)]
pub struct ExMutex<T: ?Sized>(tokio::sync::Mutex<T>);

/// Relies on `tokio::sync::Mutex::new`: a fresh, unlocked mutex.
#[verifier::external_body]
fn new_tenant_lock() -> (r: Arc<tokio::sync::Mutex<()>>) {
    Arc::new(tokio::sync::Mutex::new(()))
}

/// Relies on `Arc::clone`: the clone points to the same mutex.
#[verifier::external_body]
fn share(lock: &Arc<tokio::sync::Mutex<()>>) -> (r: Arc<tokio::sync::Mutex<()>>)
    ensures
        r == *lock,
{
    Arc::clone(lock)
}

/// One lock per tenant, made when the tenant is first seen and shared by all its callers,
/// so that work for one tenant never overlaps while tenants do not wait on each other.
pub struct ChatLocks {
    locks: HashMap<i64, Arc<tokio::sync::Mutex<()>>>,
}

impl View for ChatLocks {
    type V = Map<i64, Arc<tokio::sync::Mutex<()>>>;

    closed spec fn view(&self) -> Map<i64, Arc<tokio::sync::Mutex<()>>> {
        self.locks@
    }
}

impl ChatLocks {
    pub fn new() -> (r: Self)
        ensures
            r@ == Map::<i64, Arc<tokio::sync::Mutex<()>>>::empty(),
    {
        ChatLocks { locks: HashMap::new() }
    }

    /// The lock of `chat_id`: the one handed out before, or a new one from now on.
    pub fn lock_for(&mut self, chat_id: i64) -> (r: Arc<tokio::sync::Mutex<()>>)
        ensures
            final(self)@.contains_key(chat_id),
            r == final(self)@[chat_id],
            old(self)@.contains_key(chat_id) ==> final(self)@ == old(self)@,
            !old(self)@.contains_key(chat_id) ==> final(self)@ == old(self)@.insert(chat_id, r),
    {
        match self.locks.get(&chat_id) {
            Some(l) => share(l),
            None => {
                let l = new_tenant_lock();
                let handed = share(&l);
                self.locks.insert(chat_id, l);
                handed
            },
        }
    }
}

/// Every caller for a tenant gets the same lock: asking again, for the same tenant or after
/// asking for others, changes no lock already handed out.
pub proof fn lemma_same_lock_per_tenant(
    before: Map<i64, Arc<tokio::sync::Mutex<()>>>,
    after: Map<i64, Arc<tokio::sync::Mutex<()>>>,
    chat_id: i64,
    other: i64,
    r: Arc<tokio::sync::Mutex<()>>,
)
    requires
        after.contains_key(chat_id),
        r == after[chat_id],
        before.contains_key(chat_id) ==> after == before,
        !before.contains_key(chat_id) ==> after == before.insert(chat_id, r),
        before.contains_key(other),
    ensures
        after.contains_key(other),
        after[other] == before[other],
        before.contains_key(chat_id) ==> r == before[chat_id],
{
}

} // verus!
