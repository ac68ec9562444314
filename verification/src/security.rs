//! Task permissions and the security check that guards task commands.
use vstd::prelude::*;
use crate::ids::AppTaskId;

verus! {

/// What a holder of a secure key may do with a task.
#[derive(Clone, Copy, PartialEq, Eq, Structural, Debug)]
pub struct TaskPermissions {
    pub structure: bool,
    pub media: bool,
    pub parameters: bool,
    pub transport: bool,
    pub audio: bool,
}

/// Every permission that `required` asks for is held by `held`.
pub open spec fn grants(held: TaskPermissions, required: TaskPermissions) -> bool {
    &&& required.structure ==> held.structure
    &&& required.media ==> held.media
    &&& required.parameters ==> held.parameters
    &&& required.transport ==> held.transport
    &&& required.audio ==> held.audio
}

impl TaskPermissions {
    /// No permission at all.
    pub fn empty() -> (r: Self)
        ensures
            !r.structure && !r.media && !r.parameters && !r.transport && !r.audio,
    {
        TaskPermissions { structure: false, media: false, parameters: false, transport: false, audio: false }
    }

    /// Every permission.
    pub fn full() -> (r: Self)
        ensures
            r.structure && r.media && r.parameters && r.transport && r.audio,
    {
        TaskPermissions { structure: true, media: true, parameters: true, transport: true, audio: true }
    }

    /// Whether these permissions include every permission in `required`.
    pub fn can(&self, required: TaskPermissions) -> (r: bool)
        ensures
            r == grants(*self, required),
            required.structure && !self.structure ==> !r,
            required.media && !self.media ==> !r,
            required.parameters && !self.parameters ==> !r,
            required.transport && !self.transport ==> !r,
            required.audio && !self.audio ==> !r,
    {
        (!required.structure || self.structure) && (!required.media || self.media) && (!required.parameters
            || self.parameters) && (!required.transport || self.transport) && (!required.audio || self.audio)
    }

    /// Whether audio may be streamed to the holder.
    pub fn can_audio(&self) -> (r: bool)
        ensures
            r == self.audio,
    {
        self.audio
    }
}

/// The permissions of one secure key.
#[derive(Debug)]
pub struct KeyPermissions {
    pub secure_key: String,
    pub permissions: TaskPermissions,
}

/// Which secure keys may do what with a task.
#[derive(Debug)]
pub struct TaskSecurity {
    pub security: Vec<KeyPermissions>,
}

/// The permissions of `key` among `entries`: those of the first entry for the key.
pub open spec fn permissions_for(entries: Seq<KeyPermissions>, key: Seq<char>) -> Option<TaskPermissions>
    decreases entries.len(),
{
    if entries.len() == 0 {
        None
    } else if entries[0].secure_key@ == key {
        Some(entries[0].permissions)
    } else {
        permissions_for(entries.drop_first(), key)
    }
}

impl TaskSecurity {
    /// The permissions granted to `secure_key`, if it is known.
    pub fn get(&self, secure_key: &String) -> (r: Option<TaskPermissions>)
        ensures
            r == permissions_for(self.security@, secure_key@),
    {
        let n = self.security.len();
        let mut i: usize = 0;
        assert(self.security@.subrange(0, n as int) =~= self.security@);
        while i < n
            invariant
                n == self.security@.len(),
                i <= n,
                permissions_for(self.security@, secure_key@) == permissions_for(
                    self.security@.subrange(i as int, n as int),
                    secure_key@,
                ),
            decreases n - i,
        {
            let ghost rest = self.security@.subrange(i as int, n as int);
            assert(rest.drop_first() =~= self.security@.subrange(i as int + 1, n as int));
            if self.security[i].secure_key == *secure_key {
                return Some(self.security[i].permissions);
            }
            i = i + 1;
        }
        assert(self.security@.subrange(n as int, n as int) =~= Seq::<KeyPermissions>::empty());
        None
    }
}

/// How a request to the domain is authenticated.
#[derive(Debug)]
pub enum DomainSecurity {
    /// The request comes from the cloud and may do anything.
    Cloud,
    /// The request carries a secure key of a task.
    SecureKey(String),
}

/// Errors that the domain server reports to its clients.
#[derive(Debug)]
pub enum DomainError {
    TaskNotFound { task_id: AppTaskId },
    AuthenticationFailed,
    TaskAuthtorizationFailed { task_id: AppTaskId, required: TaskPermissions },
    BadGateway { error: String },
    WebRTCError { error: String },
    SocketNotFound { socket_id: String },
    Serialization { error: String },
}

/// Checks that a request may act on a task with the given permissions: requests from the
/// cloud always may; a secure key must be known to the task and hold every permission.
pub fn check_security(
    task_id: &AppTaskId,
    task: &TaskSecurity,
    security: &DomainSecurity,
    permissions: TaskPermissions,
) -> (r: Result<(), DomainError>)
    ensures
        match security {
            DomainSecurity::Cloud => r is Ok,
            DomainSecurity::SecureKey(key) => match permissions_for(task.security@, key@) {
                None => r == Err::<(), DomainError>(DomainError::AuthenticationFailed),
                Some(held) => if grants(held, permissions) {
                    r is Ok
                } else {
                    r matches Err(DomainError::TaskAuthtorizationFailed { task_id: t, required })
                        && t == *task_id && required == permissions
                },
            },
        },
        match security {
            DomainSecurity::SecureKey(key) => match permissions_for(task.security@, key@) {
                Some(held) => ((permissions.structure && !held.structure) || (permissions.media && !held.media)
                    || (permissions.parameters && !held.parameters) || (permissions.transport && !held.transport)
                    || (permissions.audio && !held.audio)) <==> r is Err,
                None => true,
            },
            DomainSecurity::Cloud => true,
        },
{
    match security {
        DomainSecurity::Cloud => Ok(()),
        DomainSecurity::SecureKey(secure_key) => match task.get(secure_key) {
            None => Err(DomainError::AuthenticationFailed),
            Some(held) => {
                if held.can(permissions) {
                    Ok(())
                } else {
                    Err(DomainError::TaskAuthtorizationFailed { task_id: task_id.duplicate(), required: permissions })
                }
            },
        },
    }
}

/// A permission set grants itself, and the empty set is granted by any set.
pub proof fn lemma_grants_reflexive(p: TaskPermissions, empty: TaskPermissions)
    requires
        !empty.structure && !empty.media && !empty.parameters && !empty.transport && !empty.audio,
    ensures
        grants(p, p),
        grants(p, empty),
{
}

/// Granting is transitive: what a set grants, every set that grants it grants as well.
pub proof fn lemma_grants_transitive(a: TaskPermissions, b: TaskPermissions, c: TaskPermissions)
    requires
        grants(a, b),
        grants(b, c),
    ensures
        grants(a, c),
{
}

/// A permission set grants a request exactly when it holds each permission the request asks
/// for: one missing permission, whichever it is, is enough to refuse.
pub proof fn lemma_grants_each_permission(held: TaskPermissions, required: TaskPermissions)
    ensures
        required.structure && !held.structure ==> !grants(held, required),
        required.media && !held.media ==> !grants(held, required),
        required.parameters && !held.parameters ==> !grants(held, required),
        required.transport && !held.transport ==> !grants(held, required),
        required.audio && !held.audio ==> !grants(held, required),
        (!required.structure || held.structure) && (!required.media || held.media) && (!required.parameters
            || held.parameters) && (!required.transport || held.transport) && (!required.audio || held.audio)
            ==> grants(held, required),
{
}

} // verus!
