//! The closed role set, section tags, the packed grant record, and small
//! helpers over 32-byte identities and raw buffers.
use vstd::prelude::*;

verus! {

pub const VERSION_MAJOR: u32 = 1;

pub const VERSION_MINOR: u32 = 0;

pub const VERSION_PATCH: u32 = 0;

/// Capacity of the authorization index: the most (role, identity) grants a
/// store can hold at once.
pub const MAX_RBAC: u32 = 128;

/// Tags naming the typed sections of the authorization arena.
#[derive(PartialEq, Eq, Copy, Clone, Debug, Structural)]
pub enum DT {
    UserRBACMap,
    UserRBAC,
}

/// The closed enumeration of grantable roles.
#[derive(PartialEq, Eq, Copy, Clone, Debug, Structural)]
pub enum Role {
    NetworkAdmin,
    CreateCatalog,
    RemoveURL,
}

/// The numeric code of each role, as stored in grant records and hashed
/// into index keys.
pub open spec fn spec_role_code(r: Role) -> u32 {
    match r {
        Role::NetworkAdmin => 0,
        Role::CreateCatalog => 1,
        Role::RemoveURL => 2,
    }
}

pub fn role_code(r: Role) -> (c: u32)
    ensures
        c == spec_role_code(r),
{
    match r {
        Role::NetworkAdmin => 0,
        Role::CreateCatalog => 1,
        Role::RemoveURL => 2,
    }
}

/// The role named by a numeric code, when the code is in range.
pub open spec fn spec_role_of_code(c: u32) -> Option<Role> {
    if c == 0 {
        Some(Role::NetworkAdmin)
    } else if c == 1 {
        Some(Role::CreateCatalog)
    } else if c == 2 {
        Some(Role::RemoveURL)
    } else {
        None
    }
}

pub fn role_of_code(c: u32) -> (r: Option<Role>)
    ensures
        r == spec_role_of_code(c),
        r is Some ==> spec_role_code(r.unwrap()) == c,
{
    if c == 0 {
        Some(Role::NetworkAdmin)
    } else if c == 1 {
        Some(Role::CreateCatalog)
    } else if c == 2 {
        Some(Role::RemoveURL)
    } else {
        None
    }
}

/// A grant record as stored in its 8-byte slot: the granted role and the
/// free-list link used while the slot is vacant.
#[derive(Copy, Clone, Debug)]
pub struct UserRBAC {
    pub role: Role,
    pub free: u32,
}

impl UserRBAC {
    pub fn role(&self) -> (r: Role)
        ensures
            r == self.role,
    {
        self.role
    }

    pub fn free(&self) -> (r: u32)
        ensures
            r == self.free,
    {
        self.free
    }

    pub fn set_free(&mut self, new_free: u32)
        ensures
            final(self).free == new_free,
            final(self).role == old(self).role,
    {
        self.free = new_free
    }
}

/// Byte-for-byte equality of two 32-byte identities.
pub fn keys_equal(a: &[u8; 32], b: &[u8; 32]) -> (r: bool)
    ensures
        r == (a@ == b@),
{
    let mut i: usize = 0;
    while i < 32
        invariant
            i <= 32,
            forall|j: int| 0 <= j < i ==> a@[j] == b@[j],
        decreases 32 - i,
    {
        if a[i] != b[i] {
            proof {
                assert(a@[i as int] != b@[i as int]);
            }
            return false;
        }
        i = i + 1;
    }
    proof {
        assert(a@ =~= b@);
    }
    true
}

/// Two identities are the same value exactly when their byte views agree.
pub proof fn lemma_keys_view_eq(a: [u8; 32], b: [u8; 32])
    ensures
        (a@ == b@) <==> (a == b),
{
    broadcast use vstd::array::group_array_axioms;

    if a@ == b@ {
        assert forall|i: int| 0 <= i < 32 implies a[i] == b[i] by {
            assert(a@[i] == b@[i]);
        }
        assert(a =~= b);
    }
}

/// Whether the whole buffer is zero-filled, as a fresh authorization
/// account must be before setup.
pub fn full_account_zero(data: &Vec<u8>) -> (r: bool)
    ensures
        r == (forall|j: int| 0 <= j < data@.len() ==> data@[j] == 0),
{
    let n: usize = data.len();
    let mut i: usize = 0;
    while i < n
        invariant
            i <= n,
            n == data@.len(),
            forall|j: int| 0 <= j < i ==> data@[j] == 0,
        decreases n - i,
    {
        if data[i] != 0 {
            return false;
        }
        i = i + 1;
    }
    true
}

} // verus!
