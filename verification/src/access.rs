//! Who may grant and revoke. A caller must already hold the NetworkAdmin
//! role, or be the program's owning upgrade authority (the bootstrap
//! fallback, re-derived fresh on every call). Only the owning authority —
//! never an existing NetworkAdmin — may grant NetworkAdmin itself, and
//! no caller may ever target their own identity.
use vstd::prelude::*;

use crate::ErrorCode;
use crate::store::GrantOutcome;
use crate::store::RbacStore;
use crate::store::RevokeOutcome;
use crate::store::StoreModel;
use crate::store::auth_hash;
use crate::store::compute_auth_hash;
use crate::store::has_role;
use crate::store::spec_has_role;
use crate::store::store_grant;
use crate::store::store_revoke;
use crate::types::Role;
use crate::types::keys_equal;
use crate::types::lemma_keys_view_eq;
use crate::types::role_of_code;
use crate::types::spec_role_of_code;

verus! {

/// The decision a grant or revoke reaches before any mutation: the role to
/// apply, or the error to surface. The checks run in this order: caller
/// authority, role-code range, NetworkAdmin exclusivity, self-targeting.
pub open spec fn spec_update_gate(
    m: StoreModel,
    program_admin: [u8; 32],
    upgrade_authority: [u8; 32],
    rbac_user: [u8; 32],
    inp_role: u32,
) -> Result<Role, ErrorCode> {
    let admin_ok = spec_has_role(m, Role::NetworkAdmin, program_admin);
    if !admin_ok && upgrade_authority != program_admin {
        Err(ErrorCode::AccessDenied)
    } else if spec_role_of_code(inp_role) is None {
        Err(ErrorCode::InvalidParameters)
    } else {
        let role = spec_role_of_code(inp_role).unwrap();
        if role == Role::NetworkAdmin && admin_ok {
            Err(ErrorCode::AccessDenied)
        } else if program_admin == rbac_user {
            Err(ErrorCode::AccessDenied)
        } else {
            Ok(role)
        }
    }
}

/// Runs the shared authority checks and hands back the validated role.
fn update_gate(
    store: &RbacStore,
    program_admin: &[u8; 32],
    upgrade_authority: &[u8; 32],
    rbac_user: &[u8; 32],
    inp_role: u32,
) -> (r: Result<Role, ErrorCode>)
    requires
        store.wf(),
    ensures
        r == spec_update_gate(
            store.model(),
            *program_admin,
            *upgrade_authority,
            *rbac_user,
            inp_role,
        ),
{
    proof {
        lemma_keys_view_eq(*upgrade_authority, *program_admin);
        lemma_keys_view_eq(*program_admin, *rbac_user);
    }
    let admin_role = has_role(store, Role::NetworkAdmin, program_admin);
    let mut program_owner: bool = false;
    if admin_role.is_err() {
        if !keys_equal(upgrade_authority, program_admin) {
            return Err(ErrorCode::AccessDenied);
        }
        program_owner = true;
    }
    let role = match role_of_code(inp_role) {
        None => {
            return Err(ErrorCode::InvalidParameters);
        },
        Some(r) => r,
    };
    if role == Role::NetworkAdmin && !program_owner {
        return Err(ErrorCode::AccessDenied);
    }
    if keys_equal(program_admin, rbac_user) {
        return Err(ErrorCode::AccessDenied);
    }
    Ok(role)
}

/// Grants `inp_role` to `rbac_user`, under the authority checks of
/// `spec_update_gate`. An already-active pair reports `AlreadyActive` and
/// mutates nothing; a full store fails `OutOfSpace`; otherwise the grant
/// is recorded whole.
pub fn grant(
    store: &mut RbacStore,
    program_admin: &[u8; 32],
    upgrade_authority: &[u8; 32],
    rbac_user: &[u8; 32],
    inp_role: u32,
) -> (r: Result<GrantOutcome, ErrorCode>)
    requires
        old(store).wf(),
    ensures
        final(store).wf(),
        ({
            let m = old(store).model();
            match spec_update_gate(m, *program_admin, *upgrade_authority, *rbac_user, inp_role) {
                Err(e) => r == Err::<GrantOutcome, ErrorCode>(e) && *final(store) == *old(store),
                Ok(role) => {
                    let h = auth_hash(role, *rbac_user);
                    if m.map@.dom().contains(h) {
                        r == Ok::<GrantOutcome, ErrorCode>(GrantOutcome::AlreadyActive) && *final(store) == *old(store)
                    } else if m.map.spec_count() == m.capacity {
                        r == Err::<GrantOutcome, ErrorCode>(ErrorCode::OutOfSpace) && *final(store)
                            == *old(store)
                    } else {
                        r == Ok::<GrantOutcome, ErrorCode>(GrantOutcome::Granted) && final(store).model() =~= store_grant(m, h, *rbac_user, role)
                    }
                },
            }
        }),
{
    proof {
        old(store).lemma_wf_model();
    }
    let role = match update_gate(store, program_admin, upgrade_authority, rbac_user, inp_role) {
        Err(e) => {
            return Err(e);
        },
        Ok(role) => role,
    };
    let authhash = compute_auth_hash(role, rbac_user);
    store.apply_grant(authhash, rbac_user, role)
}

/// Revokes `inp_role` from `rbac_user`, under the same authority checks as
/// `grant`. An absent pair reports `NotFound` and mutates nothing;
/// otherwise the grant is removed whole and its slot recycled.
pub fn revoke(
    store: &mut RbacStore,
    program_admin: &[u8; 32],
    upgrade_authority: &[u8; 32],
    rbac_user: &[u8; 32],
    inp_role: u32,
) -> (r: Result<RevokeOutcome, ErrorCode>)
    requires
        old(store).wf(),
    ensures
        final(store).wf(),
        ({
            let m = old(store).model();
            match spec_update_gate(m, *program_admin, *upgrade_authority, *rbac_user, inp_role) {
                Err(e) => r == Err::<RevokeOutcome, ErrorCode>(e) && *final(store) == *old(store),
                Ok(role) => {
                    let h = auth_hash(role, *rbac_user);
                    if !m.map@.dom().contains(h) {
                        r == Ok::<RevokeOutcome, ErrorCode>(RevokeOutcome::NotFound) && *final(store) == *old(store)
                    } else {
                        r == Ok::<RevokeOutcome, ErrorCode>(RevokeOutcome::Revoked) && final(store).model() =~= store_revoke(m, h)
                    }
                },
            }
        }),
{
    proof {
        old(store).lemma_wf_model();
    }
    let role = match update_gate(store, program_admin, upgrade_authority, rbac_user, inp_role) {
        Err(e) => {
            return Err(e);
        },
        Ok(role) => role,
    };
    let authhash = compute_auth_hash(role, rbac_user);
    store.apply_revoke(authhash)
}

/// Self-targeting is refused unconditionally: whenever the acting
/// authority names itself as the target, a grant or revoke of any valid
/// role fails with AccessDenied, whatever the store holds.
pub proof fn lemma_self_target_denied(
    m: StoreModel,
    program_admin: [u8; 32],
    upgrade_authority: [u8; 32],
    inp_role: u32,
)
    requires
        spec_role_of_code(inp_role) is Some,
    ensures
        spec_update_gate(m, program_admin, upgrade_authority, program_admin, inp_role) == Err::<
            Role,
            ErrorCode,
        >(ErrorCode::AccessDenied),
{
}

/// NetworkAdmin exclusivity: a grant or revoke of NetworkAdmin passes the
/// gate only for the owning upgrade authority, and never for a caller who
/// already holds NetworkAdmin — an existing NetworkAdmin cannot mint more.
pub proof fn lemma_network_admin_exclusive(
    m: StoreModel,
    program_admin: [u8; 32],
    upgrade_authority: [u8; 32],
    rbac_user: [u8; 32],
    inp_role: u32,
)
    requires
        spec_role_of_code(inp_role) == Some(Role::NetworkAdmin),
        spec_update_gate(m, program_admin, upgrade_authority, rbac_user, inp_role) is Ok,
    ensures
        upgrade_authority == program_admin,
        !spec_has_role(m, Role::NetworkAdmin, program_admin),
{
}

} // verus!
