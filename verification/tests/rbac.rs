//! Role grant store and access-control behaviour.
use catalog::ErrorCode;
use catalog::access::grant;
use catalog::access::revoke;
use catalog::catalog::initialize;
use catalog::catalog::RootData;
use catalog::store::has_role;
use catalog::store::GrantOutcome;
use catalog::store::RbacStore;
use catalog::store::RevokeOutcome;
use catalog::types::full_account_zero;
use catalog::types::Role;
use catalog::types::MAX_RBAC;

fn key(b: u8) -> [u8; 32] {
    let mut k = [0u8; 32];
    k[0] = b;
    k[31] = b.wrapping_mul(37);
    k
}

fn fresh_store(capacity: u32) -> RbacStore {
    let buffer = vec![0u8; 16 + 8 * capacity as usize + 64];
    assert!(full_account_zero(&buffer));
    RbacStore::create(buffer, capacity).unwrap()
}

const CREATE_CATALOG: u32 = 1;
const NETWORK_ADMIN: u32 = 0;

#[test]
fn initialize_sets_root_and_store() {
    let mut root = RootData { catalog_count: 77, root_authority: key(9) };
    let auth_key = key(1);
    let buffer = vec![0u8; 16 + 8 * MAX_RBAC as usize];
    assert!(full_account_zero(&buffer));
    let store = initialize(&mut root, &auth_key, buffer).unwrap();
    assert_eq!(root.catalog_count, 0);
    assert_eq!(root.root_authority, auth_key);
    assert_eq!(store.element_count(), 0);
    assert_eq!(store.free_top(), 0);
    assert_eq!(store.bump_next(), 0);
    assert_eq!(store.capacity(), MAX_RBAC);
}

#[test]
fn initialize_needs_room() {
    let mut root = RootData { catalog_count: 0, root_authority: key(0) };
    let buffer = vec![0u8; 10];
    let r = initialize(&mut root, &key(1), buffer);
    assert_eq!(r.err(), Some(ErrorCode::OutOfSpace));
}

#[test]
fn owner_grants_and_role_round_trips() {
    let mut store = fresh_store(8);
    let owner = key(1);
    let user = key(2);
    // for every role in the closed enumeration: has_role is true right
    // after the grant and false right after the revoke
    for (code, role) in [
        (0u32, Role::NetworkAdmin),
        (1u32, Role::CreateCatalog),
        (2u32, Role::RemoveURL),
    ] {
        assert!(has_role(&store, role, &user).is_err());
        let r = grant(&mut store, &owner, &owner, &user, code);
        assert_eq!(r.unwrap(), GrantOutcome::Granted);
        assert!(has_role(&store, role, &user).is_ok());
        assert!(has_role(&store, role, &owner).is_err());
        let r = revoke(&mut store, &owner, &owner, &user, code);
        assert_eq!(r.unwrap(), RevokeOutcome::Revoked);
        assert!(has_role(&store, role, &user).is_err());
    }
    // holding one role never implies another
    grant(&mut store, &owner, &owner, &user, CREATE_CATALOG).unwrap();
    assert!(has_role(&store, Role::RemoveURL, &user).is_err());
    assert!(has_role(&store, Role::NetworkAdmin, &user).is_err());
}

#[test]
fn grant_is_idempotent() {
    let mut store = fresh_store(8);
    let owner = key(1);
    let user = key(2);
    assert_eq!(
        grant(&mut store, &owner, &owner, &user, CREATE_CATALOG).unwrap(),
        GrantOutcome::Granted
    );
    let element_count = store.element_count();
    let free_top = store.free_top();
    let bump_next = store.bump_next();
    assert_eq!(
        grant(&mut store, &owner, &owner, &user, CREATE_CATALOG).unwrap(),
        GrantOutcome::AlreadyActive
    );
    assert_eq!(store.element_count(), element_count);
    assert_eq!(store.free_top(), free_top);
    assert_eq!(store.bump_next(), bump_next);
    assert!(has_role(&store, Role::CreateCatalog, &user).is_ok());
}

#[test]
fn grant_then_revoke_restores_recycled_state() {
    let mut store = fresh_store(8);
    let owner = key(1);
    let a = key(2);
    let b = key(3);
    let c = key(4);
    grant(&mut store, &owner, &owner, &a, CREATE_CATALOG).unwrap();
    grant(&mut store, &owner, &owner, &b, CREATE_CATALOG).unwrap();
    revoke(&mut store, &owner, &owner, &a, CREATE_CATALOG).unwrap();
    // slot 0 now sits on the free list
    let element_count = store.element_count();
    let free_top = store.free_top();
    let bump_next = store.bump_next();
    assert_eq!(free_top, 1);
    assert_eq!(element_count, 1);
    assert_eq!(bump_next, 2);
    // grant into the recycled slot, then revoke it again
    assert_eq!(
        grant(&mut store, &owner, &owner, &c, CREATE_CATALOG).unwrap(),
        GrantOutcome::Granted
    );
    assert_eq!(store.free_top(), 0);
    assert_eq!(store.element_count(), 2);
    assert_eq!(store.bump_next(), 2);
    assert_eq!(
        revoke(&mut store, &owner, &owner, &c, CREATE_CATALOG).unwrap(),
        RevokeOutcome::Revoked
    );
    assert_eq!(store.element_count(), element_count);
    assert_eq!(store.free_top(), free_top);
    assert_eq!(store.bump_next(), bump_next);
}

#[test]
fn self_target_always_denied() {
    let mut store = fresh_store(8);
    let owner = key(1);
    for role in [0u32, 1, 2] {
        let r = grant(&mut store, &owner, &owner, &owner, role);
        assert_eq!(r.err(), Some(ErrorCode::AccessDenied));
        let r = revoke(&mut store, &owner, &owner, &owner, role);
        assert_eq!(r.err(), Some(ErrorCode::AccessDenied));
    }
    // even an established admin cannot self-target
    let admin = key(2);
    grant(&mut store, &owner, &owner, &admin, NETWORK_ADMIN).unwrap();
    let r = grant(&mut store, &admin, &owner, &admin, CREATE_CATALOG);
    assert_eq!(r.err(), Some(ErrorCode::AccessDenied));
}

#[test]
fn network_admin_reserved_for_owner() {
    let mut store = fresh_store(8);
    let owner = key(1);
    let admin = key(2);
    let user = key(3);
    // the owning authority may grant NetworkAdmin
    assert_eq!(
        grant(&mut store, &owner, &owner, &admin, NETWORK_ADMIN).unwrap(),
        GrantOutcome::Granted
    );
    // an established NetworkAdmin may manage ordinary roles ...
    assert_eq!(
        grant(&mut store, &admin, &owner, &user, CREATE_CATALOG).unwrap(),
        GrantOutcome::Granted
    );
    // ... but may not mint more NetworkAdmins, even while holding the role
    let r = grant(&mut store, &admin, &owner, &user, NETWORK_ADMIN);
    assert_eq!(r.err(), Some(ErrorCode::AccessDenied));
}

#[test]
fn unauthorized_caller_denied() {
    let mut store = fresh_store(8);
    let owner = key(1);
    let stranger = key(7);
    let user = key(3);
    let r = grant(&mut store, &stranger, &owner, &user, CREATE_CATALOG);
    assert_eq!(r.err(), Some(ErrorCode::AccessDenied));
}

#[test]
fn invalid_role_code_rejected_before_mutation() {
    let mut store = fresh_store(8);
    let owner = key(1);
    let user = key(3);
    let r = grant(&mut store, &owner, &owner, &user, 3);
    assert_eq!(r.err(), Some(ErrorCode::InvalidParameters));
    let r = grant(&mut store, &owner, &owner, &user, 0xffff_ffff);
    assert_eq!(r.err(), Some(ErrorCode::InvalidParameters));
    assert_eq!(store.element_count(), 0);
}

#[test]
fn revoke_absent_reports_not_found() {
    let mut store = fresh_store(8);
    let owner = key(1);
    let user = key(3);
    assert_eq!(
        revoke(&mut store, &owner, &owner, &user, CREATE_CATALOG).unwrap(),
        RevokeOutcome::NotFound
    );
    assert_eq!(store.element_count(), 0);
}

#[test]
fn capacity_boundary_exact() {
    let mut store = fresh_store(3);
    let owner = key(1);
    // exactly `capacity` distinct pairs succeed
    assert_eq!(
        grant(&mut store, &owner, &owner, &key(10), CREATE_CATALOG).unwrap(),
        GrantOutcome::Granted
    );
    assert_eq!(
        grant(&mut store, &owner, &owner, &key(11), CREATE_CATALOG).unwrap(),
        GrantOutcome::Granted
    );
    assert_eq!(
        grant(&mut store, &owner, &owner, &key(11), 2).unwrap(),
        GrantOutcome::Granted
    );
    assert_eq!(store.element_count(), 3);
    // the (capacity + 1)-th distinct pair fails OutOfSpace
    let r = grant(&mut store, &owner, &owner, &key(12), CREATE_CATALOG);
    assert_eq!(r.err(), Some(ErrorCode::OutOfSpace));
    assert_eq!(store.element_count(), 3);
    // a slot freed by revoke can be granted again
    assert_eq!(
        revoke(&mut store, &owner, &owner, &key(10), CREATE_CATALOG).unwrap(),
        RevokeOutcome::Revoked
    );
    assert_eq!(
        grant(&mut store, &owner, &owner, &key(12), CREATE_CATALOG).unwrap(),
        GrantOutcome::Granted
    );
}

#[test]
fn full_capacity_store() {
    let mut store = fresh_store(MAX_RBAC);
    let owner = key(1);
    for i in 0..MAX_RBAC {
        let mut user = [0u8; 32];
        user[0] = (i & 0xff) as u8;
        user[1] = (i >> 8) as u8;
        user[2] = 0xaa;
        let r = grant(&mut store, &owner, &owner, &user, CREATE_CATALOG);
        assert_eq!(r.unwrap(), GrantOutcome::Granted);
    }
    assert_eq!(store.element_count(), MAX_RBAC);
    let r = grant(&mut store, &owner, &owner, &key(200), CREATE_CATALOG);
    assert_eq!(r.err(), Some(ErrorCode::OutOfSpace));
}
