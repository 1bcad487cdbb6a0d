//! The role grant store: a sparse map from (role, identity) to grant
//! records. A critbit index over hashed keys binds each grant to a slot in
//! an arena-hosted record table; freed slots are recycled through an
//! intrusive free list whose links live in the freed records themselves.
use vstd::prelude::*;

use crate::ErrorCode;
use crate::arena::Arena;
use crate::arena::SectionModel;
use crate::arena::zero_bytes;
use crate::codec::le32_at;
use crate::codec::lemma_u32_le_round_trip;
use crate::codec::read_u32_at;
use crate::codec::u32_le_bytes;
use crate::codec::write_u32_at;
use crate::critbit::CritMap;
use crate::critbit::LeafNode;
use crate::critbit::cm_insert;
use crate::critbit::cm_remove;
use crate::hashing::bytes_hash;
use crate::hashing::shake128_u128;
use crate::types::DT;
use crate::types::Role;
use crate::types::UserRBAC;
use crate::types::keys_equal;
use crate::types::role_code;
use crate::types::spec_role_code;

verus! {

/// What a grant operation reported: a fresh grant, or a no-op because the
/// pair was already active.
#[derive(PartialEq, Eq, Copy, Clone, Debug, Structural)]
pub enum GrantOutcome {
    Granted,
    AlreadyActive,
}

/// What a revoke operation reported: a removed grant, or a no-op because
/// the pair was not found.
#[derive(PartialEq, Eq, Copy, Clone, Debug, Structural)]
pub enum RevokeOutcome {
    Revoked,
    NotFound,
}

/// The section tag under which a data type's records are stored.
/// Only the grant-record table is arena-hosted.
pub fn index_datatype(data_type: DT) -> (r: u16)
    requires
        data_type == DT::UserRBAC,
    ensures
        r == 1u16,
{
    match data_type {
        DT::UserRBAC => 1,
        _ => unreached(),
    }
}

/// The fixed capacity of a data type's index.
pub fn map_len(data_type: DT) -> (r: u32)
    ensures
        data_type == DT::UserRBAC ==> r == crate::types::MAX_RBAC,
        data_type != DT::UserRBAC ==> r == 0,
{
    match data_type {
        DT::UserRBAC => crate::types::MAX_RBAC,
        _ => 0,
    }
}

/// The section tag of the critbit map serving a data type.
pub fn map_datatype(data_type: DT) -> (r: u16)
    requires
        data_type == DT::UserRBAC,
    ensures
        r == 0u16,
{
    match data_type {
        DT::UserRBAC => 0,
        _ => unreached(),
    }
}

/// The role code held in a stored 8-byte grant record.
pub open spec fn rec_role(r: Seq<u8>) -> u32 {
    le32_at(r, 0)
}

/// The free-list link held in a stored 8-byte grant record.
pub open spec fn rec_free(r: Seq<u8>) -> u32 {
    le32_at(r, 4)
}

/// The 8 bytes of a grant record holding `role` and `free`, both
/// little-endian.
pub open spec fn rec_bytes(role: u32, free: u32) -> Seq<u8> {
    u32_le_bytes(role) + u32_le_bytes(free)
}

pub proof fn lemma_rec_bytes_fields(role: u32, free: u32)
    ensures
        rec_bytes(role, free).len() == 8,
        rec_role(rec_bytes(role, free)) == role,
        rec_free(rec_bytes(role, free)) == free,
{
    lemma_u32_le_round_trip(rec_bytes(role, free), 0, role);
    lemma_u32_le_round_trip(rec_bytes(role, free), 4, free);
}

/// Builds the 8 stored bytes of a grant record.
fn make_record_bytes(role: u32, free: u32) -> (v: Vec<u8>)
    ensures
        v@ == rec_bytes(role, free),
{
    let mut v: Vec<u8> = Vec::new();
    v.push(0);
    v.push(0);
    v.push(0);
    v.push(0);
    v.push(0);
    v.push(0);
    v.push(0);
    v.push(0);
    write_u32_at(&mut v, 0, role);
    write_u32_at(&mut v, 4, free);
    proof {
        assert(v@ =~= rec_bytes(role, free));
    }
    v
}

/// The key under which a (role, identity) grant is indexed: the hash of
/// the role code's little-endian bytes followed by the identity bytes.
pub open spec fn auth_hash(role: Role, key: [u8; 32]) -> u128 {
    shake128_u128(u32_le_bytes(spec_role_code(role)) + key@)
}

/// Computes the index key for a (role, identity) pair.
pub fn compute_auth_hash(role: Role, key: &[u8; 32]) -> (h: u128)
    ensures
        h == auth_hash(role, *key),
{
    let code = role_code(role);
    proof {
        assert(code / 0x100_0000 < 0x100) by (nonlinear_arith)
            requires code < 0x1_0000_0000int;
    }
    let mut v: Vec<u8> = Vec::new();
    v.push((code % 0x100) as u8);
    v.push(((code / 0x100) % 0x100) as u8);
    v.push(((code / 0x1_0000) % 0x100) as u8);
    v.push((code / 0x100_0000) as u8);
    proof {
        assert(v@ =~= u32_le_bytes(code));
    }
    let mut i: usize = 0;
    while i < 32
        invariant
            i <= 32,
            v@ =~= u32_le_bytes(code) + key@.subrange(0, i as int),
        decreases 32 - i,
    {
        v.push(key[i]);
        proof {
            assert(v@ =~= u32_le_bytes(code) + key@.subrange(0, i + 1));
        }
        i = i + 1;
    }
    proof {
        assert(key@.subrange(0, 32) =~= key@);
    }
    bytes_hash(&v)
}

/// The store's state as contracts speak of it: the critbit index, the
/// free-list slots in pop order, the header fields, and the raw records.
#[verifier::ext_equal]
pub ghost struct StoreModel {
    pub map: CritMap,
    pub free: Seq<u32>,
    pub element_count: u32,
    pub free_top: u32,
    pub bump_next: u32,
    pub records: Seq<Seq<u8>>,
    pub capacity: u32,
}

/// The free list parses exactly: the header's top names the first slot,
/// each free record holds its successor (one-based, zero for the end) and
/// a cleared role field, and no slot repeats.
pub open spec fn free_chain_ok(m: StoreModel) -> bool {
    &&& (m.free.len() == 0 <==> m.free_top == 0)
    &&& (m.free.len() > 0 ==> m.free_top == m.free[0] + 1)
    &&& forall|i: int| 0 <= i < m.free.len() ==> (#[trigger] m.free[i]) < m.bump_next
    &&& forall|i: int|
        0 <= i < m.free.len() ==> m.records[#[trigger] m.free[i] as int] == rec_bytes(
            0,
            if i + 1 < m.free.len() {
                (m.free[i + 1] + 1) as u32
            } else {
                0
            },
        )
    &&& forall|i: int, j: int| 0 <= i < j < m.free.len() ==> m.free[i] != m.free[j]
}

/// The store invariant over its model: a well-formed index whose count the
/// header mirrors, a parsing free list, exact slot accounting (every slot
/// below the bump point is either granted or free, and no slot is both),
/// and one record slot per key.
pub open spec fn model_wf(m: StoreModel) -> bool {
    &&& m.map.wf()
    &&& m.map.cap() == m.capacity
    &&& m.element_count == m.map.spec_count()
    &&& m.records.len() == m.capacity
    &&& forall|j: int| 0 <= j < m.records.len() ==> (#[trigger] m.records[j]).len() == 8
    &&& free_chain_ok(m)
    &&& m.bump_next <= m.capacity
    &&& m.bump_next == m.map.spec_count() + m.free.len()
    &&& forall|k: u128| #[trigger]
        m.map@.dom().contains(k) ==> m.map@[k].slot < m.bump_next
    &&& forall|k: u128, i: int|
        #[trigger] m.map@.dom().contains(k) && 0 <= i < m.free.len() ==> (#[trigger] m.free[i])
            != m.map@[k].slot
    &&& forall|k1: u128, k2: u128|
        #[trigger] m.map@.dom().contains(k1) && #[trigger] m.map@.dom().contains(k2) && k1 != k2
            ==> m.map@[k1].slot != m.map@[k2].slot
}

/// A fixed-capacity role grant store backed by one arena section of 8-byte
/// grant records and a critbit index; slots are recycled through the free
/// list embedded in the freed records.
pub struct RbacStore {
    arena: Arena,
    map: CritMap,
    sect: usize,
    free_list: Ghost<Seq<u32>>,
}

impl RbacStore {
    spec fn sec(self) -> SectionModel {
        self.arena@.sections[self.sect as int]
    }

    /// The arena hosts the record section in the expected shape.
    pub closed spec fn shell_wf(self) -> bool {
        &&& self.arena.wf()
        &&& self.sect < self.arena@.sections.len()
        &&& self.sec().record_size == 8
        &&& self.sec().capacity == self.map.cap()
    }

    pub closed spec fn model(self) -> StoreModel {
        StoreModel {
            map: self.map,
            free: self.free_list@,
            element_count: self.sec().element_count,
            free_top: self.sec().free_top,
            bump_next: self.sec().bump_next,
            records: self.sec().records,
            capacity: self.map.cap(),
        }
    }

    pub closed spec fn wf(self) -> bool {
        &&& self.shell_wf()
        &&& model_wf(self.model())
    }

    /// A well-formed store's model satisfies the store invariant.
    pub proof fn lemma_wf_model(self)
        requires
            self.wf(),
        ensures
            model_wf(self.model()),
    {
    }

    /// Builds a store over an all-zero buffer: prepares the arena and
    /// reserves the grant-record section for `capacity` 8-byte records.
    /// The critbit index itself is kept as a typed structure of the same
    /// capacity rather than as raw section bytes.
    pub fn create(buffer: Vec<u8>, capacity: u32) -> (r: Result<RbacStore, ErrorCode>)
        requires
            forall|j: int| 0 <= j < buffer@.len() ==> buffer@[j] == 0,
        ensures
            match r {
                Ok(s) => {
                    &&& 16 + 8 * capacity <= buffer@.len()
                    &&& s.wf()
                    &&& s.model().map@ == Map::<u128, LeafNode>::empty()
                    &&& s.model().free == Seq::<u32>::empty()
                    &&& s.model().element_count == 0
                    &&& s.model().free_top == 0
                    &&& s.model().bump_next == 0
                    &&& s.model().capacity == capacity
                    &&& s.model().records == Seq::new(capacity as nat, |j: int| zero_bytes(8))
                },
                Err(e) => e == ErrorCode::OutOfSpace && 16 + 8 * capacity > buffer@.len(),
            },
    {
        let mut arena = Arena::setup(buffer);
        let tag = index_datatype(DT::UserRBAC);
        let sect = match arena.allocate(tag, 8, capacity as usize) {
            Ok(s) => s,
            Err(_) => {
                return Err(ErrorCode::OutOfSpace);
            },
        };
        let map = CritMap::new(capacity);
        let s = RbacStore { arena, map, sect, free_list: Ghost(Seq::empty()) };
        proof {
            assert(s.model().records =~= Seq::new(capacity as nat, |j: int| zero_bytes(8)));
            assert forall|j: int| 0 <= j < s.model().records.len() implies (
            #[trigger] s.model().records[j]).len() == 8 by {
                assert(s.model().records[j] == zero_bytes(8));
            }
        }
        Ok(s)
    }

    /// Number of grants currently held.
    pub fn element_count(&self) -> (r: u32)
        requires
            self.wf(),
        ensures
            r == self.model().element_count,
    {
        self.arena.element_count(self.sect)
    }

    /// The free-list head: zero when empty, else one more than the next
    /// reusable slot.
    pub fn free_top(&self) -> (r: u32)
        requires
            self.wf(),
        ensures
            r == self.model().free_top,
    {
        self.arena.free_top(self.sect)
    }

    /// The next never-allocated slot index.
    pub fn bump_next(&self) -> (r: u32)
        requires
            self.wf(),
        ensures
            r == self.model().bump_next,
    {
        self.arena.bump_next(self.sect)
    }

    /// The fixed grant capacity.
    pub fn capacity(&self) -> (r: u32)
        requires
            self.wf(),
        ensures
            r == self.model().capacity,
    {
        self.map.capacity()
    }

    /// The stored leaf for an index key, when present.
    pub fn map_get(&self, key: u128) -> (r: Option<LeafNode>)
        requires
            self.wf(),
        ensures
            match r {
                Some(l) => self.model().map@.dom().contains(key) && l == self.model().map@[key],
                None => !self.model().map@.dom().contains(key),
            },
    {
        self.map.get_key(key)
    }

    /// A copy of the stored record bytes at a slot.
    pub fn record_bytes(&self, idx: u32) -> (r: Result<Vec<u8>, ErrorCode>)
        requires
            self.wf(),
        ensures
            match r {
                Ok(v) => idx < self.model().capacity && v@ == self.model().records[idx as int],
                Err(e) => e == ErrorCode::IndexOutOfRange && idx >= self.model().capacity,
            },
    {
        self.arena.index_bytes(self.sect, idx as usize)
    }
}

/// The store state after a fresh grant of `role` to `owner` under `key`:
/// a slot is popped from the free list (or the bump point is advanced),
/// the grant record is written there, and the leaf is spliced into the
/// index.
pub open spec fn store_grant(m: StoreModel, key: u128, owner: [u8; 32], role: Role) -> StoreModel {
    if m.free.len() > 0 {
        let slot = m.free[0];
        StoreModel {
            map: cm_insert(m.map, LeafNode { key, owner, slot }),
            free: m.free.subrange(1, m.free.len() as int),
            element_count: (m.element_count + 1) as u32,
            free_top: rec_free(m.records[slot as int]),
            records: m.records.update(slot as int, rec_bytes(spec_role_code(role), 0)),
            ..m
        }
    } else {
        let slot = m.bump_next;
        StoreModel {
            map: cm_insert(m.map, LeafNode { key, owner, slot }),
            element_count: (m.element_count + 1) as u32,
            bump_next: (m.bump_next + 1) as u32,
            records: m.records.update(slot as int, rec_bytes(spec_role_code(role), 0)),
            ..m
        }
    }
}

/// The store state after revoking the present `key`: the leaf is spliced
/// out and its slot is pushed onto the free list, its record cleared down
/// to the link.
pub open spec fn store_revoke(m: StoreModel, key: u128) -> StoreModel {
    let slot = m.map@[key].slot;
    StoreModel {
        map: cm_remove(m.map, key),
        free: seq![slot] + m.free,
        element_count: (m.element_count - 1) as u32,
        free_top: (slot + 1) as u32,
        records: m.records.update(slot as int, rec_bytes(0, m.free_top)),
        ..m
    }
}

impl UserRBAC {
    /// Pops the free-list head when one exists, else hands out the next
    /// never-allocated slot and advances the bump point.
    fn next_index(store: &mut RbacStore, data_type: DT) -> (r: Result<u32, ErrorCode>)
        requires
            data_type == DT::UserRBAC,
            old(store).wf(),
            old(store).model().free.len() > 0 || old(store).model().bump_next < old(
                store,
            ).model().capacity,
        ensures
            final(store).shell_wf(),
            ({
                let m = old(store).model();
                if m.free.len() > 0 {
                    r == Ok::<u32, ErrorCode>(m.free[0]) && final(store).model() =~= (StoreModel {
                        free: m.free.subrange(1, m.free.len() as int),
                        free_top: rec_free(m.records[m.free[0] as int]),
                        ..m
                    })
                } else {
                    r == Ok::<u32, ErrorCode>(m.bump_next) && final(store).model()
                        =~= (StoreModel { bump_next: (m.bump_next + 1) as u32, ..m })
                }
            }),
    {
        let ghost m = store.model();
        let free_top = store.arena.free_top(store.sect);
        if free_top == 0 {
            let next = store.arena.bump_next(store.sect);
            store.arena.set_bump_next(store.sect, next + 1);
            proof {
                assert(store.model() =~= (StoreModel { bump_next: (m.bump_next + 1) as u32, ..m }));
            }
            return Ok(next);
        }
        let free_index_v = match free_top.checked_sub(1) {
            Some(v) => v,
            None => {
                return Err(ErrorCode::Overflow);
            },
        };
        proof {
            assert(free_index_v == m.free[0]);
            assert(m.free[0] < m.bump_next);
        }
        let rec = match store.arena.index_bytes(store.sect, free_index_v as usize) {
            Ok(v) => v,
            Err(_) => {
                return Err(ErrorCode::IndexOutOfRange);
            },
        };
        let link = read_u32_at(&rec, 4);
        store.arena.set_free_top(store.sect, link);
        store.free_list = Ghost(store.free_list@.subrange(1, store.free_list@.len() as int));
        proof {
            assert(store.model() =~= (StoreModel {
                free: m.free.subrange(1, m.free.len() as int),
                free_top: rec_free(m.records[m.free[0] as int]),
                ..m
            }));
        }
        Ok(free_index_v)
    }

    /// Pushes a slot back onto the free list: the record is cleared down
    /// to the link to the previous head, and the header's top moves to the
    /// slot (stored one-based).
    fn free_index(store: &mut RbacStore, data_type: DT, idx: u32) -> (r: Result<(), ErrorCode>)
        requires
            data_type == DT::UserRBAC,
            old(store).shell_wf(),
            idx < old(store).model().capacity,
        ensures
            final(store).shell_wf(),
            r is Ok,
            final(store).model() =~= (StoreModel {
                free: seq![idx] + old(store).model().free,
                free_top: (idx + 1) as u32,
                records: old(store).model().records.update(
                    idx as int,
                    rec_bytes(0, old(store).model().free_top),
                ),
                ..old(store).model()
            }),
    {
        let ghost m = store.model();
        let free_top = store.arena.free_top(store.sect);
        let bytes = make_record_bytes(0, free_top);
        match store.arena.write_record(store.sect, idx as usize, &bytes) {
            Ok(_) => {},
            Err(_) => {
                return Err(ErrorCode::IndexOutOfRange);
            },
        }
        let new_top = match idx.checked_add(1) {
            Some(v) => v,
            None => {
                return Err(ErrorCode::Overflow);
            },
        };
        store.arena.set_free_top(store.sect, new_top);
        store.free_list = Ghost(seq![idx] + store.free_list@);
        proof {
            assert(store.model() =~= (StoreModel {
                free: seq![idx] + m.free,
                free_top: (idx + 1) as u32,
                records: m.records.update(idx as int, rec_bytes(0, m.free_top)),
                ..m
            }));
        }
        Ok(())
    }
}

impl RbacStore {
    /// Records a grant of `role` to `owner` under index key `key`. A key
    /// already present reports `AlreadyActive` and changes nothing; a full
    /// store refuses a fresh key with `OutOfSpace` and changes nothing;
    /// otherwise a slot is allocated, the record written and the leaf
    /// inserted — every step, or none.
    #[verifier::rlimit(100)]
    pub fn apply_grant(&mut self, key: u128, owner: &[u8; 32], role: Role) -> (r: Result<
        GrantOutcome,
        ErrorCode,
    >)
        requires
            old(self).wf(),
        ensures
            final(self).wf(),
            old(self).model().map@.dom().contains(key) ==> r == Ok::<GrantOutcome, ErrorCode>(
                GrantOutcome::AlreadyActive,
            ) && *final(self) == *old(self),
            !old(self).model().map@.dom().contains(key) && old(self).model().map.spec_count()
                == old(self).model().capacity ==> r == Err::<GrantOutcome, ErrorCode>(
                ErrorCode::OutOfSpace,
            ) && *final(self) == *old(self),
            !old(self).model().map@.dom().contains(key) && old(self).model().map.spec_count()
                < old(self).model().capacity ==> r == Ok::<GrantOutcome, ErrorCode>(
                GrantOutcome::Granted,
            ) && final(self).model() =~= store_grant(old(self).model(), key, *owner, role),
    {
        if self.map.get_key(key).is_some() {
            return Ok(GrantOutcome::AlreadyActive);
        }
        let count = self.map.count();
        let cap = self.map.capacity();
        if count == cap {
            return Err(ErrorCode::OutOfSpace);
        }
        let ghost m0 = self.model();
        let slot = match UserRBAC::next_index(self, DT::UserRBAC) {
            Ok(s) => s,
            Err(e) => {
                return Err(e);
            },
        };
        proof {
            if m0.free.len() > 0 {
                assert(slot == m0.free[0]);
                assert(slot < m0.bump_next);
            } else {
                assert(slot == m0.bump_next);
                assert(m0.bump_next == m0.map.spec_count());
            }
            assert(slot < m0.capacity);
        }
        let bytes = make_record_bytes(role_code(role), 0);
        match self.arena.write_record(self.sect, slot as usize, &bytes) {
            Ok(_) => {},
            Err(e) => {
                return Err(e);
            },
        }
        let ec = self.arena.element_count(self.sect);
        self.arena.set_element_count(self.sect, ec + 1);
        let leaf = LeafNode::new(key, slot, owner);
        let ghost m_pre = self.model();
        proof {
            assert(self.map == m0.map);
        }
        match self.map.insert_leaf(&leaf) {
            Ok(_) => {},
            Err(e) => {
                return Err(e);
            },
        }
        proof {
            let m1 = self.model();
            let mg = store_grant(m0, key, *owner, role);
            lemma_rec_bytes_fields(spec_role_code(role), 0);
            assert(m1.records =~= m0.records.update(slot as int, rec_bytes(spec_role_code(role), 0)));
            assert(m1.map == cm_insert(m0.map, leaf));
            assert(m1 =~= mg);
            lemma_store_grant_wf(m0, key, *owner, role);
        }
        Ok(GrantOutcome::Granted)
    }

    /// Revokes the grant stored under index key `key`. An absent key
    /// reports `NotFound` and changes nothing; otherwise the leaf is
    /// removed and the slot pushed back onto the free list — every step,
    /// or none.
    pub fn apply_revoke(&mut self, key: u128) -> (r: Result<RevokeOutcome, ErrorCode>)
        requires
            old(self).wf(),
        ensures
            final(self).wf(),
            !old(self).model().map@.dom().contains(key) ==> r == Ok::<RevokeOutcome, ErrorCode>(
                RevokeOutcome::NotFound,
            ) && *final(self) == *old(self),
            old(self).model().map@.dom().contains(key) ==> r == Ok::<RevokeOutcome, ErrorCode>(
                RevokeOutcome::Revoked,
            ) && final(self).model() =~= store_revoke(old(self).model(), key),
    {
        let found = match self.map.get_key(key) {
            None => {
                return Ok(RevokeOutcome::NotFound);
            },
            Some(l) => l,
        };
        let ghost m0 = self.model();
        proof {
            assert(found.slot < m0.bump_next);
        }
        match self.map.remove_by_key(key) {
            Ok(_) => {},
            Err(e) => {
                return Err(e);
            },
        }
        match UserRBAC::free_index(self, DT::UserRBAC, found.slot) {
            Ok(_) => {},
            Err(e) => {
                return Err(e);
            },
        }
        let ec = self.arena.element_count(self.sect);
        proof {
            self.map.lemma_wf_facts();
            assert(ec == m0.element_count);
            assert(m0.element_count == m0.map.spec_count());
            assert(m0.map.spec_count() >= 1) by {
                m0.map.lemma_wf_facts();
                vstd::set::axiom_set_remove_len(m0.map@.dom(), key);
            }
        }
        self.arena.set_element_count(self.sect, ec - 1);
        proof {
            let m1 = self.model();
            let mr = store_revoke(m0, key);
            lemma_rec_bytes_fields(0, m0.free_top);
            assert(m1 =~= mr);
            lemma_store_revoke_wf(m0, key);
        }
        Ok(RevokeOutcome::Revoked)
    }
}

/// A fresh grant below capacity preserves the store invariant.
pub proof fn lemma_store_grant_wf(m: StoreModel, key: u128, owner: [u8; 32], role: Role)
    requires
        model_wf(m),
        !m.map@.dom().contains(key),
        m.map.spec_count() < m.capacity,
    ensures
        model_wf(store_grant(m, key, owner, role)),
{
    let mg = store_grant(m, key, owner, role);
    let leaf = LeafNode { key, owner, slot: if m.free.len() > 0 { m.free[0] } else { m.bump_next } };
    m.map.lemma_wf_facts();
    crate::critbit::lemma_cm_insert_props(m.map, leaf);
    lemma_rec_bytes_fields(spec_role_code(role), 0);
    if m.free.len() > 0 {
        let slot = m.free[0];
        let f1 = m.free.subrange(1, m.free.len() as int);
        lemma_rec_bytes_fields(0, if 1 < m.free.len() { (m.free[1] + 1) as u32 } else { 0 });
        assert(m.records[slot as int] == rec_bytes(0, if 1 < m.free.len() { (m.free[1] + 1) as u32 } else { 0 }));
        assert(mg.free_top == if 1 < m.free.len() { (m.free[1] + 1) as u32 } else { 0 });
        assert forall|i: int| 0 <= i < f1.len() implies mg.records[#[trigger] f1[i] as int]
            == rec_bytes(
            0,
            if i + 1 < f1.len() {
                (f1[i + 1] + 1) as u32
            } else {
                0
            },
        ) by {
            assert(f1[i] == m.free[i + 1]);
            assert(m.free[i + 1] != slot);
        }
        assert(free_chain_ok(mg));
        assert forall|k: u128| #[trigger] mg.map@.dom().contains(k) implies mg.map@[k].slot
            < mg.bump_next by {
            if k != key {
                assert(m.map@.dom().contains(k));
            }
        }
        assert forall|k: u128, i: int|
            #[trigger] mg.map@.dom().contains(k) && 0 <= i < mg.free.len() implies (
        #[trigger] mg.free[i]) != mg.map@[k].slot by {
            assert(mg.free[i] == m.free[i + 1]);
            if k != key {
                assert(m.map@.dom().contains(k));
            }
        }
        assert forall|k1: u128, k2: u128|
            #[trigger] mg.map@.dom().contains(k1) && #[trigger] mg.map@.dom().contains(k2) && k1
                != k2 implies mg.map@[k1].slot != mg.map@[k2].slot by {
            if k1 != key && k2 != key {
                assert(m.map@.dom().contains(k1) && m.map@.dom().contains(k2));
            } else if k1 == key {
                assert(m.map@.dom().contains(k2));
            } else {
                assert(m.map@.dom().contains(k1));
            }
        }
    } else {
        let slot = m.bump_next;
        assert(free_chain_ok(mg));
        assert forall|k: u128| #[trigger] mg.map@.dom().contains(k) implies mg.map@[k].slot
            < mg.bump_next by {
            if k != key {
                assert(m.map@.dom().contains(k));
            }
        }
        assert forall|k1: u128, k2: u128|
            #[trigger] mg.map@.dom().contains(k1) && #[trigger] mg.map@.dom().contains(k2) && k1
                != k2 implies mg.map@[k1].slot != mg.map@[k2].slot by {
            if k1 != key && k2 != key {
                assert(m.map@.dom().contains(k1) && m.map@.dom().contains(k2));
            } else if k1 == key {
                assert(m.map@.dom().contains(k2));
            } else {
                assert(m.map@.dom().contains(k1));
            }
        }
    }
}

/// Revoking a present key preserves the store invariant.
pub proof fn lemma_store_revoke_wf(m: StoreModel, key: u128)
    requires
        model_wf(m),
        m.map@.dom().contains(key),
    ensures
        model_wf(store_revoke(m, key)),
{
    let mr = store_revoke(m, key);
    let slot = m.map@[key].slot;
    m.map.lemma_wf_facts();
    crate::critbit::lemma_cm_remove_props(m.map, key);
    lemma_rec_bytes_fields(0, m.free_top);
    assert(m.map.spec_count() >= 1) by {
        vstd::set::axiom_set_remove_len(m.map@.dom(), key);
    }
    assert forall|i: int| 0 <= i < mr.free.len() implies mr.records[#[trigger] mr.free[i] as int]
        == rec_bytes(
        0,
        if i + 1 < mr.free.len() {
            (mr.free[i + 1] + 1) as u32
        } else {
            0
        },
    ) by {
        if i == 0 {
            assert(mr.free[0] == slot);
            if m.free.len() > 0 {
                assert(mr.free[1] == m.free[0]);
                assert(m.free_top == (m.free[0] + 1) as u32);
            }
        } else {
            assert(mr.free[i] == m.free[i - 1]);
            assert(m.free[i - 1] != slot);
            if i + 1 < mr.free.len() {
                assert(mr.free[i + 1] == m.free[i]);
            }
        }
    }
    assert forall|i: int, j: int| 0 <= i < j < mr.free.len() implies mr.free[i] != mr.free[j] by {
        if i == 0 {
            assert(mr.free[j] == m.free[j - 1]);
        } else {
            assert(mr.free[i] == m.free[i - 1] && mr.free[j] == m.free[j - 1]);
        }
    }
    assert forall|i: int| 0 <= i < mr.free.len() implies (#[trigger] mr.free[i])
        < mr.bump_next by {
        if i > 0 {
            assert(mr.free[i] == m.free[i - 1]);
        }
    }
    assert(free_chain_ok(mr));
    assert forall|k: u128| #[trigger] mr.map@.dom().contains(k) implies mr.map@[k].slot
        < mr.bump_next by {
        assert(m.map@.dom().contains(k));
    }
    assert forall|k: u128, i: int|
        #[trigger] mr.map@.dom().contains(k) && 0 <= i < mr.free.len() implies (
    #[trigger] mr.free[i]) != mr.map@[k].slot by {
        assert(m.map@.dom().contains(k) && k != key);
        if i == 0 {
            assert(mr.free[0] == slot);
        } else {
            assert(mr.free[i] == m.free[i - 1]);
        }
    }
    assert forall|k1: u128, k2: u128|
        #[trigger] mr.map@.dom().contains(k1) && #[trigger] mr.map@.dom().contains(k2) && k1 != k2
            implies mr.map@[k1].slot != mr.map@[k2].slot by {
        assert(m.map@.dom().contains(k1) && m.map@.dom().contains(k2));
    }
}

/// Whether the store currently holds `role` granted to `key`: the hashed
/// pair must be indexed, the leaf must record exactly this identity, and
/// the grant record must hold exactly this role's code.
pub open spec fn spec_has_role(m: StoreModel, role: Role, key: [u8; 32]) -> bool {
    let h = auth_hash(role, key);
    &&& m.map@.dom().contains(h)
    &&& m.map@[h].owner@ == key@
    &&& rec_role(m.records[m.map@[h].slot as int]) == spec_role_code(role)
}

/// Looks up a (role, identity) grant. Any absence or mismatch — a missing
/// key, a leaf recorded for a different identity, or a record holding a
/// different role — fails with `AccessDenied`.
pub fn has_role(store: &RbacStore, role: Role, key: &[u8; 32]) -> (r: Result<(), ErrorCode>)
    requires
        store.wf(),
    ensures
        r is Ok <==> spec_has_role(store.model(), role, *key),
        r is Err ==> r == Err::<(), ErrorCode>(ErrorCode::AccessDenied),
{
    let authhash = compute_auth_hash(role, key);
    let authrec = store.map_get(authhash);
    let leaf = match authrec {
        None => {
            return Err(ErrorCode::AccessDenied);
        },
        Some(l) => l,
    };
    if !keys_equal(&leaf.owner, key) {
        return Err(ErrorCode::AccessDenied);
    }
    let rec = match store.record_bytes(leaf.slot) {
        Ok(v) => v,
        Err(_) => {
            return Err(ErrorCode::AccessDenied);
        },
    };
    let stored = read_u32_at(&rec, 0);
    if stored != role_code(role) {
        return Err(ErrorCode::AccessDenied);
    }
    Ok(())
}

/// Idempotence of granting: a fresh grant makes its key present, so an
/// immediately repeated grant of the same pair takes the already-active
/// path, which reports without mutating.
pub proof fn lemma_grant_then_active(m: StoreModel, key: u128, owner: [u8; 32], role: Role)
    requires
        model_wf(m),
        !m.map@.dom().contains(key),
        m.map.spec_count() < m.capacity,
    ensures
        store_grant(m, key, owner, role).map@.dom().contains(key),
{
    let slot = if m.free.len() > 0 {
        m.free[0]
    } else {
        m.bump_next
    };
    crate::critbit::lemma_cm_insert_props(m.map, LeafNode { key, owner, slot });
}

/// Inverse law: granting a fresh pair from a store with a non-empty free
/// list and then revoking it restores the store exactly — the same trie
/// node for node, the same free list, headers and record bytes.
pub proof fn lemma_grant_revoke_restores(m: StoreModel, key: u128, owner: [u8; 32], role: Role)
    requires
        model_wf(m),
        !m.map@.dom().contains(key),
        m.map.spec_count() < m.capacity,
        m.free.len() > 0,
    ensures
        store_revoke(store_grant(m, key, owner, role), key) =~= m,
{
    let slot = m.free[0];
    let leaf = LeafNode { key, owner, slot };
    let mg = store_grant(m, key, owner, role);
    crate::critbit::lemma_cm_insert_props(m.map, leaf);
    crate::critbit::lemma_cm_insert_remove_restores(m.map, leaf);
    let link = if 1 < m.free.len() {
        (m.free[1] + 1) as u32
    } else {
        0u32
    };
    assert(m.records[slot as int] == rec_bytes(0, link));
    lemma_rec_bytes_fields(0, link);
    assert(mg.free_top == link);
    let mr = store_revoke(mg, key);
    assert(mr.map == m.map);
    assert(mr.free =~= m.free) by {
        assert(mr.free == seq![slot] + m.free.subrange(1, m.free.len() as int));
    }
    assert(mr.records =~= m.records) by {
        assert(mr.records == mg.records.update(slot as int, rec_bytes(0, link)));
    }
    assert(mr.free_top == m.free_top);
}

/// Round trip, first half: immediately after a fresh grant of (role,
/// identity), `has_role` holds for exactly that pair.
pub proof fn lemma_has_role_after_grant(m: StoreModel, role: Role, user: [u8; 32])
    requires
        model_wf(m),
        !m.map@.dom().contains(auth_hash(role, user)),
        m.map.spec_count() < m.capacity,
    ensures
        spec_has_role(store_grant(m, auth_hash(role, user), user, role), role, user),
{
    let h = auth_hash(role, user);
    let slot = if m.free.len() > 0 {
        m.free[0]
    } else {
        m.bump_next
    };
    let leaf = LeafNode { key: h, owner: user, slot };
    crate::critbit::lemma_cm_insert_props(m.map, leaf);
    lemma_rec_bytes_fields(spec_role_code(role), 0);
    let mg = store_grant(m, h, user, role);
    assert(mg.map@[h] == leaf);
    assert(mg.records[slot as int] == rec_bytes(spec_role_code(role), 0));
}

/// Round trip, second half: immediately after revoking the pair, the
/// grant's key is gone and `has_role` no longer holds.
pub proof fn lemma_no_role_after_revoke(m: StoreModel, role: Role, user: [u8; 32])
    requires
        model_wf(m),
        m.map@.dom().contains(auth_hash(role, user)),
    ensures
        !spec_has_role(store_revoke(m, auth_hash(role, user)), role, user),
{
    let h = auth_hash(role, user);
    crate::critbit::lemma_cm_remove_props(m.map, h);
    assert(!store_revoke(m, h).map@.dom().contains(h));
}

} // verus!
