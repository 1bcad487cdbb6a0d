//! Catalog records and the compute halves of the catalog entry points:
//! root bookkeeping, catalog creation under the CreateCatalog role,
//! hash-checked URL records, and listings authorized through the
//! delegated-signature verifier and a byte-exact signed parameter block.
use vstd::prelude::*;

use crate::ErrorCode;
use crate::codec::le128_at;
use crate::codec::le64_at;
use crate::codec::le_i32_at;
use crate::codec::read_u128_at;
use crate::codec::read_u64_at;
use crate::ed25519::InstructionInfo;
use crate::ed25519::spec_ed25519_program_id;
use crate::ed25519::spec_template_ok;
use crate::ed25519::verify_ed25519_ix;
use crate::hashing::bytes_hash;
use crate::hashing::shake128_u128;
use crate::store::RbacStore;
use crate::store::has_role;
use crate::store::spec_has_role;
use crate::types::Role;
use crate::types::VERSION_MAJOR;
use crate::types::VERSION_MINOR;
use crate::types::VERSION_PATCH;
use crate::types::keys_equal;

verus! {

/// How a stored URL is to be expanded by readers: kept verbatim, expanded
/// by appending the listing's lowercase UUID, or URI-decoded as UTF-8.
#[derive(PartialEq, Eq, Copy, Clone, Debug, Structural)]
pub enum URLExpandMode {
    NoExpand,
    AppendUUID,
    UTF8UriEncoded,
}

/// Root account state: how many catalogs exist and which account holds the
/// authorization data.
pub struct RootData {
    pub catalog_count: u64,
    pub root_authority: [u8; 32],
}

impl RootData {
    /// Counts one more catalog; fails with `Overflow` when the counter
    /// would wrap, leaving it unchanged.
    pub fn add_catalog(&mut self) -> (r: Result<(), ErrorCode>)
        ensures
            old(self).catalog_count < u64::MAX ==> r == Ok::<(), ErrorCode>(()) && final(self).catalog_count == old(self).catalog_count + 1,
            old(self).catalog_count == u64::MAX ==> r == Err::<(), ErrorCode>(ErrorCode::Overflow)
                && *final(self) == *old(self),
            final(self).root_authority == old(self).root_authority,
    {
        let next = match self.catalog_count.checked_add(1) {
            Some(v) => v,
            None => {
                return Err(ErrorCode::Overflow);
            },
        };
        self.catalog_count = next;
        Ok(())
    }

    pub fn root_authority(&self) -> (r: [u8; 32])
        ensures
            r == self.root_authority,
    {
        self.root_authority
    }

    pub fn set_root_authority(&mut self, new_authority: [u8; 32])
        ensures
            final(self).root_authority == new_authority,
            final(self).catalog_count == old(self).catalog_count,
    {
        self.root_authority = new_authority
    }
}

/// One catalog: its id, the running listing counter, the signer key that
/// authorizes listings, and the manager key that may remove them.
pub struct CatalogInstance {
    pub catalog_id: u64,
    pub catalog_counter: u64,
    pub signer: [u8; 32],
    pub manager: [u8; 32],
}

/// One listing entry inside a catalog.
pub struct CatalogEntry {
    pub uuid: u128,
    pub catalog: u64,
    pub category: u128,
    pub filter_by: [u128; 3],
    pub attributes: u8,
    pub latitude: i32,
    pub longitude: i32,
    pub update_ts: i64,
    pub update_count: u64,
    pub owner: [u8; 32],
    pub listing_idx: u64,
    pub listing_url: [u8; 32],
    pub label_url: [u8; 32],
    pub detail_url: [u8; 32],
}

/// A stored URL record: its expansion mode and its bytes.
pub struct CatalogUrl {
    pub url_expand_mode: u8,
    pub url: Vec<u8>,
}

/// Program metadata stored alongside the deployed program.
pub struct ProgramMetadata {
    pub semvar_major: u32,
    pub semvar_minor: u32,
    pub semvar_patch: u32,
    pub program: [u8; 32],
    pub program_name: String,
    pub developer_name: String,
    pub developer_url: String,
    pub source_url: String,
    pub verify_url: String,
}

/// What a removed listing announces.
pub struct RemoveListingEvent {
    pub user: [u8; 32],
    pub catalog: u64,
    pub listing: [u8; 32],
    pub listing_idx: u64,
}

/// The signed parameter block a catalog signer authorizes: 265 bytes of
/// fixed-width little-endian fields and raw keys, in this exact order.
pub struct CatalogParameters {
    pub uuid: u128,
    pub catalog: u64,
    pub category: u128,
    pub filter_by_1: u128,
    pub filter_by_2: u128,
    pub filter_by_3: u128,
    pub attributes: u8,
    pub latitude: [u8; 4],
    pub longitude: [u8; 4],
    pub owner: [u8; 32],
    pub listing_url: [u8; 32],
    pub label_url: [u8; 32],
    pub detail_url: [u8; 32],
    pub fee_account: [u8; 32],
    pub fee_tokens: u64,
}

/// The byte length of a serialized `CatalogParameters` block.
pub const CATALOG_PARAMETERS_LEN: u16 = 265;

/// Copies 4 bytes out of a buffer.
fn read_array4(b: &Vec<u8>, lo: usize) -> (r: [u8; 4])
    requires
        lo + 4 <= b@.len(),
    ensures
        r@ == b@.subrange(lo as int, lo + 4),
{
    let n: usize = b.len();
    let r: [u8; 4] = [b[lo], b[lo + 1], b[lo + 2], b[lo + 3]];
    proof {
        assert(r@ =~= b@.subrange(lo as int, lo + 4));
    }
    r
}

/// Copies 32 bytes out of a buffer.
fn read_array32(b: &Vec<u8>, lo: usize) -> (r: [u8; 32])
    requires
        lo + 32 <= b@.len(),
    ensures
        r@ == b@.subrange(lo as int, lo + 32),
{
    let n: usize = b.len();
    let r: [u8; 32] = [
        b[lo], b[lo + 1], b[lo + 2], b[lo + 3], b[lo + 4], b[lo + 5], b[lo + 6], b[lo + 7], b[lo
            + 8], b[lo + 9], b[lo + 10], b[lo + 11], b[lo + 12], b[lo + 13], b[lo + 14], b[lo
            + 15], b[lo + 16], b[lo + 17], b[lo + 18], b[lo + 19], b[lo + 20], b[lo + 21], b[lo
            + 22], b[lo + 23], b[lo + 24], b[lo + 25], b[lo + 26], b[lo + 27], b[lo + 28], b[lo
            + 29], b[lo + 30], b[lo + 31],
    ];
    proof {
        assert(r@ =~= b@.subrange(lo as int, lo + 32));
    }
    r
}

/// Turns exactly 32 bytes into a key, or nothing.
pub fn to_key_array(v: &Vec<u8>) -> (r: Option<[u8; 32]>)
    ensures
        v@.len() == 32 ==> r is Some && r.unwrap()@ == v@,
        v@.len() != 32 ==> r is None,
{
    if v.len() != 32 {
        return None;
    }
    let r = read_array32(v, 0);
    proof {
        assert(v@.subrange(0, 32) =~= v@);
    }
    Some(r)
}

/// Whether `p` holds exactly the fields serialized in the 265-byte block
/// `d`.
pub open spec fn spec_params_of(p: CatalogParameters, d: Seq<u8>) -> bool {
    &&& p.uuid == le128_at(d, 0)
    &&& p.catalog == le64_at(d, 16)
    &&& p.category == le128_at(d, 24)
    &&& p.filter_by_1 == le128_at(d, 40)
    &&& p.filter_by_2 == le128_at(d, 56)
    &&& p.filter_by_3 == le128_at(d, 72)
    &&& p.attributes == d[88]
    &&& p.latitude@ == d.subrange(89, 93)
    &&& p.longitude@ == d.subrange(93, 97)
    &&& p.owner@ == d.subrange(97, 129)
    &&& p.listing_url@ == d.subrange(129, 161)
    &&& p.label_url@ == d.subrange(161, 193)
    &&& p.detail_url@ == d.subrange(193, 225)
    &&& p.fee_account@ == d.subrange(225, 257)
    &&& p.fee_tokens == le64_at(d, 257)
}

/// Deserializes a signed parameter block. The block is a strict
/// fixed-width layout; any other length is rejected.
pub fn parse_catalog_parameters(data: &Vec<u8>) -> (r: Option<CatalogParameters>)
    ensures
        data@.len() == CATALOG_PARAMETERS_LEN ==> r is Some && spec_params_of(r.unwrap(), data@),
        data@.len() != CATALOG_PARAMETERS_LEN ==> r is None,
{
    if data.len() != 265 {
        return None;
    }
    let p = CatalogParameters {
        uuid: read_u128_at(data, 0),
        catalog: read_u64_at(data, 16),
        category: read_u128_at(data, 24),
        filter_by_1: read_u128_at(data, 40),
        filter_by_2: read_u128_at(data, 56),
        filter_by_3: read_u128_at(data, 72),
        attributes: data[88],
        latitude: read_array4(data, 89),
        longitude: read_array4(data, 93),
        owner: read_array32(data, 97),
        listing_url: read_array32(data, 129),
        label_url: read_array32(data, 161),
        detail_url: read_array32(data, 193),
        fee_account: read_array32(data, 225),
        fee_tokens: read_u64_at(data, 257),
    };
    Some(p)
}

/// Sets the stored program metadata to the given names and this build's
/// version numbers.
pub fn store_metadata(
    md: &mut ProgramMetadata,
    program: &[u8; 32],
    inp_program_name: String,
    inp_developer_name: String,
    inp_developer_url: String,
    inp_source_url: String,
    inp_verify_url: String,
)
    ensures
        final(md).semvar_major == VERSION_MAJOR,
        final(md).semvar_minor == VERSION_MINOR,
        final(md).semvar_patch == VERSION_PATCH,
        final(md).program == *program,
        final(md).program_name == inp_program_name,
        final(md).developer_name == inp_developer_name,
        final(md).developer_url == inp_developer_url,
        final(md).source_url == inp_source_url,
        final(md).verify_url == inp_verify_url,
{
    md.semvar_major = VERSION_MAJOR;
    md.semvar_minor = VERSION_MINOR;
    md.semvar_patch = VERSION_PATCH;
    md.program = *program;
    md.program_name = inp_program_name;
    md.developer_name = inp_developer_name;
    md.developer_url = inp_developer_url;
    md.source_url = inp_source_url;
    md.verify_url = inp_verify_url;
}

/// Creates a catalog: the caller must hold the CreateCatalog role, the
/// root counter advances, and a fresh instance is handed back with its
/// listing counter at zero.
pub fn create_catalog(
    store: &RbacStore,
    auth_user: &[u8; 32],
    root_data: &mut RootData,
    inp_catalog: u64,
    catalog_signer: &[u8; 32],
    catalog_manager: &[u8; 32],
) -> (r: Result<CatalogInstance, ErrorCode>)
    requires
        store.wf(),
    ensures
        !spec_has_role(store.model(), Role::CreateCatalog, *auth_user) ==> r == Err::<
            CatalogInstance,
            ErrorCode,
        >(ErrorCode::AccessDenied) && *final(root_data) == *old(root_data),
        spec_has_role(store.model(), Role::CreateCatalog, *auth_user) && old(
            root_data,
        ).catalog_count == u64::MAX ==> r == Err::<CatalogInstance, ErrorCode>(ErrorCode::Overflow)
            && *final(root_data) == *old(root_data),
        spec_has_role(store.model(), Role::CreateCatalog, *auth_user) && old(
            root_data,
        ).catalog_count < u64::MAX ==> {
            &&& r is Ok
            &&& final(root_data).catalog_count == old(root_data).catalog_count + 1
            &&& final(root_data).root_authority == old(root_data).root_authority
            &&& r.unwrap().catalog_id == inp_catalog
            &&& r.unwrap().catalog_counter == 0
            &&& r.unwrap().signer == *catalog_signer
            &&& r.unwrap().manager == *catalog_manager
        },
{
    let admin_role = has_role(store, Role::CreateCatalog, auth_user);
    if admin_role.is_err() {
        return Err(ErrorCode::AccessDenied);
    }
    match root_data.add_catalog() {
        Ok(_) => {},
        Err(e) => {
            return Err(e);
        },
    }
    Ok(
        CatalogInstance {
            catalog_id: inp_catalog,
            catalog_counter: 0,
            signer: *catalog_signer,
            manager: *catalog_manager,
        },
    )
}

/// Creates a URL record. The caller-supplied hash must equal the SHAKE128
/// digest of the URL bytes (read big-endian) — this ties the record's
/// address to its content — and the declared length must match exactly.
pub fn create_url(
    inp_url_expand_mode: u8,
    inp_url_hash: u128,
    inp_url_length: u32,
    inp_url: Vec<u8>,
) -> (r: Result<CatalogUrl, ErrorCode>)
    ensures
        shake128_u128(inp_url@) != inp_url_hash ==> r == Err::<CatalogUrl, ErrorCode>(
            ErrorCode::InvalidURLHash,
        ),
        shake128_u128(inp_url@) == inp_url_hash && inp_url@.len() != inp_url_length ==> r == Err::<
            CatalogUrl,
            ErrorCode,
        >(ErrorCode::InvalidURLLength),
        shake128_u128(inp_url@) == inp_url_hash && inp_url@.len() == inp_url_length ==> r is Ok
            && r.unwrap().url_expand_mode == inp_url_expand_mode && r.unwrap().url@ == inp_url@,
{
    let confirm_hash: u128 = bytes_hash(&inp_url);
    if confirm_hash != inp_url_hash {
        return Err(ErrorCode::InvalidURLHash);
    }
    let url_len: usize = inp_url.len();
    if url_len != inp_url_length as usize {
        return Err(ErrorCode::InvalidURLLength);
    }
    Ok(CatalogUrl { url_expand_mode: inp_url_expand_mode, url: inp_url })
}

/// Creates a listing from a delegated-signature companion instruction.
/// The companion must pass the strict template for a 265-byte payload,
/// the recovered signer must be the catalog's signer, and every
/// caller-visible field must cross-check against the signed block; then
/// the entry is built and the catalog's listing counter advances. The fee
/// transfer named in the block is the caller's to perform, using the
/// returned parameters.
pub fn create_listing(
    catalog: &mut CatalogInstance,
    inp_uuid: u128,
    ix: &InstructionInfo,
    owner_key: &[u8; 32],
    fee_account_key: &[u8; 32],
    update_ts: i64,
) -> (r: Result<(CatalogEntry, CatalogParameters), ErrorCode>)
    requires
        ix.program_id@ == spec_ed25519_program_id() && ix.num_accounts == 0 ==> ix.data@.len()
            >= 112,
    ensures
        final(catalog).catalog_id == old(catalog).catalog_id,
        final(catalog).signer == old(catalog).signer,
        final(catalog).manager == old(catalog).manager,
        r is Err ==> *final(catalog) == *old(catalog),
        !(ix.program_id@ == spec_ed25519_program_id() && ix.num_accounts == 0 && spec_template_ok(
            ix.data@,
            CATALOG_PARAMETERS_LEN,
        )) ==> r == Err::<(CatalogEntry, CatalogParameters), ErrorCode>(
            ErrorCode::SigVerificationFailed,
        ),
        r is Ok ==> {
            let d = ix.data@.skip(112);
            let p = r.unwrap().1;
            let e = r.unwrap().0;
            &&& spec_template_ok(ix.data@, CATALOG_PARAMETERS_LEN)
            &&& d.len() == CATALOG_PARAMETERS_LEN
            &&& spec_params_of(p, d)
            &&& ix.data@.subrange(16, 48) == old(catalog).signer@
            &&& p.catalog == old(catalog).catalog_id
            &&& p.uuid == inp_uuid
            &&& p.owner@ == owner_key@
            &&& p.fee_account@ == fee_account_key@
            &&& e.uuid == p.uuid
            &&& e.catalog == p.catalog
            &&& e.category == p.category
            &&& e.filter_by@ == seq![p.filter_by_1, p.filter_by_2, p.filter_by_3]
            &&& e.attributes == p.attributes
            &&& e.latitude == le_i32_at(p.latitude@, 0)
            &&& e.longitude == le_i32_at(p.longitude@, 0)
            &&& e.owner == p.owner
            &&& e.listing_idx == old(catalog).catalog_counter
            &&& e.listing_url == p.listing_url
            &&& e.detail_url == p.detail_url
            &&& e.label_url == p.label_url
            &&& e.update_count == 0
            &&& e.update_ts == update_ts
            &&& final(catalog).catalog_counter == old(catalog).catalog_counter + 1
        },
{
    let (pk, req) = match verify_ed25519_ix(ix, 265) {
        Ok(v) => v,
        Err(e) => {
            return Err(e);
        },
    };
    let params = match parse_catalog_parameters(&req) {
        Some(p) => p,
        None => {
            return Err(ErrorCode::InvalidParameters);
        },
    };
    let signer_key = match to_key_array(&pk) {
        Some(k) => k,
        None => {
            return Err(ErrorCode::InvalidParameters);
        },
    };
    if !keys_equal(&signer_key, &catalog.signer) {
        return Err(ErrorCode::InvalidParameters);
    }
    if catalog.catalog_id != params.catalog {
        return Err(ErrorCode::InvalidParameters);
    }
    if inp_uuid != params.uuid {
        return Err(ErrorCode::InvalidParameters);
    }
    if !keys_equal(owner_key, &params.owner) {
        return Err(ErrorCode::InvalidParameters);
    }
    if !keys_equal(fee_account_key, &params.fee_account) {
        return Err(ErrorCode::InvalidParameters);
    }
    let lat = crate::codec::read_i32_arr4(&params.latitude);
    let lon = crate::codec::read_i32_arr4(&params.longitude);
    let entry = CatalogEntry {
        uuid: params.uuid,
        catalog: params.catalog,
        category: params.category,
        filter_by: [params.filter_by_1, params.filter_by_2, params.filter_by_3],
        attributes: params.attributes,
        latitude: lat,
        longitude: lon,
        update_ts,
        update_count: 0,
        owner: params.owner,
        listing_idx: catalog.catalog_counter,
        listing_url: params.listing_url,
        detail_url: params.detail_url,
        label_url: params.label_url,
    };
    let next = match catalog.catalog_counter.checked_add(1) {
        Some(v) => v,
        None => {
            return Err(ErrorCode::Overflow);
        },
    };
    catalog.catalog_counter = next;
    proof {
        assert(entry.filter_by@ =~= seq![params.filter_by_1, params.filter_by_2, params.filter_by_3]);
    }
    Ok((entry, params))
}

/// Builds the removal event for a listing; the hosting environment emits
/// it and closes the account.
pub fn remove_listing(
    auth_user: &[u8; 32],
    catalog: &CatalogInstance,
    listing_key: &[u8; 32],
    listing: &CatalogEntry,
) -> (ev: RemoveListingEvent)
    ensures
        ev.user == *auth_user,
        ev.catalog == catalog.catalog_id,
        ev.listing == *listing_key,
        ev.listing_idx == listing.listing_idx,
{
    RemoveListingEvent {
        user: *auth_user,
        catalog: catalog.catalog_id,
        listing: *listing_key,
        listing_idx: listing.listing_idx,
    }
}

/// Initializes the root account and the authorization store in one step:
/// the root's counter starts at zero, its authority is recorded, and the
/// zero-filled authorization buffer is set up with the grant table at its
/// full capacity.
pub fn initialize(root_data: &mut RootData, auth_data_key: &[u8; 32], auth_data: Vec<u8>) -> (r:
    Result<RbacStore, ErrorCode>)
    requires
        forall|j: int| 0 <= j < auth_data@.len() ==> auth_data@[j] == 0,
    ensures
        final(root_data).catalog_count == 0,
        final(root_data).root_authority == *auth_data_key,
        match r {
            Ok(s) => {
                &&& s.wf()
                &&& s.model().map@ == Map::<u128, crate::critbit::LeafNode>::empty()
                &&& s.model().element_count == 0
                &&& s.model().free_top == 0
                &&& s.model().bump_next == 0
                &&& s.model().capacity == crate::types::MAX_RBAC
            },
            Err(e) => e == ErrorCode::OutOfSpace && 16 + 8 * crate::types::MAX_RBAC
                > auth_data@.len(),
        },
{
    root_data.catalog_count = 0;
    root_data.root_authority = *auth_data_key;
    RbacStore::create(auth_data, crate::store::map_len(crate::types::DT::UserRBAC))
}

} // verus!
