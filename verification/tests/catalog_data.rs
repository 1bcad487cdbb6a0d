//! Catalog records: parameter-block parsing, URL records with their
//! content hash, listing creation, and the small record helpers.
use catalog::ErrorCode;
use catalog::catalog::create_catalog;
use catalog::catalog::create_listing;
use catalog::catalog::create_url;
use catalog::catalog::parse_catalog_parameters;
use catalog::catalog::remove_listing;
use catalog::catalog::store_metadata;
use catalog::catalog::CatalogInstance;
use catalog::catalog::ProgramMetadata;
use catalog::catalog::RootData;
use catalog::catalog::URLExpandMode;
use catalog::catalog::CATALOG_PARAMETERS_LEN;
use catalog::ed25519::ed25519_program_id;
use catalog::ed25519::InstructionInfo;
use catalog::access::grant;
use catalog::store::RbacStore;
use catalog::types::full_account_zero;
use catalog::types::VERSION_MAJOR;
use catalog::types::VERSION_MINOR;
use catalog::types::VERSION_PATCH;

use sha3::digest::{ExtendableOutput, Update, XofReader};
use sha3::Shake128;

fn key(b: u8) -> [u8; 32] {
    let mut k = [0u8; 32];
    k[0] = b;
    k
}

fn shake128_be(data: &[u8]) -> u128 {
    let mut hasher = Shake128::default();
    hasher.update(data);
    let mut reader = hasher.finalize_xof();
    let mut out = [0u8; 16];
    reader.read(&mut out);
    u128::from_be_bytes(out)
}

/// Serializes a parameter block exactly as `parse_catalog_parameters`
/// reads it.
fn params_bytes(
    uuid: u128,
    catalog_id: u64,
    category: u128,
    filters: [u128; 3],
    attributes: u8,
    latitude: i32,
    longitude: i32,
    owner: [u8; 32],
    urls: [[u8; 32]; 3],
    fee_account: [u8; 32],
    fee_tokens: u64,
) -> Vec<u8> {
    let mut d = Vec::new();
    d.extend_from_slice(&uuid.to_le_bytes());
    d.extend_from_slice(&catalog_id.to_le_bytes());
    d.extend_from_slice(&category.to_le_bytes());
    d.extend_from_slice(&filters[0].to_le_bytes());
    d.extend_from_slice(&filters[1].to_le_bytes());
    d.extend_from_slice(&filters[2].to_le_bytes());
    d.push(attributes);
    d.extend_from_slice(&latitude.to_le_bytes());
    d.extend_from_slice(&longitude.to_le_bytes());
    d.extend_from_slice(&owner);
    d.extend_from_slice(&urls[0]);
    d.extend_from_slice(&urls[1]);
    d.extend_from_slice(&urls[2]);
    d.extend_from_slice(&fee_account);
    d.extend_from_slice(&fee_tokens.to_le_bytes());
    assert_eq!(d.len(), CATALOG_PARAMETERS_LEN as usize);
    d
}

#[test]
fn parse_parameters_exact_fields() {
    let d = params_bytes(
        0x0102_0304_0506_0708_090a_0b0c_0d0e_0f10u128,
        0xdead_beef_1234_5678u64,
        42u128,
        [1u128, 2u128, 3u128],
        0b101,
        -373891234,
        1812345678,
        key(5),
        [key(6), key(7), key(8)],
        key(9),
        1000,
    );
    let p = parse_catalog_parameters(&d).unwrap();
    assert_eq!(p.uuid, 0x0102_0304_0506_0708_090a_0b0c_0d0e_0f10u128);
    assert_eq!(p.catalog, 0xdead_beef_1234_5678u64);
    assert_eq!(p.category, 42);
    assert_eq!(p.filter_by_1, 1);
    assert_eq!(p.filter_by_2, 2);
    assert_eq!(p.filter_by_3, 3);
    assert_eq!(p.attributes, 0b101);
    assert_eq!(i32::from_le_bytes(p.latitude), -373891234);
    assert_eq!(i32::from_le_bytes(p.longitude), 1812345678);
    assert_eq!(p.owner, key(5));
    assert_eq!(p.listing_url, key(6));
    assert_eq!(p.label_url, key(7));
    assert_eq!(p.detail_url, key(8));
    assert_eq!(p.fee_account, key(9));
    assert_eq!(p.fee_tokens, 1000);
}

#[test]
fn parse_parameters_wrong_length() {
    assert!(parse_catalog_parameters(&vec![0u8; 264]).is_none());
    assert!(parse_catalog_parameters(&vec![0u8; 266]).is_none());
    assert!(parse_catalog_parameters(&Vec::new()).is_none());
}

#[test]
fn url_expand_modes_are_distinct() {
    assert_eq!(URLExpandMode::NoExpand, URLExpandMode::NoExpand);
    assert_ne!(URLExpandMode::NoExpand, URLExpandMode::AppendUUID);
    assert_ne!(URLExpandMode::AppendUUID, URLExpandMode::UTF8UriEncoded);
}

#[test]
fn url_record_requires_matching_hash() {
    let url = b"https://example.com/catalog/item".to_vec();
    let good_hash = shake128_be(&url);
    let rec = create_url(1, good_hash, url.len() as u32, url.clone()).unwrap();
    assert_eq!(rec.url_expand_mode, 1);
    assert_eq!(rec.url, url);

    let r = create_url(1, good_hash ^ 1, url.len() as u32, url.clone());
    assert_eq!(r.err(), Some(ErrorCode::InvalidURLHash));

    let r = create_url(1, good_hash, url.len() as u32 + 1, url.clone());
    assert_eq!(r.err(), Some(ErrorCode::InvalidURLLength));
}

#[test]
fn create_catalog_requires_role() {
    let buffer = vec![0u8; 4096];
    assert!(full_account_zero(&buffer));
    let mut store = RbacStore::create(buffer, 8).unwrap();
    let owner = key(1);
    let user = key(2);
    let mut root = RootData { catalog_count: 0, root_authority: key(3) };

    let r = create_catalog(&store, &user, &mut root, 44, &key(10), &key(11));
    assert_eq!(r.err(), Some(ErrorCode::AccessDenied));
    assert_eq!(root.catalog_count, 0);

    grant(&mut store, &owner, &owner, &user, 1).unwrap();
    let inst = create_catalog(&store, &user, &mut root, 44, &key(10), &key(11)).unwrap();
    assert_eq!(inst.catalog_id, 44);
    assert_eq!(inst.catalog_counter, 0);
    assert_eq!(inst.signer, key(10));
    assert_eq!(inst.manager, key(11));
    assert_eq!(root.catalog_count, 1);
}

#[test]
fn add_catalog_overflow() {
    let mut root = RootData { catalog_count: u64::MAX, root_authority: key(0) };
    assert_eq!(root.add_catalog().err(), Some(ErrorCode::Overflow));
    assert_eq!(root.catalog_count, u64::MAX);
}

#[test]
fn root_authority_round_trip() {
    let mut root = RootData { catalog_count: 5, root_authority: key(1) };
    assert_eq!(root.root_authority(), key(1));
    root.set_root_authority(key(2));
    assert_eq!(root.root_authority(), key(2));
    assert_eq!(root.catalog_count, 5);
}

fn template_ix(signer: [u8; 32], payload: &[u8]) -> InstructionInfo {
    let msg_len = payload.len() as u16;
    let mut d = Vec::new();
    d.push(1u8);
    d.push(0u8);
    d.extend_from_slice(&48u16.to_le_bytes());
    d.extend_from_slice(&0xffffu16.to_le_bytes());
    d.extend_from_slice(&16u16.to_le_bytes());
    d.extend_from_slice(&0xffffu16.to_le_bytes());
    d.extend_from_slice(&112u16.to_le_bytes());
    d.extend_from_slice(&msg_len.to_le_bytes());
    d.extend_from_slice(&0xffffu16.to_le_bytes());
    d.extend_from_slice(&signer);
    d.extend_from_slice(&[0x22u8; 64]);
    d.extend_from_slice(payload);
    InstructionInfo { program_id: ed25519_program_id(), num_accounts: 0, data: d }
}

#[test]
fn create_listing_end_to_end() {
    let signer = key(20);
    let owner = key(21);
    let fee_account = key(22);
    let uuid = 0xabcdu128;
    let payload = params_bytes(
        uuid,
        44,
        9,
        [10, 20, 30],
        1,
        -1,
        2,
        owner,
        [key(30), key(31), key(32)],
        fee_account,
        500,
    );
    let ix = template_ix(signer, &payload);
    let mut catalog_inst =
        CatalogInstance { catalog_id: 44, catalog_counter: 7, signer, manager: key(23) };
    let (entry, params) =
        create_listing(&mut catalog_inst, uuid, &ix, &owner, &fee_account, 1_700_000_000).unwrap();
    assert_eq!(entry.uuid, uuid);
    assert_eq!(entry.catalog, 44);
    assert_eq!(entry.category, 9);
    assert_eq!(entry.filter_by, [10, 20, 30]);
    assert_eq!(entry.attributes, 1);
    assert_eq!(entry.latitude, -1);
    assert_eq!(entry.longitude, 2);
    assert_eq!(entry.owner, owner);
    assert_eq!(entry.listing_idx, 7);
    assert_eq!(entry.listing_url, key(30));
    assert_eq!(entry.label_url, key(31));
    assert_eq!(entry.detail_url, key(32));
    assert_eq!(entry.update_count, 0);
    assert_eq!(entry.update_ts, 1_700_000_000);
    assert_eq!(params.fee_tokens, 500);
    assert_eq!(catalog_inst.catalog_counter, 8);
}

#[test]
fn create_listing_rejects_wrong_signer_and_fields() {
    let signer = key(20);
    let owner = key(21);
    let fee_account = key(22);
    let uuid = 0xabcdu128;
    let payload = params_bytes(
        uuid,
        44,
        9,
        [10, 20, 30],
        1,
        0,
        0,
        owner,
        [key(30), key(31), key(32)],
        fee_account,
        0,
    );

    // signer mismatch
    let ix = template_ix(key(99), &payload);
    let mut inst = CatalogInstance { catalog_id: 44, catalog_counter: 0, signer, manager: key(23) };
    let r = create_listing(&mut inst, uuid, &ix, &owner, &fee_account, 0);
    assert_eq!(r.err(), Some(ErrorCode::InvalidParameters));
    assert_eq!(inst.catalog_counter, 0);

    // catalog id mismatch
    let ix = template_ix(signer, &payload);
    let mut inst = CatalogInstance { catalog_id: 45, catalog_counter: 0, signer, manager: key(23) };
    let r = create_listing(&mut inst, uuid, &ix, &owner, &fee_account, 0);
    assert_eq!(r.err(), Some(ErrorCode::InvalidParameters));

    // uuid mismatch
    let ix = template_ix(signer, &payload);
    let mut inst = CatalogInstance { catalog_id: 44, catalog_counter: 0, signer, manager: key(23) };
    let r = create_listing(&mut inst, uuid + 1, &ix, &owner, &fee_account, 0);
    assert_eq!(r.err(), Some(ErrorCode::InvalidParameters));

    // broken template
    let mut ix = template_ix(signer, &payload);
    ix.data[2] = ix.data[2].wrapping_add(1);
    let mut inst = CatalogInstance { catalog_id: 44, catalog_counter: 0, signer, manager: key(23) };
    let r = create_listing(&mut inst, uuid, &ix, &owner, &fee_account, 0);
    assert_eq!(r.err(), Some(ErrorCode::SigVerificationFailed));
}

#[test]
fn metadata_and_removal_event() {
    let mut md = ProgramMetadata {
        semvar_major: 0,
        semvar_minor: 0,
        semvar_patch: 0,
        program: key(0),
        program_name: String::new(),
        developer_name: String::new(),
        developer_url: String::new(),
        source_url: String::new(),
        verify_url: String::new(),
    };
    store_metadata(
        &mut md,
        &key(4),
        String::from("catalog"),
        String::from("devs"),
        String::from("https://dev.example"),
        String::from("https://src.example"),
        String::from("https://verify.example"),
    );
    assert_eq!(md.semvar_major, VERSION_MAJOR);
    assert_eq!(md.semvar_minor, VERSION_MINOR);
    assert_eq!(md.semvar_patch, VERSION_PATCH);
    assert_eq!(md.program, key(4));
    assert_eq!(md.program_name, "catalog");

    let inst = CatalogInstance { catalog_id: 3, catalog_counter: 2, signer: key(1), manager: key(2) };
    let listing = catalog::catalog::CatalogEntry {
        uuid: 1,
        catalog: 3,
        category: 0,
        filter_by: [0, 0, 0],
        attributes: 0,
        latitude: 0,
        longitude: 0,
        update_ts: 0,
        update_count: 0,
        owner: key(5),
        listing_idx: 17,
        listing_url: key(6),
        label_url: key(7),
        detail_url: key(8),
    };
    let ev = remove_listing(&key(9), &inst, &key(10), &listing);
    assert_eq!(ev.user, key(9));
    assert_eq!(ev.catalog, 3);
    assert_eq!(ev.listing, key(10));
    assert_eq!(ev.listing_idx, 17);
}
