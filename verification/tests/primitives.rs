//! Arena sections, the critbit index, byte codecs and identity helpers.
use catalog::ErrorCode;
use catalog::arena::Arena;
use catalog::codec::read_i32_arr4;
use catalog::codec::read_i32_at;
use catalog::codec::read_u128_be;
use catalog::codec::read_u16_at;
use catalog::codec::read_u32_at;
use catalog::codec::read_u64_at;
use catalog::codec::read_u128_at;
use catalog::codec::write_u32_at;
use catalog::critbit::find_crit_bit;
use catalog::critbit::get_bit;
use catalog::critbit::CritMap;
use catalog::critbit::LeafNode;
use catalog::types::full_account_zero;
use catalog::types::keys_equal;
use catalog::types::role_code;
use catalog::types::role_of_code;
use catalog::types::Role;
use catalog::types::UserRBAC;
use catalog::types::DT;
use catalog::store::index_datatype;
use catalog::store::map_datatype;
use catalog::store::map_len;

#[test]
fn codec_round_trips() {
    let mut buf = vec![0u8; 16];
    write_u32_at(&mut buf, 3, 0xa1b2_c3d4);
    assert_eq!(read_u32_at(&buf, 3), 0xa1b2_c3d4);
    assert_eq!(buf[3], 0xd4);
    assert_eq!(buf[4], 0xc3);
    assert_eq!(buf[5], 0xb2);
    assert_eq!(buf[6], 0xa1);

    let le = vec![0x01u8, 0x02, 0x03, 0x04, 0x05, 0x06, 0x07, 0x08];
    assert_eq!(read_u16_at(&le, 0), 0x0201);
    assert_eq!(read_u64_at(&le, 0), 0x0807_0605_0403_0201);

    let wide: Vec<u8> = (1u8..=16).collect();
    assert_eq!(read_u128_at(&wide, 0), u128::from_le_bytes([1, 2, 3, 4, 5, 6, 7, 8, 9, 10, 11, 12, 13, 14, 15, 16]));
    let be = [1u8, 2, 3, 4, 5, 6, 7, 8, 9, 10, 11, 12, 13, 14, 15, 16];
    assert_eq!(read_u128_be(&be), u128::from_be_bytes(be));

    let neg = (-5i32).to_le_bytes().to_vec();
    assert_eq!(read_i32_at(&neg, 0), -5);
    assert_eq!(read_i32_arr4(&(-5i32).to_le_bytes()), -5);
    assert_eq!(read_i32_arr4(&i32::MIN.to_le_bytes()), i32::MIN);
    assert_eq!(read_i32_arr4(&i32::MAX.to_le_bytes()), i32::MAX);
}

#[test]
fn identity_and_role_helpers() {
    let a = [7u8; 32];
    let mut b = [7u8; 32];
    assert!(keys_equal(&a, &b));
    b[31] = 8;
    assert!(!keys_equal(&a, &b));

    assert!(full_account_zero(&vec![0u8; 100]));
    assert!(full_account_zero(&Vec::new()));
    let mut nz = vec![0u8; 100];
    nz[99] = 1;
    assert!(!full_account_zero(&nz));

    assert_eq!(role_code(Role::NetworkAdmin), 0);
    assert_eq!(role_code(Role::CreateCatalog), 1);
    assert_eq!(role_code(Role::RemoveURL), 2);
    assert_eq!(role_of_code(0), Some(Role::NetworkAdmin));
    assert_eq!(role_of_code(1), Some(Role::CreateCatalog));
    assert_eq!(role_of_code(2), Some(Role::RemoveURL));
    assert_eq!(role_of_code(3), None);

    assert_eq!(index_datatype(DT::UserRBAC), 1);
    assert_eq!(map_datatype(DT::UserRBAC), 0);
    assert_eq!(map_len(DT::UserRBAC), catalog::types::MAX_RBAC);
    assert_eq!(map_len(DT::UserRBACMap), 0);

    let mut rec = UserRBAC { role: Role::RemoveURL, free: 0 };
    assert_eq!(rec.role(), Role::RemoveURL);
    assert_eq!(rec.free(), 0);
    rec.set_free(9);
    assert_eq!(rec.free(), 9);
    assert_eq!(rec.role(), Role::RemoveURL);
}

#[test]
fn arena_sections_and_records() {
    let buf = vec![0u8; 100];
    let mut arena = Arena::setup(buf);
    // 16-byte header + 2 records of 8 bytes
    let s0 = arena.allocate(1, 8, 2).unwrap();
    assert_eq!(s0, 0);
    assert_eq!(arena.capacity(s0), 2);
    assert_eq!(arena.element_count(s0), 0);
    assert_eq!(arena.free_top(s0), 0);
    assert_eq!(arena.bump_next(s0), 0);

    let rec = vec![1u8, 2, 3, 4, 5, 6, 7, 8];
    arena.write_record(s0, 1, &rec).unwrap();
    assert_eq!(arena.index_bytes(s0, 1).unwrap(), rec);
    assert_eq!(arena.index_bytes(s0, 0).unwrap(), vec![0u8; 8]);
    assert_eq!(
        arena.index_bytes(s0, 2).err(),
        Some(ErrorCode::IndexOutOfRange)
    );
    assert_eq!(
        arena.write_record(s0, 2, &rec).err(),
        Some(ErrorCode::IndexOutOfRange)
    );

    arena.set_free_top(s0, 5);
    arena.set_element_count(s0, 1);
    arena.set_bump_next(s0, 2);
    assert_eq!(arena.free_top(s0), 5);
    assert_eq!(arena.element_count(s0), 1);
    assert_eq!(arena.bump_next(s0), 2);
    // the records are untouched by header writes
    assert_eq!(arena.index_bytes(s0, 1).unwrap(), rec);

    // a second section fits (32 + 16 + 48 = 96 <= 100), a third does not
    let s1 = arena.allocate(2, 16, 3).unwrap();
    assert_eq!(s1, 1);
    assert_eq!(arena.capacity(s1), 3);
    assert_eq!(arena.allocate(3, 8, 1).err(), Some(ErrorCode::OutOfSpace));
    // earlier sections are unaffected by later allocation
    assert_eq!(arena.index_bytes(s0, 1).unwrap(), rec);
    assert_eq!(arena.free_top(s0), 5);
}

#[test]
fn critbit_bits_and_map() {
    assert!(get_bit(1u128 << 127, 0));
    assert!(!get_bit(1u128 << 127, 1));
    assert!(get_bit(1, 127));
    assert_eq!(find_crit_bit(0, 1u128 << 127), 0);
    assert_eq!(find_crit_bit(0b1000, 0b1100), 125);

    let mut m = CritMap::new(3);
    assert_eq!(m.count(), 0);
    assert_eq!(m.capacity(), 3);
    let owner = [5u8; 32];
    m.insert_leaf(&LeafNode::new(10, 0, &owner)).unwrap();
    m.insert_leaf(&LeafNode::new(1u128 << 100, 1, &owner)).unwrap();
    m.insert_leaf(&LeafNode::new(11, 2, &owner)).unwrap();
    assert_eq!(m.count(), 3);

    let l = m.get_key(10).unwrap();
    assert_eq!(l.slot(), 0);
    assert_eq!(l.owner(), owner);
    assert_eq!(m.get_key(11).unwrap().slot(), 2);
    assert_eq!(m.get_key(1u128 << 100).unwrap().slot(), 1);
    assert!(m.get_key(12).is_none());

    // duplicate key is refused, capacity is enforced
    assert_eq!(
        m.insert_leaf(&LeafNode::new(10, 9, &owner)).err(),
        Some(ErrorCode::InternalError)
    );
    assert_eq!(
        m.insert_leaf(&LeafNode::new(12, 9, &owner)).err(),
        Some(ErrorCode::OutOfSpace)
    );

    // removal splices the leaf out and frees capacity
    let removed = m.remove_by_key(10).unwrap();
    assert_eq!(removed.slot(), 0);
    assert!(m.get_key(10).is_none());
    assert_eq!(m.get_key(11).unwrap().slot(), 2);
    assert_eq!(m.remove_by_key(10).err(), Some(ErrorCode::NotFound));
    assert_eq!(m.count(), 2);
    m.insert_leaf(&LeafNode::new(12, 9, &owner)).unwrap();
    assert_eq!(m.get_key(12).unwrap().slot(), 9);
}
