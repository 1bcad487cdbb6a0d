//! Delegated-signature template verification.
use catalog::ErrorCode;
use catalog::ed25519::check_ed25519_data;
use catalog::ed25519::ed25519_program_id;
use catalog::ed25519::verify_ed25519_ix;
use catalog::ed25519::InstructionInfo;

/// Builds instruction data matching the strict template for `payload`.
fn template_data(payload: &[u8]) -> Vec<u8> {
    let msg_len = payload.len() as u16;
    let mut d = Vec::new();
    d.push(1u8); // num_signatures
    d.push(0u8); // padding
    d.extend_from_slice(&48u16.to_le_bytes()); // signature offset
    d.extend_from_slice(&0xffffu16.to_le_bytes()); // signature ix index
    d.extend_from_slice(&16u16.to_le_bytes()); // public key offset
    d.extend_from_slice(&0xffffu16.to_le_bytes()); // public key ix index
    d.extend_from_slice(&112u16.to_le_bytes()); // message offset
    d.extend_from_slice(&msg_len.to_le_bytes()); // message size
    d.extend_from_slice(&0xffffu16.to_le_bytes()); // message ix index
    d.extend_from_slice(&[0x11u8; 32]); // public key
    d.extend_from_slice(&[0x22u8; 64]); // signature
    d.extend_from_slice(payload);
    d
}

#[test]
fn exact_template_succeeds() {
    let payload = [7u8; 20];
    let data = template_data(&payload);
    let (pk, msg) = check_ed25519_data(&data, 20).unwrap();
    assert_eq!(pk, vec![0x11u8; 32]);
    assert_eq!(msg, payload.to_vec());
}

#[test]
fn each_offset_field_is_strict() {
    let payload = [7u8; 20];
    // altering any single header byte by one must fail
    for j in 0..16 {
        let mut data = template_data(&payload);
        data[j] = data[j].wrapping_add(1);
        let r = check_ed25519_data(&data, 20);
        assert_eq!(r.err(), Some(ErrorCode::SigVerificationFailed), "byte {}", j);
    }
}

#[test]
fn wrong_message_size_fails() {
    let payload = [7u8; 20];
    let data = template_data(&payload);
    let r = check_ed25519_data(&data, 21);
    assert_eq!(r.err(), Some(ErrorCode::SigVerificationFailed));
}

#[test]
fn instruction_level_checks() {
    let payload = [9u8; 8];
    let good = InstructionInfo {
        program_id: ed25519_program_id(),
        num_accounts: 0,
        data: template_data(&payload),
    };
    let (pk, msg) = verify_ed25519_ix(&good, 8).unwrap();
    assert_eq!(pk.len(), 32);
    assert_eq!(msg, payload.to_vec());

    let mut wrong_program = InstructionInfo {
        program_id: ed25519_program_id(),
        num_accounts: 0,
        data: template_data(&payload),
    };
    wrong_program.program_id[0] ^= 1;
    assert_eq!(
        verify_ed25519_ix(&wrong_program, 8).err(),
        Some(ErrorCode::SigVerificationFailed)
    );

    let with_accounts = InstructionInfo {
        program_id: ed25519_program_id(),
        num_accounts: 1,
        data: template_data(&payload),
    };
    assert_eq!(
        verify_ed25519_ix(&with_accounts, 8).err(),
        Some(ErrorCode::SigVerificationFailed)
    );
}

#[test]
fn empty_payload_template() {
    let data = template_data(&[]);
    assert_eq!(data.len(), 112);
    let (_, msg) = check_ed25519_data(&data, 0).unwrap();
    assert!(msg.is_empty());
}
