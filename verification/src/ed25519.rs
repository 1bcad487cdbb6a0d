//! Delegated-signature verification. A sensitive action may be authorized
//! by a companion instruction, co-submitted in the same atomic unit, that
//! the raw-signature verification facility executes. This module validates
//! that companion's byte layout as a strict template — every offset field
//! must equal the value derived from the fixed header, key and signature
//! sizes — and hands back the signer key and the signed payload bytes.
//! Authenticity is all it asserts; the caller must still deserialize the
//! payload and cross-check every field against its live context.
use vstd::prelude::*;

use crate::ErrorCode;
use crate::codec::le16_at;
use crate::codec::read_u16_at;
use crate::types::keys_equal;

verus! {

/// The 32-byte program id of the raw-signature verification facility.
pub open spec fn spec_ed25519_program_id() -> Seq<u8> {
    seq![
        3u8, 125, 70, 214, 124, 147, 251, 190, 18, 249, 66, 143, 131, 141, 64, 255, 5, 112, 116,
        73, 39, 244, 138, 100, 252, 202, 112, 68, 128, 0, 0, 0,
    ]
}

pub fn ed25519_program_id() -> (r: [u8; 32])
    ensures
        r@ == spec_ed25519_program_id(),
{
    let r: [u8; 32] = [
        3, 125, 70, 214, 124, 147, 251, 190, 18, 249, 66, 143, 131, 141, 64, 255, 5, 112, 116, 73,
        39, 244, 138, 100, 252, 202, 112, 68, 128, 0, 0, 0,
    ];
    proof {
        assert(r@ =~= spec_ed25519_program_id());
    }
    r
}

/// A companion instruction as this verifier reads it: the program it
/// targets, how many account references it declares, and its raw data.
pub struct InstructionInfo {
    pub program_id: [u8; 32],
    pub num_accounts: usize,
    pub data: Vec<u8>,
}

/// The strict single-signature template over the instruction data: one
/// signature, a zero padding byte, and every 16-bit little-endian field
/// equal to its derived constant — public key right after the 16-byte
/// header, signature right after the key, message right after the
/// signature, message size equal to the expected payload length, and all
/// three instruction indices pointing at this same instruction (0xffff).
pub open spec fn spec_template_ok(d: Seq<u8>, msg_len: u16) -> bool {
    &&& d[0] == 1u8
    &&& d[1] == 0u8
    &&& le16_at(d, 2) == 48
    &&& le16_at(d, 4) == 0xffff
    &&& le16_at(d, 6) == 16
    &&& le16_at(d, 8) == 0xffff
    &&& le16_at(d, 10) == 112
    &&& le16_at(d, 12) == msg_len
    &&& le16_at(d, 14) == 0xffff
}

/// Copies `b[lo .. hi]` out of a buffer.
fn copy_range(b: &Vec<u8>, lo: usize, hi: usize) -> (r: Vec<u8>)
    requires
        lo <= hi <= b@.len(),
    ensures
        r@ == b@.subrange(lo as int, hi as int),
{
    let n: usize = b.len();
    let mut out: Vec<u8> = Vec::new();
    let mut i: usize = lo;
    while i < hi
        invariant
            lo <= i <= hi <= b@.len(),
            out@ =~= b@.subrange(lo as int, i as int),
        decreases hi - i,
    {
        out.push(b[i]);
        proof {
            assert(out@ =~= b@.subrange(lo as int, i + 1));
        }
        i = i + 1;
    }
    out
}

/// Validates serialized signature-facility instruction data against the
/// strict template. On success, returns the 32 public-key bytes and the
/// message payload; any single-field deviation fails with
/// `SigVerificationFailed`.
pub fn check_ed25519_data(data: &Vec<u8>, msg_len: u16) -> (r: Result<
    (Vec<u8>, Vec<u8>),
    ErrorCode,
>)
    requires
        data@.len() >= 112,
    ensures
        match r {
            Ok((pk, msg)) => {
                &&& spec_template_ok(data@, msg_len)
                &&& pk@ == data@.subrange(16, 48)
                &&& msg@ == data@.skip(112)
            },
            Err(e) => e == ErrorCode::SigVerificationFailed && !spec_template_ok(data@, msg_len),
        },
{
    let n: usize = data.len();

    // Expected values, derived from the layout: two one-byte fields and
    // seven two-byte fields make the 16-byte header; the public key, the
    // signature and the message follow back to back.
    let exp_public_key_offset: u16 = 16;
    let exp_signature_offset: u16 = exp_public_key_offset + 32;
    let exp_message_data_offset: u16 = exp_signature_offset + 64;
    let exp_num_signatures: u8 = 1;
    let exp_message_data_size: u16 = msg_len;

    let num_signatures = data[0];
    let padding = data[1];
    let signature_offset = read_u16_at(data, 2);
    let signature_instruction_index = read_u16_at(data, 4);
    let public_key_offset = read_u16_at(data, 6);
    let public_key_instruction_index = read_u16_at(data, 8);
    let message_data_offset = read_u16_at(data, 10);
    let message_data_size = read_u16_at(data, 12);
    let message_instruction_index = read_u16_at(data, 14);

    if num_signatures != exp_num_signatures || padding != 0 || signature_offset
        != exp_signature_offset || signature_instruction_index != u16::MAX || public_key_offset
        != exp_public_key_offset || public_key_instruction_index != u16::MAX || message_data_offset
        != exp_message_data_offset || message_data_size != exp_message_data_size
        || message_instruction_index != u16::MAX {
        return Err(ErrorCode::SigVerificationFailed);
    }

    let data_pubkey = copy_range(data, 16, 48);
    let data_msg = copy_range(data, 112, n);
    proof {
        assert(data_msg@ =~= data@.skip(112));
    }
    Ok((data_pubkey, data_msg))
}

/// Verifies the companion instruction's fields: it must target the
/// signature-verification facility, declare zero account references (an
/// instruction carrying accounts could mean something else entirely), and
/// match the strict data template.
pub fn verify_ed25519_ix(ix: &InstructionInfo, msg_len: u16) -> (r: Result<
    (Vec<u8>, Vec<u8>),
    ErrorCode,
>)
    requires
        ix.program_id@ == spec_ed25519_program_id() && ix.num_accounts == 0 ==> ix.data@.len()
            >= 112,
    ensures
        match r {
            Ok((pk, msg)) => {
                &&& ix.program_id@ == spec_ed25519_program_id()
                &&& ix.num_accounts == 0
                &&& spec_template_ok(ix.data@, msg_len)
                &&& pk@ == ix.data@.subrange(16, 48)
                &&& msg@ == ix.data@.skip(112)
            },
            Err(e) => e == ErrorCode::SigVerificationFailed && !(ix.program_id@
                == spec_ed25519_program_id() && ix.num_accounts == 0 && spec_template_ok(
                ix.data@,
                msg_len,
            )),
        },
{
    let expected = ed25519_program_id();
    if !keys_equal(&ix.program_id, &expected) || ix.num_accounts != 0 {
        return Err(ErrorCode::SigVerificationFailed);
    }
    check_ed25519_data(&ix.data, msg_len)
}

/// Template strictness: every one of the 16 header bytes is pinned by the
/// template, so changing any of them — in particular altering any offset
/// field by one — makes the check fail.
pub proof fn lemma_template_strict(d: Seq<u8>, msg_len: u16, j: int, b: u8)
    requires
        d.len() >= 16,
        spec_template_ok(d, msg_len),
        0 <= j < 16,
        b != d[j],
    ensures
        !spec_template_ok(d.update(j, b), msg_len),
{
    let d2 = d.update(j, b);
    assert(forall|i: int| 0 <= i < d.len() && i != j ==> d2[i] == d[i]);
    if j >= 2 {
        let f = 2 * (j / 2);
        assert(f == j || f + 1 == j);
        assert(le16_at(d2, f) != le16_at(d, f));
    }
}

} // verus!
