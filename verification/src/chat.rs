//! The submitting side: where a user's chat account lives, and the
//! instruction that carries a request to the program.

use crate::data::{Address, ChatDeserializationError, ChatInstruction};
use solana_program::pubkey::{Pubkey, PubkeyError};
use vstd::prelude::*;
use vstd::utf8::{encode_utf8, is_ascii_chars_encode_utf8};

verus! {

/// Size in bytes of the buffer that a chat account is created with.
pub const ACCOUNT_SIZE: u64 = 5 * 1024;

/// The seed that chat account addresses are derived with.
pub const SEED: &'static str = "chat";

/// Longest seed, in bytes, that an address can be derived with.
pub const MAX_SEED_LEN: usize = 32;

/// Why no address could be derived.
#[derive(Debug, Clone, Copy, PartialEq, Eq)]
pub enum AddressError {
    /// The seed is longer than `MAX_SEED_LEN` bytes.
    MaxSeedLengthExceeded,
    /// The seeds do not give a valid address.
    InvalidSeeds,
    /// The owner is itself a program-derived address.
    IllegalOwner,
}

/// The bytes `ProgramDerivedAddress`, which end every address that no seed
/// may be hung on.
pub open spec fn pda_marker() -> Seq<u8> {
    seq![
        80u8, 114, 111, 103, 114, 97, 109, 68, 101, 114, 105, 118, 101, 100, 65, 100, 100, 114,
        101, 115, 115,
    ]
}

/// The last 21 bytes of `owner` are the marker.
pub open spec fn ends_with_pda_marker(owner: Seq<u8>) -> bool {
    owner.len() >= 21 && owner.subrange(owner.len() - 21, owner.len() as int) == pda_marker()
}

/// The 32 bytes of the address derived from a base address, a seed and an
/// owner: the SHA-256 hash of the three, one after the other.
pub uninterp spec fn seeded_address_bytes(base: Seq<u8>, seed: Seq<u8>, owner: Seq<u8>) -> Seq<u8>;

/// `Pubkey::create_with_seed` of `solana_program`, on plain bytes. A seed
/// of more than 32 bytes is turned down first, then an owner that ends with
/// the marker; anything else gives the hash of base, seed and owner, which
/// this contract only names.
#[verifier::external_body]
fn create_with_seed(base: &Address, seed: &str, owner: &Address) -> (r: Result<
    Address,
    AddressError,
>)
    ensures
        encode_utf8(seed@).len() > MAX_SEED_LEN ==> r is Err && r->Err_0
            == AddressError::MaxSeedLengthExceeded,
        encode_utf8(seed@).len() <= MAX_SEED_LEN && ends_with_pda_marker(owner@) ==> r is Err
            && r->Err_0 == AddressError::IllegalOwner,
        encode_utf8(seed@).len() <= MAX_SEED_LEN && !ends_with_pda_marker(owner@) ==> r is Ok
            && r->Ok_0@ == seeded_address_bytes(base@, encode_utf8(seed@), owner@),
{
    let base = Pubkey::new_from_array(base.bytes);
    let owner = Pubkey::new_from_array(owner.bytes);
    match Pubkey::create_with_seed(&base, seed, &owner) {
        Ok(key) => Ok(Address { bytes: key.to_bytes() }),
        Err(PubkeyError::MaxSeedLengthExceeded) => Err(AddressError::MaxSeedLengthExceeded),
        Err(PubkeyError::InvalidSeeds) => Err(AddressError::InvalidSeeds),
        Err(PubkeyError::IllegalOwner) => Err(AddressError::IllegalOwner),
    }
}

/// The address of the chat account that `user_pk` has with the program
/// `program_pk`. The same two addresses always give the same account. Fails
/// only for a program address that ends with the marker.
pub fn infer_chat_account_pubkey(user_pk: &Address, program_pk: &Address) -> (r: Result<
    Address,
    AddressError,
>)
    ensures
        ends_with_pda_marker(program_pk@) ==> r is Err && r->Err_0 == AddressError::IllegalOwner,
        !ends_with_pda_marker(program_pk@) ==> r is Ok && r->Ok_0@ == seeded_address_bytes(
            user_pk@,
            encode_utf8("chat"@),
            program_pk@,
        ),
{
    proof {
        reveal_strlit("chat");
        is_ascii_chars_encode_utf8("chat"@);
    }
    create_with_seed(user_pk, SEED, program_pk)
}

/// How an instruction refers to one of the accounts it touches.
#[derive(Debug, Clone, Copy, PartialEq, Eq)]
pub struct AccountMeta {
    pub pubkey: Address,
    /// The account must sign the transaction.
    pub is_signer: bool,
    /// The program may write to the account.
    pub is_writable: bool,
}

/// A request to a program: which program, which accounts, and the payload.
#[derive(Debug, Clone, PartialEq, Eq)]
pub struct Instruction {
    pub program_id: Address,
    pub accounts: Vec<AccountMeta>,
    pub data: Vec<u8>,
}

/// The instruction that asks `program` to apply `chat_instruction` to the
/// chat account `to_account` on behalf of `from_account`: the sender signs,
/// both accounts are writable, and the payload is the encoded instruction.
/// Fails when `chat_instruction` is not well-formed.
pub fn create_chat_instruction(
    program: Address,
    from_account: Address,
    to_account: Address,
    chat_instruction: ChatInstruction,
) -> (r: Result<Instruction, ChatDeserializationError>)
    requires
        chat_instruction@.wire_size() <= usize::MAX,
    ensures
        r is Ok <==> chat_instruction@.well_formed(),
        r is Ok ==> {
            &&& r->Ok_0.program_id == program
            &&& r->Ok_0.data@ == chat_instruction@.encoding()
            &&& r->Ok_0.accounts@ == seq![
                AccountMeta { pubkey: from_account, is_signer: true, is_writable: true },
                AccountMeta { pubkey: to_account, is_signer: false, is_writable: true },
            ]
        },
{
    let data_size = chat_instruction.size();
    let mut instruction_data = vec![0u8; data_size];
    if chat_instruction.serialize(instruction_data.as_mut_slice()).is_err() {
        return Err(ChatDeserializationError);
    }
    let ac_meta = AccountMeta { pubkey: from_account, is_signer: true, is_writable: true };
    let new_account_meta = AccountMeta { pubkey: to_account, is_signer: false, is_writable: true };
    let mut accounts: Vec<AccountMeta> = Vec::new();
    accounts.push(ac_meta);
    accounts.push(new_account_meta);
    assert(accounts@ =~= seq![ac_meta, new_account_meta]);
    Ok(Instruction { program_id: program, accounts, data: instruction_data })
}

} // verus!
