//! An append-only chat log kept inside a fixed-capacity account buffer:
//! the wire format of messages, account metadata and instructions, and the
//! processor that applies an instruction to a buffer.

use crate::data::Address;
use crate::processor::{applied, Account, ProgramError};
use vstd::prelude::*;

pub mod chat;
pub mod data;
pub mod laws;
pub mod processor;
pub mod round_trip;
pub mod wire;

verus! {

/// The program's entry point: the first account is the sender's and must
/// have signed; the instruction is then applied to the second account.
/// Whatever the outcome, only the second account's buffer can change.
pub fn process_instruction(
    program_id: &Address,
    accounts: &mut [Account],
    instruction_data: &[u8],
) -> (r: Result<(), ProgramError>)
    ensures
        final(accounts)@.len() == old(accounts)@.len(),
        forall|i: int|
            0 <= i < old(accounts)@.len() && i != 1 ==> final(accounts)@[i] == old(accounts)@[i],
        old(accounts)@.len() == 0 ==> r is Err && r->Err_0 == ProgramError::NotEnoughAccountKeys,
        old(accounts)@.len() > 0 && !old(accounts)@[0].is_signer ==> {
            &&& r is Err && r->Err_0 == ProgramError::IllegalOwner
            &&& final(accounts)@ == old(accounts)@
        },
        old(accounts)@.len() == 1 && old(accounts)@[0].is_signer ==> r is Err && r->Err_0
            == ProgramError::NotEnoughAccountKeys,
        old(accounts)@.len() >= 2 && old(accounts)@[0].is_signer ==> {
            let outcome = applied(old(accounts)@[1].data@, instruction_data@);
            &&& r is Ok <==> outcome.accepted
            &&& r is Err ==> r->Err_0 == ProgramError::InvalidInstructionData
            &&& final(accounts)@[1].data@ == outcome.buffer
            &&& final(accounts)@[1].is_signer == old(accounts)@[1].is_signer
        },
{
    if accounts.len() == 0 {
        return Err(ProgramError::NotEnoughAccountKeys);
    }
    if !accounts[0].is_signer {
        return Err(ProgramError::IllegalOwner);
    }
    processor::process_instruction(program_id, accounts, instruction_data)
}

} // verus!
