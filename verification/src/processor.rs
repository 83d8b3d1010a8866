//! Applying an instruction to an account buffer.
//!
//! An account is either unopened (`initialized == 0`) or open. Opening
//! writes the metadata; sending appends messages at the write cursor and
//! moves it. An instruction either applies in full or is rejected with the
//! buffer left as it was.

use crate::data::{
    checked_messages_size, Address, message_views, messages_encoding, messages_well_formed,
    messages_wire_size, write_messages, AccountMetadata, AccountMetadataView, ChatData,
    ChatDeserializationError, ChatInstruction, ChatInstructionView, Message, MessageView,
    ACCOUNT_METADATA_BASE_SIZE,
};
use crate::wire::overwrite;
use vstd::prelude::*;

verus! {

/// `message` under another id.
pub open spec fn with_id(message: MessageView, id: u32) -> MessageView {
    MessageView { id, from: message.from, msg_size: message.msg_size, msg: message.msg }
}

/// `messages` numbered `first`, `first + 1`, and so on, in order.
pub open spec fn renumbered(messages: Seq<MessageView>, first: u32) -> Seq<MessageView> {
    Seq::new(messages.len(), |i: int| with_id(messages[i], (first + i) as u32))
}

/// A non-empty run of messages can be appended to an account with this
/// metadata in a buffer of `capacity` bytes: everything is well-formed, the
/// ids and the new write cursor fit in 32 bits, and both the messages and
/// the metadata lie within the buffer.
pub open spec fn can_receive(
    capacity: nat,
    metadata: AccountMetadataView,
    messages: Seq<MessageView>,
) -> bool {
    &&& messages_well_formed(messages)
    &&& metadata.well_formed()
    &&& metadata.wire_size() <= capacity
    &&& metadata.next_free_index + messages_wire_size(messages) <= capacity
    &&& metadata.next_free_index + messages_wire_size(messages) <= u32::MAX
    &&& metadata.last_message_id + messages.len() - 1 <= u32::MAX
}

/// The metadata once `messages` are appended: the cursor moved past them,
/// and the last id that of the last message. The first message takes the
/// old `last_message_id` itself as its id.
pub open spec fn metadata_after_receive(
    metadata: AccountMetadataView,
    messages: Seq<MessageView>,
) -> AccountMetadataView {
    AccountMetadataView {
        initialized: metadata.initialized,
        next_free_index: (metadata.next_free_index + messages_wire_size(messages)) as u32,
        last_message_id: (metadata.last_message_id + messages.len() - 1) as u32,
        account_name_len: metadata.account_name_len,
        account_name: metadata.account_name,
    }
}

/// The buffer once `messages` are appended: the renumbered messages written
/// at the old cursor, then the new metadata written over the front.
pub open spec fn buffer_after_receive(
    buffer: Seq<u8>,
    metadata: AccountMetadataView,
    messages: Seq<MessageView>,
) -> Seq<u8> {
    overwrite(
        overwrite(
            buffer,
            metadata.next_free_index as int,
            messages_encoding(renumbered(messages, metadata.last_message_id)),
        ),
        0,
        metadata_after_receive(metadata, messages).encoding(),
    )
}

/// Renumbering changes neither the sizes nor the well-formedness of a run.
pub proof fn lemma_renumbered_keeps_shape(messages: Seq<MessageView>, first: u32)
    ensures
        messages_wire_size(renumbered(messages, first)) == messages_wire_size(messages),
        messages_well_formed(messages) ==> messages_well_formed(renumbered(messages, first)),
    decreases messages.len(),
{
    if messages.len() > 0 {
        lemma_renumbered_keeps_shape(messages.drop_last(), first);
        assert(renumbered(messages, first).drop_last() =~= renumbered(
            messages.drop_last(),
            first,
        ));
    }
    if messages_well_formed(messages) {
        assert forall|i: int| 0 <= i < messages.len() implies (#[trigger] renumbered(
            messages,
            first,
        )[i]).well_formed() by {
            assert(messages[i].well_formed());
        }
    }
}

/// Whether a buffer of `capacity` bytes has room for `metadata`.
fn metadata_fits(metadata: &AccountMetadata, capacity: usize) -> (b: bool)
    ensures
        b == (metadata@.wire_size() <= capacity),
{
    capacity >= ACCOUNT_METADATA_BASE_SIZE && capacity - ACCOUNT_METADATA_BASE_SIZE
        >= metadata.account_name_len as usize
}

/// Appends `messages` to the account: numbers them from the account's
/// `last_message_id` on, writes them at the write cursor, and brings the
/// metadata up to date, in `account_metadata` and at the front of
/// `account_data`. An empty run succeeds and changes nothing. Fails, and
/// changes nothing, unless `can_receive` holds.
pub fn receive_messages(
    account_data: &mut [u8],
    account_metadata: &mut AccountMetadata,
    messages: &mut Vec<Message>,
) -> (r: Result<(), ChatDeserializationError>)
    ensures
        r is Ok <==> old(messages)@.len() == 0 || can_receive(
            old(account_data)@.len(),
            old(account_metadata)@,
            message_views(old(messages)@),
        ),
        r is Err || old(messages)@.len() == 0 ==> {
            &&& final(account_data)@ == old(account_data)@
            &&& *final(account_metadata) == *old(account_metadata)
            &&& final(messages)@ == old(messages)@
        },
        r is Ok && old(messages)@.len() > 0 ==> {
            &&& message_views(final(messages)@) == renumbered(
                message_views(old(messages)@),
                old(account_metadata).last_message_id,
            )
            &&& final(account_metadata)@ == metadata_after_receive(
                old(account_metadata)@,
                message_views(old(messages)@),
            )
            &&& final(account_data)@ == buffer_after_receive(
                old(account_data)@,
                old(account_metadata)@,
                message_views(old(messages)@),
            )
        },
{
    if messages.len() == 0 {
        return Ok(());
    }
    let ghost views = message_views(messages@);
    let count = messages.len();
    let capacity = account_data.len();
    let first_id = account_metadata.last_message_id;
    let start_index = account_metadata.next_free_index as usize;

    if !account_metadata.is_well_formed() || !metadata_fits(account_metadata, capacity) {
        return Err(ChatDeserializationError);
    }
    if start_index > capacity {
        return Err(ChatDeserializationError);
    }
    let messages_size = match checked_messages_size(messages.as_slice(), capacity - start_index) {
        Some(size) => size,
        None => { return Err(ChatDeserializationError); },
    };
    let cursor_room = (u32::MAX - account_metadata.next_free_index) as usize;
    let id_room = (u32::MAX - first_id) as usize;
    if messages_size > cursor_room || count - 1 > id_room {
        return Err(ChatDeserializationError);
    }
    let mut i: usize = 0;
    while i < count
        invariant
            i <= count,
            count == messages@.len(),
            views.len() == count,
            first_id + count - 1 <= u32::MAX,
            message_views(messages@) == Seq::new(
                count as nat,
                |j: int|
                    if j < i {
                        with_id(views[j], (first_id + j) as u32)
                    } else {
                        views[j]
                    },
            ),
        decreases count - i,
    {
        let ghost before = messages@;
        let id = first_id + i as u32;
        messages[i].id = id;
        i += 1;
        proof {
            let target = Seq::new(
                count as nat,
                |j: int|
                    if j < i {
                        with_id(views[j], (first_id + j) as u32)
                    } else {
                        views[j]
                    },
            );
            assert forall|j: int| 0 <= j < count implies message_views(messages@)[j]
                == target[j] by {
                assert(message_views(before)[j] == before[j]@);
            }
            assert(message_views(messages@) =~= target);
        }
    }
    proof {
        assert(message_views(messages@) =~= renumbered(views, first_id));
        lemma_renumbered_keeps_shape(views, first_id);
    }
    write_messages(messages.as_slice(), account_data, start_index);

    account_metadata.next_free_index = (start_index + messages_size) as u32;
    account_metadata.last_message_id = first_id + (count - 1) as u32;
    account_metadata.write_at(account_data, 0);
    Ok(())
}

/// Deleting is declared but not carried out: nothing is removed.
pub fn delete_messages(_id: u32) {
}

/// Writes `account_metadata` over the front of `account_data`. Fails, and
/// leaves the buffer alone, when the metadata is not well-formed or does not
/// fit.
pub fn open_account(account_data: &mut [u8], account_metadata: &AccountMetadata) -> (r: Result<
    (),
    ChatDeserializationError,
>)
    ensures
        r is Ok <==> account_metadata@.well_formed() && account_metadata@.wire_size() <= old(
            account_data,
        ).len(),
        r is Ok ==> final(account_data)@ == overwrite(
            old(account_data)@,
            0,
            account_metadata@.encoding(),
        ),
        r is Err ==> final(account_data)@ == old(account_data)@,
{
    if !account_metadata.is_well_formed() || !metadata_fits(account_metadata, account_data.len()) {
        return Err(ChatDeserializationError);
    }
    account_metadata.write_at(account_data, 0);
    Ok(())
}

/// Why the program turned an instruction down.
#[derive(Debug, Clone, Copy, PartialEq, Eq)]
pub enum ProgramError {
    /// Fewer accounts were passed than the instruction needs.
    NotEnoughAccountKeys,
    /// The sending account did not sign.
    IllegalOwner,
    /// The account buffer or the instruction could not be decoded, or the
    /// instruction cannot be applied to this account.
    InvalidInstructionData,
}

/// What the program reads of an account that is passed to it.
#[derive(Debug, Clone, PartialEq, Eq)]
pub struct Account {
    /// Whether the account signed the transaction.
    pub is_signer: bool,
    /// The account's buffer.
    pub data: Vec<u8>,
}

/// What applying an instruction comes to: whether it was accepted, and the
/// account buffer afterwards.
pub struct Outcome {
    pub accepted: bool,
    pub buffer: Seq<u8>,
}

/// The outcome of applying the encoded `instruction` to `buffer`.
///
/// The buffer must decode as metadata and the instruction as an instruction.
/// Sending no message and deleting are accepted and change nothing. Sending
/// messages appends them where `can_receive` holds. Opening writes the
/// given metadata over the front of an unopened account. Everything else is
/// rejected and leaves the buffer as it was.
pub open spec fn applied(buffer: Seq<u8>, instruction: Seq<u8>) -> Outcome {
    let rejected = Outcome { accepted: false, buffer };
    let unchanged = Outcome { accepted: true, buffer };
    if !AccountMetadataView::fits(buffer) {
        rejected
    } else {
        let current = AccountMetadataView::parsed(buffer);
        match ChatInstructionView::parsed(instruction) {
            None => rejected,
            Some(ChatInstructionView::SendMessages { messages }) => {
                if messages.len() == 0 {
                    unchanged
                } else if can_receive(buffer.len(), current, messages) {
                    Outcome {
                        accepted: true,
                        buffer: buffer_after_receive(buffer, current, messages),
                    }
                } else {
                    rejected
                }
            },
            Some(ChatInstructionView::DeleteMessages { id }) => unchanged,
            Some(ChatInstructionView::OpenAccount { account_metadata }) => {
                if current.initialized == 0 && account_metadata.well_formed()
                    && account_metadata.wire_size() <= buffer.len() {
                    Outcome {
                        accepted: true,
                        buffer: overwrite(buffer, 0, account_metadata.encoding()),
                    }
                } else {
                    rejected
                }
            },
        }
    }
}

/// Applies the encoded instruction `instruction_data` to the account buffer
/// `account_data`. Every rejection is `InvalidInstructionData` and leaves the
/// buffer as it was.
pub fn apply_instruction(account_data: &mut [u8], instruction_data: &[u8]) -> (r: Result<
    (),
    ProgramError,
>)
    ensures
        r is Ok <==> applied(old(account_data)@, instruction_data@).accepted,
        r is Err ==> r->Err_0 == ProgramError::InvalidInstructionData,
        final(account_data)@ == applied(old(account_data)@, instruction_data@).buffer,
{
    let mut acc_metadata = AccountMetadata::default();
    if acc_metadata.deserialize(account_data).is_err() {
        return Err(ProgramError::InvalidInstructionData);
    }
    let chat_instruction = match ChatInstruction::deserialize(instruction_data) {
        Ok(instruction) => instruction,
        Err(_) => { return Err(ProgramError::InvalidInstructionData); },
    };

    match chat_instruction {
        ChatInstruction::SendMessages { messages } => {
            let mut messages = messages;
            if receive_messages(account_data, &mut acc_metadata, &mut messages).is_err() {
                return Err(ProgramError::InvalidInstructionData);
            }
            Ok(())
        },
        ChatInstruction::DeleteMessages { id } => {
            delete_messages(id);
            Ok(())
        },
        ChatInstruction::OpenAccount { account_metadata } => {
            if acc_metadata.initialized > 0 {
                return Err(ProgramError::InvalidInstructionData);
            }
            if open_account(account_data, &account_metadata).is_err() {
                return Err(ProgramError::InvalidInstructionData);
            }
            Ok(())
        },
    }
}

/// Applies an instruction to the second of the accounts passed; the first is
/// the sender's. With fewer than two accounts nothing is done.
pub fn process_instruction(
    program_id: &Address,
    accounts: &mut [Account],
    instruction_data: &[u8],
) -> (r: Result<(), ProgramError>)
    ensures
        final(accounts)@.len() == old(accounts)@.len(),
        forall|i: int|
            0 <= i < old(accounts)@.len() && i != 1 ==> final(accounts)@[i] == old(accounts)@[i],
        old(accounts)@.len() < 2 ==> r is Err && r->Err_0 == ProgramError::NotEnoughAccountKeys,
        old(accounts)@.len() >= 2 ==> {
            let outcome = applied(old(accounts)@[1].data@, instruction_data@);
            &&& r is Ok <==> outcome.accepted
            &&& r is Err ==> r->Err_0 == ProgramError::InvalidInstructionData
            &&& final(accounts)@[1].data@ == outcome.buffer
            &&& final(accounts)@[1].is_signer == old(accounts)@[1].is_signer
        },
{
    if accounts.len() < 2 {
        return Err(ProgramError::NotEnoughAccountKeys);
    }
    let to_acc_data = accounts[1].data.as_mut_slice();
    apply_instruction(to_acc_data, instruction_data)
}

} // verus!
