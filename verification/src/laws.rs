//! What holds of the processor whatever the buffer and the instruction.

use crate::data::{
    account_parsed, lemma_messages_encoding_len, messages_encoding, messages_parsed,
    messages_wire_size, AccountMetadataView, ChatInstructionView, MessageView,
};
use crate::processor::{
    applied, buffer_after_receive, can_receive, lemma_renumbered_keeps_shape,
    metadata_after_receive, renumbered,
};
use crate::round_trip::{lemma_messages_round_trip, lemma_metadata_round_trip};
use crate::wire::overwrite;
use vstd::prelude::*;

verus! {

/// An instruction never changes the size of the buffer, and a rejected one
/// leaves every byte as it was.
pub proof fn lemma_rejection_changes_nothing(buffer: Seq<u8>, instruction: Seq<u8>)
    ensures
        applied(buffer, instruction).buffer.len() == buffer.len(),
        !applied(buffer, instruction).accepted ==> applied(buffer, instruction).buffer == buffer,
{
    if AccountMetadataView::fits(buffer) {
        let current = AccountMetadataView::parsed(buffer);
        match ChatInstructionView::parsed(instruction) {
            Some(ChatInstructionView::SendMessages { messages }) => {
                if messages.len() > 0 && can_receive(buffer.len(), current, messages) {
                    let after = metadata_after_receive(current, messages);
                    let stored = renumbered(messages, current.last_message_id);
                    lemma_renumbered_keeps_shape(messages, current.last_message_id);
                    lemma_messages_encoding_len(stored);
                    after.lemma_encoding_len();
                }
            },
            Some(ChatInstructionView::OpenAccount { account_metadata }) => {
                if account_metadata.well_formed() {
                    account_metadata.lemma_encoding_len();
                }
            },
            _ => {},
        }
    }
}

/// Sending an empty list of messages leaves the buffer, and with it the
/// metadata, unchanged; it is accepted wherever the buffer holds metadata.
pub proof fn lemma_empty_send_changes_nothing(
    buffer: Seq<u8>,
    instruction: Seq<u8>,
    messages: Seq<MessageView>,
)
    requires
        ChatInstructionView::parsed(instruction) == Some(
            ChatInstructionView::SendMessages { messages },
        ),
        messages.len() == 0,
    ensures
        applied(buffer, instruction).accepted == AccountMetadataView::fits(buffer),
        applied(buffer, instruction).buffer == buffer,
{
}

/// Deleting removes nothing: the buffer stays as it was. It is accepted
/// wherever the buffer holds metadata.
pub proof fn lemma_delete_changes_nothing(buffer: Seq<u8>, instruction: Seq<u8>)
    requires
        ChatInstructionView::parsed(instruction) is Some,
        ChatInstructionView::parsed(instruction)->0 is DeleteMessages,
    ensures
        applied(buffer, instruction).accepted == AccountMetadataView::fits(buffer),
        applied(buffer, instruction).buffer == buffer,
{
}

/// Stored messages are numbered in order from the account's
/// `last_message_id` on, the first one taking that very id; nothing else of
/// a message changes.
pub proof fn lemma_ids_follow_last_message_id(messages: Seq<MessageView>, first: u32, i: int)
    requires
        0 <= i < messages.len(),
        first + messages.len() - 1 <= u32::MAX,
    ensures
        renumbered(messages, first).len() == messages.len(),
        renumbered(messages, first)[i].id == first + i,
        renumbered(messages, first)[i].from == messages[i].from,
        renumbered(messages, first)[i].msg_size == messages[i].msg_size,
        renumbered(messages, first)[i].msg == messages[i].msg,
{
}

/// Opening an account that is already open is rejected and leaves the
/// buffer byte for byte as it was.
pub proof fn lemma_reopen_rejected(buffer: Seq<u8>, instruction: Seq<u8>)
    requires
        AccountMetadataView::fits(buffer),
        AccountMetadataView::parsed(buffer).initialized != 0,
        ChatInstructionView::parsed(instruction) is Some,
        ChatInstructionView::parsed(instruction)->0 is OpenAccount,
    ensures
        !applied(buffer, instruction).accepted,
        applied(buffer, instruction).buffer == buffer,
{
}

/// Messages that would move the write cursor past the end of the buffer are
/// rejected, and nothing is written.
pub proof fn lemma_send_past_capacity_rejected(
    buffer: Seq<u8>,
    instruction: Seq<u8>,
    messages: Seq<MessageView>,
)
    requires
        AccountMetadataView::fits(buffer),
        ChatInstructionView::parsed(instruction) == Some(
            ChatInstructionView::SendMessages { messages },
        ),
        messages.len() > 0,
        AccountMetadataView::parsed(buffer).next_free_index + messages_wire_size(messages)
            > buffer.len(),
    ensures
        !applied(buffer, instruction).accepted,
        applied(buffer, instruction).buffer == buffer,
{
}

/// Once an unopened account is opened, its buffer decodes to the metadata
/// that the instruction carried; and where that metadata has its write
/// cursor at its own end, as a fresh account does, to an account without
/// messages.
pub proof fn lemma_open_stores_metadata(
    buffer: Seq<u8>,
    instruction: Seq<u8>,
    metadata: AccountMetadataView,
)
    requires
        AccountMetadataView::fits(buffer),
        AccountMetadataView::parsed(buffer).initialized == 0,
        ChatInstructionView::parsed(instruction) == Some(
            ChatInstructionView::OpenAccount { account_metadata: metadata },
        ),
        applied(buffer, instruction).accepted,
    ensures
        AccountMetadataView::fits(applied(buffer, instruction).buffer),
        AccountMetadataView::parsed(applied(buffer, instruction).buffer) == metadata,
        metadata.next_free_index == metadata.wire_size() ==> account_parsed(
            applied(buffer, instruction).buffer,
        ) == Some((metadata, None::<Seq<MessageView>>)),
{
    let after = applied(buffer, instruction).buffer;
    metadata.lemma_encoding_len();
    let tail = buffer.subrange(metadata.wire_size() as int, buffer.len() as int);
    assert(after =~= metadata.encoding() + tail);
    lemma_metadata_round_trip(metadata, tail);
}

/// Where `data` begins with a whole message, so does `data` followed by
/// anything, and it is the same message.
pub proof fn lemma_message_ignores_tail(data: Seq<u8>, tail: Seq<u8>)
    requires
        MessageView::fits(data),
    ensures
        MessageView::fits(data + tail),
        MessageView::parsed(data + tail) == MessageView::parsed(data),
{
    let whole = data + tail;
    assert(whole.subrange(0, 4) =~= data.subrange(0, 4));
    assert(whole.subrange(4, 36) =~= data.subrange(4, 36));
    assert(whole.subrange(36, 40) =~= data.subrange(36, 40));
    let size = MessageView::parsed(data).msg_size;
    assert(whole.subrange(40, 40 + size) =~= data.subrange(40, 40 + size));
}

/// Two runs of messages, one after the other, decode to the two runs joined.
pub proof fn lemma_messages_parsed_concat(first: Seq<u8>, second: Seq<u8>)
    requires
        messages_parsed(first) is Some,
        messages_parsed(second) is Some,
    ensures
        messages_parsed(first + second) == Some(
            messages_parsed(first)->0 + messages_parsed(second)->0,
        ),
    decreases first.len(),
{
    if first.len() == 0 {
        assert(first + second =~= second);
        assert(Seq::<MessageView>::empty() + messages_parsed(second)->0 =~= messages_parsed(
            second,
        )->0);
    } else {
        let head = MessageView::parsed(first);
        let n = head.wire_size() as int;
        let rest = first.subrange(n, first.len() as int);
        let whole = first + second;
        lemma_message_ignores_tail(first, second);
        assert(whole.subrange(n, whole.len() as int) =~= rest + second);
        lemma_messages_parsed_concat(rest, second);
        assert(seq![head] + (messages_parsed(rest)->0 + messages_parsed(second)->0) =~= (seq![
            head,
        ] + messages_parsed(rest)->0) + messages_parsed(second)->0);
    }
}

/// Sending appends: where the buffer holds an account whose messages lie
/// between the end of its metadata and its write cursor, an accepted run of
/// messages leaves a buffer that decodes to the updated metadata and to the
/// old messages followed by the new ones, numbered in order from the old
/// `last_message_id` on.
pub proof fn lemma_send_appends(
    buffer: Seq<u8>,
    stored: Seq<MessageView>,
    messages: Seq<MessageView>,
)
    requires
        AccountMetadataView::fits(buffer),
        AccountMetadataView::parsed(buffer).wire_size() <= AccountMetadataView::parsed(
            buffer,
        ).next_free_index,
        messages.len() > 0,
        can_receive(buffer.len(), AccountMetadataView::parsed(buffer), messages),
        messages_parsed(
            buffer.subrange(
                AccountMetadataView::parsed(buffer).wire_size() as int,
                AccountMetadataView::parsed(buffer).next_free_index as int,
            ),
        ) == Some(stored),
    ensures
        ({
            let before = AccountMetadataView::parsed(buffer);
            let after = buffer_after_receive(buffer, before, messages);
            let metadata = metadata_after_receive(before, messages);
            &&& AccountMetadataView::fits(after)
            &&& AccountMetadataView::parsed(after) == metadata
            &&& metadata.next_free_index == before.next_free_index + messages_wire_size(messages)
            &&& metadata.last_message_id == before.last_message_id + messages.len() - 1
            &&& account_parsed(after) == Some(
                (metadata, Some(stored + renumbered(messages, before.last_message_id))),
            )
        }),
{
    let before = AccountMetadataView::parsed(buffer);
    let metadata = metadata_after_receive(before, messages);
    let added = renumbered(messages, before.last_message_id);
    let start = before.wire_size() as int;
    let cursor = before.next_free_index as int;
    let written = overwrite(buffer, cursor, messages_encoding(added));
    let after = buffer_after_receive(buffer, before, messages);

    lemma_renumbered_keeps_shape(messages, before.last_message_id);
    lemma_messages_encoding_len(added);
    metadata.lemma_encoding_len();

    let tail = written.subrange(start, written.len() as int);
    assert(after =~= metadata.encoding() + tail);
    lemma_metadata_round_trip(metadata, tail);

    let end = cursor + messages_wire_size(messages);
    assert(after.subrange(start, end) =~= buffer.subrange(start, cursor) + messages_encoding(
        added,
    ));
    lemma_messages_round_trip(added);
    lemma_messages_parsed_concat(buffer.subrange(start, cursor), messages_encoding(added));
    assert(messages.last().wire_size() > 0);
}

} // verus!
