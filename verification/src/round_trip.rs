//! Decoding undoes encoding: every well-formed value of the wire format is
//! read back from its own bytes unchanged.

use crate::data::{
    messages_encoding, messages_parsed, messages_well_formed, AccountMetadataView,
    ChatInstructionView, MessageView,
};
use crate::wire::{text_of, u32_at};
use vstd::bytes::{lemma_auto_spec_u32_to_from_le_bytes, spec_u32_to_le_bytes};
use vstd::prelude::*;
use vstd::utf8::{encode_utf8, encode_utf8_decode_utf8, encode_utf8_valid_utf8};

verus! {

/// Text that was encoded as UTF-8 decodes to itself.
pub proof fn lemma_text_round_trip(text: Seq<char>)
    ensures
        text_of(encode_utf8(text)) == text,
{
    encode_utf8_valid_utf8(text);
    encode_utf8_decode_utf8(text);
}

/// A `u32` is read back from where its four bytes lie in a buffer.
pub proof fn lemma_u32_round_trip(before: Seq<u8>, x: u32, after: Seq<u8>)
    ensures
        u32_at(before + spec_u32_to_le_bytes(x) + after, before.len() as int) == x,
{
    lemma_auto_spec_u32_to_from_le_bytes();
    let data = before + spec_u32_to_le_bytes(x) + after;
    assert(data.subrange(before.len() as int, before.len() as int + 4) =~= spec_u32_to_le_bytes(x));
}

/// A well-formed message is read back from its encoding, whatever bytes
/// follow it.
pub proof fn lemma_message_round_trip(message: MessageView, tail: Seq<u8>)
    requires
        message.well_formed(),
    ensures
        MessageView::fits(message.encoding() + tail),
        MessageView::parsed(message.encoding() + tail) == message,
{
    lemma_auto_spec_u32_to_from_le_bytes();
    let id = spec_u32_to_le_bytes(message.id);
    let size = spec_u32_to_le_bytes(message.msg_size);
    let text = encode_utf8(message.msg);
    let data = message.encoding() + tail;
    assert(data =~= Seq::<u8>::empty() + id + (message.from + size + text + tail));
    lemma_u32_round_trip(Seq::empty(), message.id, message.from + size + text + tail);
    assert(data =~= (id + message.from) + size + (text + tail));
    lemma_u32_round_trip(id + message.from, message.msg_size, text + tail);
    assert(data.subrange(4, 36) =~= message.from);
    assert(data.subrange(40, 40 + message.msg_size) =~= text);
    lemma_text_round_trip(message.msg);
}

/// Well-formed account metadata is read back from its encoding, whatever
/// bytes follow it.
pub proof fn lemma_metadata_round_trip(metadata: AccountMetadataView, tail: Seq<u8>)
    requires
        metadata.well_formed(),
    ensures
        AccountMetadataView::fits(metadata.encoding() + tail),
        AccountMetadataView::parsed(metadata.encoding() + tail) == metadata,
{
    lemma_auto_spec_u32_to_from_le_bytes();
    let flag = seq![metadata.initialized];
    let cursor = spec_u32_to_le_bytes(metadata.next_free_index);
    let last = spec_u32_to_le_bytes(metadata.last_message_id);
    let len = spec_u32_to_le_bytes(metadata.account_name_len);
    let name = encode_utf8(metadata.account_name);
    let data = metadata.encoding() + tail;
    assert(data =~= flag + cursor + (last + len + name + tail));
    lemma_u32_round_trip(flag, metadata.next_free_index, last + len + name + tail);
    assert(data =~= (flag + cursor) + last + (len + name + tail));
    lemma_u32_round_trip(flag + cursor, metadata.last_message_id, len + name + tail);
    assert(data =~= (flag + cursor + last) + len + (name + tail));
    lemma_u32_round_trip(flag + cursor + last, metadata.account_name_len, name + tail);
    assert(data.subrange(13, 13 + metadata.account_name_len) =~= name);
    lemma_text_round_trip(metadata.account_name);
}

/// The encoding of a run starts with the encoding of its first message.
pub proof fn lemma_messages_encoding_first(messages: Seq<MessageView>)
    requires
        messages.len() > 0,
    ensures
        messages_encoding(messages) == messages.first().encoding() + messages_encoding(
            messages.drop_first(),
        ),
    decreases messages.len(),
{
    if messages.len() == 1 {
        assert(messages.drop_last() =~= Seq::empty());
        assert(messages.drop_first() =~= Seq::empty());
        assert(messages_encoding(messages) =~= messages.first().encoding() + messages_encoding(
            messages.drop_first(),
        ));
    } else {
        lemma_messages_encoding_first(messages.drop_last());
        assert(messages.drop_last().drop_first() =~= messages.drop_first().drop_last());
        assert(messages.drop_last().first() == messages.first());
        assert(messages.drop_first().last() == messages.last());
        assert(messages_encoding(messages) =~= messages.first().encoding() + messages_encoding(
            messages.drop_first(),
        ));
    }
}

/// A run of well-formed messages is read back from its encoding.
pub proof fn lemma_messages_round_trip(messages: Seq<MessageView>)
    requires
        messages_well_formed(messages),
    ensures
        messages_parsed(messages_encoding(messages)) == Some(messages),
    decreases messages.len(),
{
    if messages.len() == 0 {
        assert(messages =~= Seq::empty());
    } else {
        let first = messages.first();
        let rest = messages.drop_first();
        let data = messages_encoding(messages);
        lemma_messages_encoding_first(messages);
        assert(first.well_formed());
        assert(messages_well_formed(rest)) by {
            assert forall|i: int| 0 <= i < rest.len() implies (#[trigger] rest[i]).well_formed() by {
                assert(rest[i] == messages[i + 1]);
            }
        }
        lemma_message_round_trip(first, messages_encoding(rest));
        first.lemma_encoding_len();
        assert(data.subrange(first.wire_size() as int, data.len() as int) =~= messages_encoding(
            rest,
        ));
        lemma_messages_round_trip(rest);
        assert(seq![first] + rest =~= messages);
    }
}

/// A well-formed instruction is read back from its encoding.
pub proof fn lemma_instruction_round_trip(instruction: ChatInstructionView)
    requires
        instruction.well_formed(),
    ensures
        ChatInstructionView::parsed(instruction.encoding()) == Some(instruction),
{
    let data = instruction.encoding();
    let rest = data.subrange(1, data.len() as int);
    assert(rest =~= instruction.payload());
    match instruction {
        ChatInstructionView::SendMessages { messages } => {
            lemma_messages_round_trip(messages);
        },
        ChatInstructionView::DeleteMessages { id } => {
            lemma_auto_spec_u32_to_from_le_bytes();
            lemma_u32_round_trip(Seq::empty(), id, Seq::empty());
            assert(rest =~= Seq::<u8>::empty() + spec_u32_to_le_bytes(id) + Seq::<u8>::empty());
        },
        ChatInstructionView::OpenAccount { account_metadata } => {
            lemma_metadata_round_trip(account_metadata, Seq::empty());
            assert(rest =~= account_metadata.encoding() + Seq::<u8>::empty());
        },
    }
}

} // verus!
