//! The chat wire format: messages, account metadata and instructions, each
//! with its exact byte encoding and the decoder that reads it back.
//!
//! All integers are little-endian and fixed-width; text is raw UTF-8 behind a
//! `u32` byte count. Decoding text is lossy: bytes that are not valid UTF-8
//! come back with U+FFFD in place of each malformed sequence.

use crate::wire::{
    lossy_string, overwrite, read_u32, text_of, u32_at, write_bytes, write_u32, U32_SIZE, U8_SIZE,
};
use vstd::bytes::{lemma_auto_spec_u32_to_from_le_bytes, spec_u32_to_le_bytes};
use vstd::prelude::*;
use vstd::slice::slice_subrange;
use vstd::utf8::encode_utf8;

verus! {

/// Number of bytes in an account address.
pub const PUBKEY_BYTES: usize = 32;

/// Size of the smallest message that carries any text.
pub const MINIMUM_MESSAGE_DATA_SIZE: usize = U32_SIZE + PUBKEY_BYTES + U32_SIZE + 1;

/// Size of the smallest open-account instruction that carries a name.
pub const MINIMUM_OPEN_ACCOUNT_DATA_SIZE: usize = (U32_SIZE * 3) + U8_SIZE + 1 + 1;

/// Bytes of a message in front of its text: id, sender and text length.
pub const MESSAGE_HEADER_SIZE: usize = U32_SIZE + PUBKEY_BYTES + U32_SIZE;

/// The one-byte tags that open an encoded instruction.
#[derive(Debug, Clone, Copy, PartialEq, Eq)]
pub enum ChatCommand {
    SendMessages,
    DeleteMessages,
    OpenAccount,
}

impl ChatCommand {
    /// The tag byte of this command on the wire.
    pub open spec fn spec_tag(self) -> u8 {
        match self {
            ChatCommand::SendMessages => 0,
            ChatCommand::DeleteMessages => 1,
            ChatCommand::OpenAccount => 2,
        }
    }

    /// The tag byte of this command on the wire.
    pub fn tag(&self) -> (t: u8)
        ensures
            t == self.spec_tag(),
    {
        match self {
            ChatCommand::SendMessages => 0,
            ChatCommand::DeleteMessages => 1,
            ChatCommand::OpenAccount => 2,
        }
    }

    /// The command that a tag byte stands for, if any.
    pub fn from_tag(tag: u8) -> (c: Option<ChatCommand>)
        ensures
            tag > 2 <==> c is None,
            c is Some ==> c->0.spec_tag() == tag,
    {
        if tag == 0 {
            Some(ChatCommand::SendMessages)
        } else if tag == 1 {
            Some(ChatCommand::DeleteMessages)
        } else if tag == 2 {
            Some(ChatCommand::OpenAccount)
        } else {
            None
        }
    }
}

/// The single failure of the codec: a buffer whose length does not match
/// the value, a field that runs past the end of the input, or an unknown tag.
#[derive(Debug, Clone, Copy, PartialEq, Eq)]
pub struct ChatDeserializationError;

impl ChatDeserializationError {
    /// The text shown for this error.
    pub fn to_string(&self) -> (s: String)
        ensures
            s@ == "can't deserialize data"@,
    {
        "can't deserialize data".to_owned()
    }
}

/// A 32-byte account or program address.
#[derive(Debug, Clone, Copy, PartialEq, Eq)]
pub struct Address {
    pub bytes: [u8; 32],
}

impl View for Address {
    type V = Seq<u8>;

    open spec fn view(&self) -> Seq<u8> {
        self.bytes@
    }
}

impl Address {
    /// The address made of the 32 bytes of `data` from `at` on.
    pub(crate) fn read(data: &[u8], at: usize) -> (a: Address)
        requires
            at + 32 <= data.len(),
        ensures
            a@ == data@.subrange(at as int, at + 32),
    {
        let mut bytes = [0u8;32];
        let mut i: usize = 0;
        while i < 32
            invariant
                i <= 32,
                at + 32 <= data.len(),
                forall|j: int| 0 <= j < i ==> bytes@[j] == data@[at + j],
            decreases 32 - i,
        {
            bytes[i] = data[at + i];
            i += 1;
        }
        assert(bytes@ =~= data@.subrange(at as int, at + 32));
        Address { bytes }
    }
}

impl Default for Address {
    fn default() -> (a: Address)
        ensures
            a@ == Seq::new(32, |i: int| 0u8),
    {
        let a = Address { bytes: [0u8;32] };
        assert(a@ =~= Seq::new(32, |i: int| 0u8));
        a
    }
}

/// What every value of the wire format offers: its size, its encoding into
/// a buffer of exactly that size, and decoding from the front of a buffer.
pub trait ChatData: Sized {
    /// Encoded size, as the value's own length field declares it.
    spec fn wire_size(&self) -> nat;

    /// The length field agrees with the text that it counts.
    spec fn well_formed(&self) -> bool;

    /// The bytes that stand for this value.
    spec fn encoding(&self) -> Seq<u8>;

    /// `data` is long enough to hold a value at its front.
    spec fn fits(data: Seq<u8>) -> bool;

    /// This value is what the front of `data` decodes to.
    spec fn is_parsed_from(&self, data: Seq<u8>) -> bool;

    /// Encoded size in bytes.
    fn size(&self) -> (n: usize)
        requires
            self.wire_size() <= usize::MAX,
        ensures
            n == self.wire_size(),
    ;

    /// Encodes into `data`, which must have exactly `size()` bytes. Fails,
    /// and leaves `data` alone, when the lengths differ or the value is not
    /// well-formed.
    fn serialize(&self, data: &mut [u8]) -> (r: Result<(), ChatDeserializationError>)
        ensures
            r is Ok <==> self.well_formed() && old(data).len() == self.wire_size(),
            r is Ok ==> final(data)@ == self.encoding(),
            r is Err ==> final(data)@ == old(data)@,
    ;

    /// Decodes from the front of `data`, ignoring what follows the value.
    /// Fails, and leaves `self` alone, when `data` ends too early.
    fn deserialize(&mut self, data: &[u8]) -> (r: Result<(), ChatDeserializationError>)
        ensures
            r is Ok <==> Self::fits(data@),
            r is Ok ==> final(self).is_parsed_from(data@),
            r is Err ==> *final(self) == *old(self),
    ;
}

/// One chat entry.
#[derive(Debug, PartialEq)]
pub struct Message {
    /// Sequence number, assigned when the message is stored.
    pub id: u32,
    /// Sender.
    pub from: Address,
    /// Byte length of `msg`.
    pub msg_size: u32,
    /// Text.
    pub msg: String,
}

/// A message as plain values.
pub struct MessageView {
    pub id: u32,
    pub from: Seq<u8>,
    pub msg_size: u32,
    pub msg: Seq<char>,
}

impl MessageView {
    /// The sender has 32 bytes and `msg_size` counts the bytes of the text.
    pub open spec fn well_formed(self) -> bool {
        &&& self.from.len() == 32
        &&& encode_utf8(self.msg).len() == self.msg_size
    }

    /// Encoded size that `msg_size` declares.
    pub open spec fn wire_size(self) -> nat {
        (40 + self.msg_size) as nat
    }

    /// id, sender, text length, text.
    pub open spec fn encoding(self) -> Seq<u8> {
        spec_u32_to_le_bytes(self.id) + self.from + spec_u32_to_le_bytes(self.msg_size)
            + encode_utf8(self.msg)
    }

    /// `data` holds a whole message at its front.
    pub open spec fn fits(data: Seq<u8>) -> bool {
        &&& 40 <= data.len()
        &&& 40 + u32_at(data, 36) <= data.len()
    }

    /// The message at the front of `data`.
    pub open spec fn parsed(data: Seq<u8>) -> MessageView
        recommends
            Self::fits(data),
    {
        MessageView {
            id: u32_at(data, 0),
            from: data.subrange(4, 36),
            msg_size: u32_at(data, 36),
            msg: text_of(data.subrange(40, 40 + u32_at(data, 36))),
        }
    }
}

impl MessageView {
    /// A well-formed message encodes into exactly `wire_size()` bytes.
    pub proof fn lemma_encoding_len(self)
        requires
            self.well_formed(),
        ensures
            self.encoding().len() == self.wire_size(),
    {
        lemma_auto_spec_u32_to_from_le_bytes();
    }
}

impl View for Message {
    type V = MessageView;

    open spec fn view(&self) -> MessageView {
        MessageView { id: self.id, from: self.from@, msg_size: self.msg_size, msg: self.msg@ }
    }
}

impl Message {
    /// A message whose `msg_size` is the byte length of `msg`, cut to 32 bits.
    pub fn new(id: u32, from: Address, msg: String) -> (m: Message)
        ensures
            m.id == id,
            m.from == from,
            m.msg == msg,
            m.msg_size == encode_utf8(msg@).len() % 0x1_0000_0000,
            encode_utf8(msg@).len() <= u32::MAX ==> m@.well_formed(),
    {
        let len: u64 = msg.as_str().as_bytes().len() as u64;
        let low: u64 = len & 0xffff_ffff;
        assert(low == len % 0x1_0000_0000 && low <= 0xffff_ffff) by (bit_vector)
            requires
                low == len & 0xffff_ffff,
        ;
        Message { id, from, msg_size: low as u32, msg }
    }

    /// Whether `msg_size` is the byte length of `msg`.
    pub fn is_well_formed(&self) -> (b: bool)
        ensures
            b == self@.well_formed(),
    {
        self.msg.as_str().as_bytes().len() == self.msg_size as usize
    }

    /// Writes the encoding over `data` from offset `at` on.
    pub(crate) fn write_at(&self, data: &mut [u8], at: usize)
        requires
            self@.well_formed(),
            at + self@.wire_size() <= old(data).len(),
        ensures
            final(data)@ == overwrite(old(data)@, at as int, self@.encoding()),
    {
        proof {
            lemma_auto_spec_u32_to_from_le_bytes();
        }
        write_u32(data, at, self.id);
        write_bytes(data, at + U32_SIZE, self.from.bytes.as_slice());
        write_u32(data, at + U32_SIZE + PUBKEY_BYTES, self.msg_size);
        write_bytes(data, at + MESSAGE_HEADER_SIZE, self.msg.as_str().as_bytes());
        assert(data@ =~= overwrite(old(data)@, at as int, self@.encoding()));
    }
}

impl Default for Message {
    fn default() -> (m: Message)
        ensures
            m.id == 0,
            m.from@ == Seq::new(32, |i: int| 0u8),
            m.msg_size == 0,
            m.msg@ == Seq::<char>::empty(),
    {
        Message { id: 0, from: Address::default(), msg_size: 0, msg: String::new() }
    }
}

impl ChatData for Message {
    open spec fn wire_size(&self) -> nat {
        self@.wire_size()
    }

    open spec fn well_formed(&self) -> bool {
        self@.well_formed()
    }

    open spec fn encoding(&self) -> Seq<u8> {
        self@.encoding()
    }

    open spec fn fits(data: Seq<u8>) -> bool {
        MessageView::fits(data)
    }

    open spec fn is_parsed_from(&self, data: Seq<u8>) -> bool {
        self@ == MessageView::parsed(data)
    }

    fn size(&self) -> (n: usize) {
        U32_SIZE + PUBKEY_BYTES + self.msg_size as usize + U32_SIZE
    }

    fn serialize(&self, data: &mut [u8]) -> (r: Result<(), ChatDeserializationError>) {
        if data.len() < MESSAGE_HEADER_SIZE || data.len() - MESSAGE_HEADER_SIZE
            != self.msg_size as usize || !self.is_well_formed() {
            return Err(ChatDeserializationError);
        }
        self.write_at(data, 0);
        proof {
            self@.lemma_encoding_len();
            assert(data@ =~= self@.encoding());
        }
        Ok(())
    }

    fn deserialize(&mut self, data: &[u8]) -> (r: Result<(), ChatDeserializationError>) {
        if data.len() < MESSAGE_HEADER_SIZE {
            return Err(ChatDeserializationError);
        }
        let msg_size = read_u32(data, U32_SIZE + PUBKEY_BYTES);
        if data.len() - MESSAGE_HEADER_SIZE < msg_size as usize {
            return Err(ChatDeserializationError);
        }
        let id = read_u32(data, 0);
        let from = Address::read(data, U32_SIZE);
        let msg_start = MESSAGE_HEADER_SIZE;
        let msg_end = msg_start + msg_size as usize;
        let msg = lossy_string(slice_subrange(data, msg_start, msg_end));

        self.id = id;
        self.from = from;
        self.msg_size = msg_size;
        self.msg = msg;

        Ok(())
    }
}

/// The messages of a run as plain values.
pub open spec fn message_views(messages: Seq<Message>) -> Seq<MessageView> {
    messages.map_values(|m: Message| m@)
}

/// Every message of the run is well-formed.
pub open spec fn messages_well_formed(messages: Seq<MessageView>) -> bool {
    forall|i: int| 0 <= i < messages.len() ==> (#[trigger] messages[i]).well_formed()
}

/// Sum of the encoded sizes that the messages declare.
pub open spec fn messages_wire_size(messages: Seq<MessageView>) -> nat
    decreases messages.len(),
{
    if messages.len() == 0 {
        0
    } else {
        messages_wire_size(messages.drop_last()) + messages.last().wire_size()
    }
}

/// The encodings of the messages, one after the other.
pub open spec fn messages_encoding(messages: Seq<MessageView>) -> Seq<u8>
    decreases messages.len(),
{
    if messages.len() == 0 {
        Seq::empty()
    } else {
        messages_encoding(messages.drop_last()) + messages.last().encoding()
    }
}

/// The run of messages that fills `data` exactly, if there is one: message
/// after message from the front, until no byte is left.
pub open spec fn messages_parsed(data: Seq<u8>) -> Option<Seq<MessageView>>
    decreases data.len(),
{
    if data.len() == 0 {
        Some(Seq::empty())
    } else if !MessageView::fits(data) {
        None
    } else {
        let first = MessageView::parsed(data);
        match messages_parsed(data.subrange(first.wire_size() as int, data.len() as int)) {
            Some(rest) => Some(seq![first] + rest),
            None => None,
        }
    }
}

/// A prefix of a run declares no more bytes than the whole run.
pub proof fn lemma_wire_size_prefix(messages: Seq<MessageView>, n: int)
    requires
        0 <= n <= messages.len(),
    ensures
        messages_wire_size(messages.take(n)) <= messages_wire_size(messages),
    decreases messages.len(),
{
    if n == messages.len() {
        assert(messages.take(n) =~= messages);
    } else {
        lemma_wire_size_prefix(messages.drop_last(), n);
        assert(messages.drop_last().take(n) =~= messages.take(n));
    }
}

/// A run of well-formed messages encodes into exactly the bytes it declares.
pub proof fn lemma_messages_encoding_len(messages: Seq<MessageView>)
    requires
        messages_well_formed(messages),
    ensures
        messages_encoding(messages).len() == messages_wire_size(messages),
    decreases messages.len(),
{
    if messages.len() > 0 {
        lemma_messages_encoding_len(messages.drop_last());
        messages.last().lemma_encoding_len();
    }
}

/// Total encoded size of `messages` if they are all well-formed and the
/// total is at most `limit`.
pub fn checked_messages_size(messages: &[Message], limit: usize) -> (total: Option<usize>)
    ensures
        total is Some <==> messages_well_formed(message_views(messages@)) && messages_wire_size(
            message_views(messages@),
        ) <= limit,
        total is Some ==> total->0 == messages_wire_size(message_views(messages@)),
{
    let ghost views = message_views(messages@);
    let mut total: usize = 0;
    let mut i: usize = 0;
    while i < messages.len()
        invariant
            i <= messages.len(),
            views == message_views(messages@),
            messages_well_formed(views.take(i as int)),
            total == messages_wire_size(views.take(i as int)),
            total <= limit,
        decreases messages.len() - i,
    {
        let message = &messages[i];
        proof {
            assert(views.take(i + 1).drop_last() =~= views.take(i as int));
            assert(views.take(i + 1).last() == message@);
            lemma_wire_size_prefix(views, i + 1);
        }
        if !message.is_well_formed() {
            assert(!views[i as int].well_formed());
            return None;
        }
        if limit - total < MESSAGE_HEADER_SIZE || limit - total - MESSAGE_HEADER_SIZE
            < message.msg_size as usize {
            return None;
        }
        total = total + MESSAGE_HEADER_SIZE + message.msg_size as usize;
        i += 1;
        assert forall|j: int| 0 <= j < i implies (#[trigger] views.take(i as int)[j]).well_formed() by {
            if j < i - 1 {
                assert(views.take(i as int)[j] == views.take(i - 1)[j]);
            }
        }
    }
    assert(views.take(i as int) =~= views);
    Some(total)
}

/// Writes well-formed `messages` one after the other over `data`, from
/// offset `at` on.
pub(crate) fn write_messages(messages: &[Message], data: &mut [u8], at: usize)
    requires
        messages_well_formed(message_views(messages@)),
        at + messages_wire_size(message_views(messages@)) <= old(data).len(),
    ensures
        final(data)@ == overwrite(
            old(data)@,
            at as int,
            messages_encoding(message_views(messages@)),
        ),
{
    let ghost views = message_views(messages@);
    let mut current_index: usize = at;
    let mut i: usize = 0;
    assert(data@ =~= overwrite(old(data)@, at as int, messages_encoding(views.take(0))));
    while i < messages.len()
        invariant
            i <= messages.len(),
            views == message_views(messages@),
            messages_well_formed(views),
            data.len() == old(data).len(),
            at + messages_wire_size(views) <= data.len(),
            current_index == at + messages_wire_size(views.take(i as int)),
            data@ == overwrite(old(data)@, at as int, messages_encoding(views.take(i as int))),
        decreases messages.len() - i,
    {
        let message = &messages[i];
        proof {
            assert(views.take(i + 1).drop_last() =~= views.take(i as int));
            assert(views.take(i + 1).last() == message@);
            assert(views[i as int].well_formed());
            lemma_wire_size_prefix(views, i + 1);
            assert(messages_well_formed(views.take(i as int)));
            lemma_messages_encoding_len(views.take(i as int));
            message@.lemma_encoding_len();
        }
        message.write_at(data, current_index);
        current_index = current_index + message.size();
        i += 1;
        assert(data@ =~= overwrite(old(data)@, at as int, messages_encoding(views.take(i as int))));
    }
    assert(views.take(i as int) =~= views);
}

/// Decodes the run of messages that fills `data` exactly. An empty `data`
/// holds the empty run. Fails when a message runs past the end of `data`.
pub fn deserialize_messages(data: &[u8]) -> (r: Result<Vec<Message>, ChatDeserializationError>)
    ensures
        r is Ok <==> messages_parsed(data@) is Some,
        r is Ok ==> message_views(r->Ok_0@) == messages_parsed(data@)->0,
        data@.len() == 0 ==> r is Ok && r->Ok_0@.len() == 0,
{
    let mut messages: Vec<Message> = Vec::new();
    let mut start: usize = 0;
    assert(data@.subrange(0, data@.len() as int) =~= data@);
    assert(message_views(messages@) =~= Seq::empty());
    while start < data.len()
        invariant
            start <= data.len(),
            start == 0 ==> messages@.len() == 0,
            messages_parsed(data@) == (match messages_parsed(
                data@.subrange(start as int, data@.len() as int),
            ) {
                Some(rest) => Some(message_views(messages@) + rest),
                None => None,
            }),
        decreases data.len() - start,
    {
        let ghost rest = data@.subrange(start as int, data@.len() as int);
        let ghost views = message_views(messages@);
        let mut msg = Message::default();
        if msg.deserialize(slice_subrange(data, start, data.len())).is_err() {
            return Err(ChatDeserializationError);
        }
        let size = msg.size();
        proof {
            let first = MessageView::parsed(rest);
            assert(msg@ == first);
            assert(rest.subrange(size as int, rest.len() as int) =~= data@.subrange(
                start + size,
                data@.len() as int,
            ));
            assert(message_views(messages@.push(msg)) =~= views.push(first));
            assert forall|tail: Seq<MessageView>|
                views + (seq![first] + tail) == #[trigger] (views.push(first) + tail) by {
                assert(views + (seq![first] + tail) =~= views.push(first) + tail);
            }
        }
        messages.push(msg);
        start += size;
    }
    assert(message_views(messages@) + Seq::empty() =~= message_views(messages@));
    Ok(messages)
}

/// Encodes `messages` one after the other over the front of `data`; bytes
/// of `data` past the run stay as they are. Fails, and leaves `data` alone,
/// when a message is not well-formed or the run does not fit.
pub fn serialize_messages(messages: &[Message], data: &mut [u8]) -> (r: Result<
    (),
    ChatDeserializationError,
>)
    ensures
        r is Ok <==> messages_well_formed(message_views(messages@)) && messages_wire_size(
            message_views(messages@),
        ) <= old(data).len(),
        r is Ok ==> final(data)@ == overwrite(
            old(data)@,
            0,
            messages_encoding(message_views(messages@)),
        ),
        r is Err ==> final(data)@ == old(data)@,
{
    if checked_messages_size(messages, data.len()).is_none() {
        return Err(ChatDeserializationError);
    }
    write_messages(messages, data, 0);
    Ok(())
}

/// Bytes of account metadata in front of the name: the flag and three `u32`s.
pub const ACCOUNT_METADATA_BASE_SIZE: usize = (U32_SIZE * 3) + U8_SIZE;

/// The header that every account buffer starts with.
#[derive(Debug, PartialEq)]
pub struct AccountMetadata {
    /// 0 while the account is unopened, anything else once it is open.
    pub initialized: u8,
    /// Offset just past the last stored message; the next one goes here.
    pub next_free_index: u32,
    /// Highest message id handed out so far.
    pub last_message_id: u32,
    /// Byte length of `account_name`.
    pub account_name_len: u32,
    /// Name of the account.
    pub account_name: String,
}

/// Account metadata as plain values.
pub struct AccountMetadataView {
    pub initialized: u8,
    pub next_free_index: u32,
    pub last_message_id: u32,
    pub account_name_len: u32,
    pub account_name: Seq<char>,
}

impl AccountMetadataView {
    /// `account_name_len` counts the bytes of the name.
    pub open spec fn well_formed(self) -> bool {
        encode_utf8(self.account_name).len() == self.account_name_len
    }

    /// Encoded size that `account_name_len` declares.
    pub open spec fn wire_size(self) -> nat {
        (13 + self.account_name_len) as nat
    }

    /// flag, write cursor, last id, name length, name.
    pub open spec fn encoding(self) -> Seq<u8> {
        seq![self.initialized] + spec_u32_to_le_bytes(self.next_free_index) + spec_u32_to_le_bytes(
            self.last_message_id,
        ) + spec_u32_to_le_bytes(self.account_name_len) + encode_utf8(self.account_name)
    }

    /// `data` holds whole metadata at its front.
    pub open spec fn fits(data: Seq<u8>) -> bool {
        &&& 13 <= data.len()
        &&& 13 + u32_at(data, 9) <= data.len()
    }

    /// The metadata at the front of `data`.
    pub open spec fn parsed(data: Seq<u8>) -> AccountMetadataView
        recommends
            Self::fits(data),
    {
        AccountMetadataView {
            initialized: data[0],
            next_free_index: u32_at(data, 1),
            last_message_id: u32_at(data, 5),
            account_name_len: u32_at(data, 9),
            account_name: text_of(data.subrange(13, 13 + u32_at(data, 9))),
        }
    }
}

impl AccountMetadataView {
    /// Well-formed metadata encodes into exactly `wire_size()` bytes.
    pub proof fn lemma_encoding_len(self)
        requires
            self.well_formed(),
        ensures
            self.encoding().len() == self.wire_size(),
    {
        lemma_auto_spec_u32_to_from_le_bytes();
    }
}

impl View for AccountMetadata {
    type V = AccountMetadataView;

    open spec fn view(&self) -> AccountMetadataView {
        AccountMetadataView {
            initialized: self.initialized,
            next_free_index: self.next_free_index,
            last_message_id: self.last_message_id,
            account_name_len: self.account_name_len,
            account_name: self.account_name@,
        }
    }
}

impl AccountMetadata {
    /// Metadata of a freshly opened account called `account_name`: no
    /// message yet, and the write cursor just past the metadata itself.
    /// Both lengths are cut to 32 bits.
    pub fn new(account_name: &str) -> (a: Self)
        ensures
            a.initialized == 1,
            a.last_message_id == 0,
            a.account_name@ == account_name@,
            a.account_name_len == encode_utf8(account_name@).len() % 0x1_0000_0000,
            a.next_free_index == (13 + a.account_name_len) % 0x1_0000_0000,
            encode_utf8(account_name@).len() <= u32::MAX ==> a@.well_formed(),
            13 + encode_utf8(account_name@).len() <= u32::MAX ==> a.next_free_index
                == a@.wire_size(),
    {
        let name = account_name.to_owned();
        let len: u64 = account_name.as_bytes().len() as u64;
        let low: u64 = len & 0xffff_ffff;
        assert(low == len % 0x1_0000_0000 && low <= 0xffff_ffff) by (bit_vector)
            requires
                low == len & 0xffff_ffff,
        ;
        let end: u64 = low + 13;
        let cursor: u64 = end & 0xffff_ffff;
        assert(cursor == end % 0x1_0000_0000 && cursor <= 0xffff_ffff) by (bit_vector)
            requires
                cursor == end & 0xffff_ffff,
        ;
        AccountMetadata {
            initialized: 1,
            next_free_index: cursor as u32,
            last_message_id: 0,
            account_name_len: low as u32,
            account_name: name,
        }
    }

    /// Encoded size of the metadata at the front of `data`, read from its
    /// name-length field.
    pub fn calculate_size_from_buffer(data: &[u8]) -> (n: usize)
        requires
            13 <= data.len(),
            13 + u32_at(data@, 9) <= usize::MAX,
        ensures
            n == 13 + u32_at(data@, 9),
    {
        let account_name_len_offset = U8_SIZE + (2 * U32_SIZE);
        let account_name_len = read_u32(data, account_name_len_offset);
        ACCOUNT_METADATA_BASE_SIZE + account_name_len as usize
    }

    /// Whether `account_name_len` is the byte length of `account_name`.
    pub fn is_well_formed(&self) -> (b: bool)
        ensures
            b == self@.well_formed(),
    {
        self.account_name.as_str().as_bytes().len() == self.account_name_len as usize
    }

    /// Writes the encoding over `data` from offset `at` on.
    pub(crate) fn write_at(&self, data: &mut [u8], at: usize)
        requires
            self@.well_formed(),
            at + self@.wire_size() <= old(data).len(),
        ensures
            final(data)@ == overwrite(old(data)@, at as int, self@.encoding()),
    {
        proof {
            lemma_auto_spec_u32_to_from_le_bytes();
        }
        data[at] = self.initialized;
        write_u32(data, at + U8_SIZE, self.next_free_index);
        write_u32(data, at + U8_SIZE + U32_SIZE, self.last_message_id);
        write_u32(data, at + U8_SIZE + 2 * U32_SIZE, self.account_name_len);
        write_bytes(
            data,
            at + ACCOUNT_METADATA_BASE_SIZE,
            self.account_name.as_str().as_bytes(),
        );
        assert(data@ =~= overwrite(old(data)@, at as int, self@.encoding()));
    }
}

impl Default for AccountMetadata {
    fn default() -> (a: AccountMetadata)
        ensures
            a.initialized == 0,
            a.next_free_index == 0,
            a.last_message_id == 0,
            a.account_name_len == 0,
            a.account_name@ == Seq::<char>::empty(),
    {
        AccountMetadata {
            initialized: 0,
            next_free_index: 0,
            last_message_id: 0,
            account_name_len: 0,
            account_name: String::new(),
        }
    }
}

impl ChatData for AccountMetadata {
    open spec fn wire_size(&self) -> nat {
        self@.wire_size()
    }

    open spec fn well_formed(&self) -> bool {
        self@.well_formed()
    }

    open spec fn encoding(&self) -> Seq<u8> {
        self@.encoding()
    }

    open spec fn fits(data: Seq<u8>) -> bool {
        AccountMetadataView::fits(data)
    }

    open spec fn is_parsed_from(&self, data: Seq<u8>) -> bool {
        self@ == AccountMetadataView::parsed(data)
    }

    fn size(&self) -> (n: usize) {
        ACCOUNT_METADATA_BASE_SIZE + self.account_name_len as usize
    }

    fn serialize(&self, data: &mut [u8]) -> (r: Result<(), ChatDeserializationError>) {
        if data.len() < ACCOUNT_METADATA_BASE_SIZE || data.len() - ACCOUNT_METADATA_BASE_SIZE
            != self.account_name_len as usize || !self.is_well_formed() {
            return Err(ChatDeserializationError);
        }
        self.write_at(data, 0);
        proof {
            self@.lemma_encoding_len();
            assert(data@ =~= self@.encoding());
        }
        Ok(())
    }

    fn deserialize(&mut self, data: &[u8]) -> (r: Result<(), ChatDeserializationError>) {
        if data.len() < ACCOUNT_METADATA_BASE_SIZE {
            return Err(ChatDeserializationError);
        }
        let account_name_len = read_u32(data, (U32_SIZE * 2) + U8_SIZE);
        if data.len() - ACCOUNT_METADATA_BASE_SIZE < account_name_len as usize {
            return Err(ChatDeserializationError);
        }
        let initialized = data[0];
        let next_free_index = read_u32(data, U8_SIZE);
        let last_message_id = read_u32(data, U32_SIZE + U8_SIZE);
        let account_name = lossy_string(
            slice_subrange(
                data,
                ACCOUNT_METADATA_BASE_SIZE,
                ACCOUNT_METADATA_BASE_SIZE + account_name_len as usize,
            ),
        );

        self.initialized = initialized;
        self.next_free_index = next_free_index;
        self.last_message_id = last_message_id;
        self.account_name_len = account_name_len;
        self.account_name = account_name;

        Ok(())
    }
}

/// A request to change an account: a tag byte and what the tag calls for.
#[derive(Debug, PartialEq)]
pub enum ChatInstruction {
    SendMessages { messages: Vec<Message> },
    DeleteMessages { id: u32 },
    OpenAccount { account_metadata: AccountMetadata },
}

/// An instruction as plain values.
pub enum ChatInstructionView {
    SendMessages { messages: Seq<MessageView> },
    DeleteMessages { id: u32 },
    OpenAccount { account_metadata: AccountMetadataView },
}

impl ChatInstructionView {
    /// Everything inside the instruction is well-formed.
    pub open spec fn well_formed(self) -> bool {
        match self {
            ChatInstructionView::SendMessages { messages } => messages_well_formed(messages),
            ChatInstructionView::DeleteMessages { id } => true,
            ChatInstructionView::OpenAccount { account_metadata } => account_metadata.well_formed(),
        }
    }

    /// The command that the instruction carries out.
    pub open spec fn command(self) -> ChatCommand {
        match self {
            ChatInstructionView::SendMessages { messages } => ChatCommand::SendMessages,
            ChatInstructionView::DeleteMessages { id } => ChatCommand::DeleteMessages,
            ChatInstructionView::OpenAccount { account_metadata } => ChatCommand::OpenAccount,
        }
    }

    /// What follows the tag byte.
    pub open spec fn payload(self) -> Seq<u8> {
        match self {
            ChatInstructionView::SendMessages { messages } => messages_encoding(messages),
            ChatInstructionView::DeleteMessages { id } => spec_u32_to_le_bytes(id),
            ChatInstructionView::OpenAccount { account_metadata } => account_metadata.encoding(),
        }
    }

    /// Encoded size that the length fields declare: the tag and the payload.
    pub open spec fn wire_size(self) -> nat {
        match self {
            ChatInstructionView::SendMessages { messages } => 1 + messages_wire_size(messages),
            ChatInstructionView::DeleteMessages { id } => 5,
            ChatInstructionView::OpenAccount { account_metadata } => 1
                + account_metadata.wire_size(),
        }
    }

    /// The tag byte, then the payload.
    pub open spec fn encoding(self) -> Seq<u8> {
        seq![self.command().spec_tag()] + self.payload()
    }

    /// The instruction that `data` holds, if it holds one. Messages must
    /// fill the payload exactly; an id or metadata may be followed by more.
    pub open spec fn parsed(data: Seq<u8>) -> Option<ChatInstructionView> {
        if data.len() == 0 {
            None
        } else {
            let rest = data.subrange(1, data.len() as int);
            if data[0] == 0 {
                match messages_parsed(rest) {
                    Some(messages) => Some(ChatInstructionView::SendMessages { messages }),
                    None => None,
                }
            } else if data[0] == 1 {
                if rest.len() >= 4 {
                    Some(ChatInstructionView::DeleteMessages { id: u32_at(rest, 0) })
                } else {
                    None
                }
            } else if data[0] == 2 {
                if AccountMetadataView::fits(rest) {
                    Some(
                        ChatInstructionView::OpenAccount {
                            account_metadata: AccountMetadataView::parsed(rest),
                        },
                    )
                } else {
                    None
                }
            } else {
                None
            }
        }
    }
}

impl View for ChatInstruction {
    type V = ChatInstructionView;

    open spec fn view(&self) -> ChatInstructionView {
        match self {
            ChatInstruction::SendMessages { messages } => ChatInstructionView::SendMessages {
                messages: message_views(messages@),
            },
            ChatInstruction::DeleteMessages { id } => ChatInstructionView::DeleteMessages {
                id: *id,
            },
            ChatInstruction::OpenAccount { account_metadata } => ChatInstructionView::OpenAccount {
                account_metadata: account_metadata@,
            },
        }
    }
}

impl ChatInstruction {
    /// Encoded size in bytes: the tag and the payload.
    pub fn size(&self) -> (n: usize)
        requires
            self@.wire_size() <= usize::MAX,
        ensures
            n == self@.wire_size(),
    {
        U8_SIZE + match self {
            ChatInstruction::SendMessages { messages } => {
                let ghost views = message_views(messages@);
                let mut total: usize = 0;
                let mut i: usize = 0;
                while i < messages.len()
                    invariant
                        i <= messages.len(),
                        views == message_views(messages@),
                        1 + messages_wire_size(views) <= usize::MAX,
                        total == messages_wire_size(views.take(i as int)),
                    decreases messages.len() - i,
                {
                    proof {
                        assert(views.take(i + 1).drop_last() =~= views.take(i as int));
                        assert(views.take(i + 1).last() == messages[i as int]@);
                        lemma_wire_size_prefix(views, i + 1);
                    }
                    total = total + messages[i].size();
                    i += 1;
                }
                assert(views.take(i as int) =~= views);
                total
            },
            ChatInstruction::DeleteMessages { id: _ } => U32_SIZE,
            ChatInstruction::OpenAccount { account_metadata } => account_metadata.size(),
        }
    }

    /// Encodes into `data`, which must have exactly `size()` bytes. Fails,
    /// and leaves `data` alone, when the lengths differ or the instruction
    /// is not well-formed.
    pub fn serialize(&self, data: &mut [u8]) -> (r: Result<(), ChatDeserializationError>)
        ensures
            r is Ok <==> self@.well_formed() && old(data).len() == self@.wire_size(),
            r is Ok ==> final(data)@ == self@.encoding(),
            r is Err ==> final(data)@ == old(data)@,
    {
        if data.len() < U8_SIZE {
            return Err(ChatDeserializationError);
        }
        let room = data.len() - U8_SIZE;
        match self {
            ChatInstruction::SendMessages { messages } => {
                let total = checked_messages_size(messages.as_slice(), room);
                if total.is_none() || total.unwrap() != room {
                    return Err(ChatDeserializationError);
                }
                data[0] = ChatCommand::SendMessages.tag();
                write_messages(messages.as_slice(), data, U8_SIZE);
                proof {
                    lemma_messages_encoding_len(message_views(messages@));
                    assert(data@ =~= self@.encoding());
                }
                Ok(())
            },
            ChatInstruction::DeleteMessages { id } => {
                if room != U32_SIZE {
                    return Err(ChatDeserializationError);
                }
                data[0] = ChatCommand::DeleteMessages.tag();
                write_u32(data, U8_SIZE, *id);
                proof {
                    lemma_auto_spec_u32_to_from_le_bytes();
                    assert(data@ =~= self@.encoding());
                }
                Ok(())
            },
            ChatInstruction::OpenAccount { account_metadata } => {
                if room < ACCOUNT_METADATA_BASE_SIZE || room - ACCOUNT_METADATA_BASE_SIZE
                    != account_metadata.account_name_len as usize
                    || !account_metadata.is_well_formed() {
                    return Err(ChatDeserializationError);
                }
                data[0] = ChatCommand::OpenAccount.tag();
                account_metadata.write_at(data, U8_SIZE);
                proof {
                    account_metadata@.lemma_encoding_len();
                    assert(data@ =~= self@.encoding());
                }
                Ok(())
            },
        }
    }

    /// Decodes the instruction that `data` holds. Fails on empty input, on
    /// an unknown tag, and when the payload ends too early.
    pub fn deserialize(data: &[u8]) -> (r: Result<Self, ChatDeserializationError>)
        ensures
            r is Ok <==> ChatInstructionView::parsed(data@) is Some,
            r is Ok ==> r->Ok_0@ == ChatInstructionView::parsed(data@)->0,
    {
        if data.len() == 0 {
            return Err(ChatDeserializationError);
        }
        let tag = data[0];
        let rest = slice_subrange(data, U8_SIZE, data.len());
        match ChatCommand::from_tag(tag) {
            Some(ChatCommand::SendMessages) => {
                match deserialize_messages(rest) {
                    Ok(messages) => Ok(ChatInstruction::SendMessages { messages }),
                    Err(e) => Err(e),
                }
            },
            Some(ChatCommand::DeleteMessages) => {
                if rest.len() < U32_SIZE {
                    return Err(ChatDeserializationError);
                }
                Ok(ChatInstruction::DeleteMessages { id: read_u32(rest, 0) })
            },
            Some(ChatCommand::OpenAccount) => {
                let mut account_metadata = AccountMetadata::default();
                match account_metadata.deserialize(rest) {
                    Ok(()) => Ok(ChatInstruction::OpenAccount { account_metadata }),
                    Err(e) => Err(e),
                }
            },
            None => Err(ChatDeserializationError),
        }
    }
}

/// What an account buffer holds: its metadata and, where the write cursor
/// lies past the metadata, the messages between the two. No value where the
/// metadata or a message ends too early, or the cursor lies past the buffer.
pub open spec fn account_parsed(data: Seq<u8>) -> Option<
    (AccountMetadataView, Option<Seq<MessageView>>),
> {
    if !AccountMetadataView::fits(data) {
        None
    } else {
        let metadata = AccountMetadataView::parsed(data);
        let log_start = metadata.wire_size() as int;
        let log_end = metadata.next_free_index as int;
        if log_end <= log_start {
            Some((metadata, None))
        } else if log_end > data.len() {
            None
        } else {
            match messages_parsed(data.subrange(log_start, log_end)) {
                Some(messages) => Some((metadata, Some(messages))),
                None => None,
            }
        }
    }
}

/// Decoded account contents as plain values.
pub open spec fn account_views(account: (AccountMetadata, Option<Vec<Message>>)) -> (
    AccountMetadataView,
    Option<Seq<MessageView>>,
) {
    let (metadata, messages) = account;
    (
        metadata@,
        match messages {
            Some(messages) => Some(message_views(messages@)),
            None => None,
        },
    )
}

/// Decodes an account buffer into its metadata and its messages.
pub fn deserialize_account_data(data: &[u8]) -> (r: Result<
    (AccountMetadata, Option<Vec<Message>>),
    ChatDeserializationError,
>)
    ensures
        r is Ok <==> account_parsed(data@) is Some,
        r is Ok ==> account_views(r->Ok_0) == account_parsed(data@)->0,
{
    let mut account_metadata = AccountMetadata::default();
    if account_metadata.deserialize(data).is_err() {
        return Err(ChatDeserializationError);
    }
    let account_metadata_size = AccountMetadata::calculate_size_from_buffer(data);
    let next_free_index = account_metadata.next_free_index as usize;
    if next_free_index > account_metadata_size {
        if next_free_index > data.len() {
            return Err(ChatDeserializationError);
        }
        match deserialize_messages(slice_subrange(data, account_metadata_size, next_free_index)) {
            Ok(messages) => Ok((account_metadata, Some(messages))),
            Err(e) => Err(e),
        }
    } else {
        Ok((account_metadata, None))
    }
}

} // verus!
