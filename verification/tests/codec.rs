use chat_program::data::{
    deserialize_account_data, deserialize_messages, serialize_messages, AccountMetadata, Address,
    ChatCommand, ChatData, ChatDeserializationError, ChatInstruction, Message,
    MINIMUM_MESSAGE_DATA_SIZE, MINIMUM_OPEN_ACCOUNT_DATA_SIZE,
};

fn sender() -> Address {
    let mut bytes = [0u8; 32];
    for (i, b) in bytes.iter_mut().enumerate() {
        *b = (i + 1) as u8;
    }
    Address { bytes }
}

fn encoded_message(id: u32, text: &[u8]) -> Vec<u8> {
    let mut bytes = Vec::new();
    bytes.extend_from_slice(&id.to_le_bytes());
    bytes.extend_from_slice(&sender().bytes);
    bytes.extend_from_slice(&(text.len() as u32).to_le_bytes());
    bytes.extend_from_slice(text);
    bytes
}

#[test]
fn message_encoding_is_byte_exact() {
    let message = Message::new(0x0102_0304, sender(), "hi".to_string());
    assert_eq!(message.msg_size, 2);
    assert_eq!(message.size(), 42);
    let mut data = vec![0xaa; 42];
    assert!(message.serialize(&mut data).is_ok());
    let mut expected = vec![4, 3, 2, 1];
    expected.extend_from_slice(&sender().bytes);
    expected.extend_from_slice(&[2, 0, 0, 0]);
    expected.extend_from_slice(b"hi");
    assert_eq!(data, expected);
}

#[test]
fn message_new_counts_bytes_not_characters() {
    let message = Message::new(7, sender(), "h\u{e9}llo".to_string());
    assert_eq!(message.id, 7);
    assert_eq!(message.from, sender());
    assert_eq!(message.msg, "h\u{e9}llo");
    assert_eq!(message.msg_size, 6);
    assert_eq!(message.size(), 46);
    assert!(message.is_well_formed());
}

#[test]
fn message_with_non_ascii_text_round_trips() {
    let message = Message::new(3, sender(), "\u{4f60}\u{597d}, \u{1f600}!".to_string());
    let mut data = vec![0; message.size()];
    assert!(message.serialize(&mut data).is_ok());
    let mut decoded = Message::default();
    assert!(decoded.deserialize(&data).is_ok());
    assert_eq!(decoded, message);
}

#[test]
fn message_serialize_rejects_a_buffer_of_another_length() {
    let message = Message::new(1, sender(), "abc".to_string());
    let mut short = vec![9u8; 42];
    assert!(message.serialize(&mut short).is_err());
    assert_eq!(short, vec![9u8; 42]);
    let mut long = vec![9u8; 44];
    assert!(message.serialize(&mut long).is_err());
    assert_eq!(long, vec![9u8; 44]);
    let mut empty: Vec<u8> = Vec::new();
    assert!(message.serialize(&mut empty).is_err());
}

#[test]
fn message_serialize_rejects_a_wrong_length_field() {
    let message = Message { id: 1, from: sender(), msg_size: 5, msg: "abc".to_string() };
    assert!(!message.is_well_formed());
    let mut data = vec![9u8; 45];
    assert!(message.serialize(&mut data).is_err());
    assert_eq!(data, vec![9u8; 45]);
    let mut data = vec![9u8; 43];
    assert!(message.serialize(&mut data).is_err());
    assert_eq!(data, vec![9u8; 43]);
}

#[test]
fn message_deserialize_rejects_truncated_input() {
    let bytes = encoded_message(5, b"hello");
    let untouched = Message::new(9, sender(), "keep".to_string());
    for len in 0..bytes.len() {
        let mut message = Message::new(9, sender(), "keep".to_string());
        assert!(message.deserialize(&bytes[..len]).is_err(), "length {}", len);
        assert_eq!(message, untouched);
    }
    let mut message = Message::default();
    assert!(message.deserialize(&bytes).is_ok());
    assert_eq!(message, Message::new(5, sender(), "hello".to_string()));
}

#[test]
fn message_deserialize_ignores_what_follows() {
    let mut bytes = encoded_message(5, b"hello");
    bytes.extend_from_slice(&[1, 2, 3]);
    let mut message = Message::default();
    assert!(message.deserialize(&bytes).is_ok());
    assert_eq!(message, Message::new(5, sender(), "hello".to_string()));
}

#[test]
fn message_text_is_decoded_lossily() {
    let bytes = encoded_message(1, &[b'a', 0xff, b'b']);
    let mut message = Message::default();
    assert!(message.deserialize(&bytes).is_ok());
    assert_eq!(message.msg, "a\u{fffd}b");
    assert_eq!(message.msg_size, 3);
    assert!(!message.is_well_formed());
}

#[test]
fn default_message_is_empty() {
    let message = Message::default();
    assert_eq!(message.id, 0);
    assert_eq!(message.from, Address { bytes: [0u8; 32] });
    assert_eq!(message.from, Address::default());
    assert_eq!(message.msg_size, 0);
    assert_eq!(message.msg, "");
    assert_eq!(message.size(), 40);
}

#[test]
fn metadata_encoding_is_byte_exact() {
    let metadata = AccountMetadata {
        initialized: 1,
        next_free_index: 0x0a0b_0c0d,
        last_message_id: 258,
        account_name_len: 5,
        account_name: "alice".to_string(),
    };
    assert_eq!(metadata.size(), 18);
    let mut data = vec![0xaa; 18];
    assert!(metadata.serialize(&mut data).is_ok());
    assert_eq!(
        data,
        vec![1, 0x0d, 0x0c, 0x0b, 0x0a, 2, 1, 0, 0, 5, 0, 0, 0, b'a', b'l', b'i', b'c', b'e']
    );
}

#[test]
fn new_metadata_points_past_itself() {
    let metadata = AccountMetadata::new("alice");
    assert_eq!(metadata.initialized, 1);
    assert_eq!(metadata.next_free_index, 18);
    assert_eq!(metadata.last_message_id, 0);
    assert_eq!(metadata.account_name_len, 5);
    assert_eq!(metadata.account_name, "alice");
    assert_eq!(metadata.size(), 18);
    assert!(metadata.is_well_formed());

    let unnamed = AccountMetadata::new("");
    assert_eq!(unnamed.next_free_index, 13);
    assert_eq!(unnamed.account_name_len, 0);
}

#[test]
fn default_metadata_is_unopened() {
    let metadata = AccountMetadata::default();
    assert_eq!(metadata.initialized, 0);
    assert_eq!(metadata.next_free_index, 0);
    assert_eq!(metadata.last_message_id, 0);
    assert_eq!(metadata.account_name_len, 0);
    assert_eq!(metadata.account_name, "");
}

#[test]
fn metadata_serialize_rejects_bad_lengths() {
    let metadata = AccountMetadata::new("bob");
    let mut data = vec![7u8; 15];
    assert!(metadata.serialize(&mut data).is_err());
    assert_eq!(data, vec![7u8; 15]);
    let mut data = vec![7u8; 17];
    assert!(metadata.serialize(&mut data).is_err());
    assert_eq!(data, vec![7u8; 17]);

    let wrong = AccountMetadata {
        initialized: 1,
        next_free_index: 17,
        last_message_id: 0,
        account_name_len: 4,
        account_name: "bob".to_string(),
    };
    assert!(!wrong.is_well_formed());
    let mut data = vec![7u8; 17];
    assert!(wrong.serialize(&mut data).is_err());
    assert_eq!(data, vec![7u8; 17]);
}

#[test]
fn metadata_deserialize_rejects_truncated_input() {
    let metadata = AccountMetadata::new("carol");
    let mut data = vec![0; 18];
    assert!(metadata.serialize(&mut data).is_ok());
    for len in 0..18 {
        let mut decoded = AccountMetadata::new("keep");
        assert!(decoded.deserialize(&data[..len]).is_err(), "length {}", len);
        assert_eq!(decoded, AccountMetadata::new("keep"));
    }
    data.extend_from_slice(&[0; 100]);
    let mut decoded = AccountMetadata::default();
    assert!(decoded.deserialize(&data).is_ok());
    assert_eq!(decoded, metadata);
}

#[test]
fn metadata_size_is_read_from_the_buffer() {
    let metadata = AccountMetadata::new("carol");
    let mut data = vec![0; 64];
    assert!(metadata.serialize(&mut data[..18]).is_ok());
    assert_eq!(AccountMetadata::calculate_size_from_buffer(&data), 18);
    assert_eq!(AccountMetadata::calculate_size_from_buffer(&[0u8; 13]), 13);
}

#[test]
fn an_empty_log_decodes_to_no_messages() {
    let messages = deserialize_messages(&[]).unwrap();
    assert!(messages.is_empty());
}

#[test]
fn a_log_must_be_filled_exactly() {
    let mut bytes = encoded_message(0, b"one");
    bytes.extend_from_slice(&encoded_message(1, b"three"));
    let messages = deserialize_messages(&bytes).unwrap();
    assert_eq!(
        messages,
        vec![
            Message::new(0, sender(), "one".to_string()),
            Message::new(1, sender(), "three".to_string()),
        ]
    );
    bytes.push(0);
    assert!(deserialize_messages(&bytes).is_err());
    bytes.pop();
    bytes.pop();
    assert!(deserialize_messages(&bytes).is_err());
}

#[test]
fn messages_are_written_one_after_the_other() {
    let messages = vec![
        Message::new(0, sender(), "one".to_string()),
        Message::new(1, sender(), "three".to_string()),
    ];
    let mut data = vec![0xee; 43 + 45 + 2];
    assert!(serialize_messages(&messages, &mut data).is_ok());
    let mut expected = encoded_message(0, b"one");
    expected.extend_from_slice(&encoded_message(1, b"three"));
    expected.extend_from_slice(&[0xee, 0xee]);
    assert_eq!(data, expected);

    let mut none = vec![1u8, 2, 3];
    assert!(serialize_messages(&[], &mut none).is_ok());
    assert_eq!(none, vec![1u8, 2, 3]);
}

#[test]
fn messages_that_do_not_fit_are_not_written() {
    let messages = vec![
        Message::new(0, sender(), "one".to_string()),
        Message::new(1, sender(), "three".to_string()),
    ];
    let mut data = vec![0xee; 43 + 45 - 1];
    assert!(serialize_messages(&messages, &mut data).is_err());
    assert_eq!(data, vec![0xee; 43 + 45 - 1]);

    let broken = vec![
        Message::new(0, sender(), "one".to_string()),
        Message { id: 1, from: sender(), msg_size: 4, msg: "three".to_string() },
    ];
    let mut data = vec![0xee; 200];
    assert!(serialize_messages(&broken, &mut data).is_err());
    assert_eq!(data, vec![0xee; 200]);
}

#[test]
fn instruction_encodings_are_byte_exact() {
    let delete = ChatInstruction::DeleteMessages { id: 100 };
    assert_eq!(delete.size(), 5);
    let mut data = vec![0xaa; 5];
    assert!(delete.serialize(&mut data).is_ok());
    assert_eq!(data, vec![1, 100, 0, 0, 0]);

    let send = ChatInstruction::SendMessages {
        messages: vec![Message::new(9, sender(), "yo".to_string())],
    };
    assert_eq!(send.size(), 43);
    let mut data = vec![0xaa; 43];
    assert!(send.serialize(&mut data).is_ok());
    let mut expected = vec![0];
    expected.extend_from_slice(&encoded_message(9, b"yo"));
    assert_eq!(data, expected);

    let open = ChatInstruction::OpenAccount { account_metadata: AccountMetadata::new("al") };
    assert_eq!(open.size(), 16);
    let mut data = vec![0xaa; 16];
    assert!(open.serialize(&mut data).is_ok());
    assert_eq!(data, vec![2, 1, 15, 0, 0, 0, 0, 0, 0, 0, 2, 0, 0, 0, b'a', b'l']);

    let nothing = ChatInstruction::SendMessages { messages: vec![] };
    assert_eq!(nothing.size(), 1);
    let mut data = vec![0xaa; 1];
    assert!(nothing.serialize(&mut data).is_ok());
    assert_eq!(data, vec![0]);
}

#[test]
fn instruction_serialize_rejects_bad_lengths() {
    let delete = ChatInstruction::DeleteMessages { id: 100 };
    for len in [0usize, 1, 4, 6] {
        let mut data = vec![0xaa; len];
        assert!(delete.serialize(&mut data).is_err());
        assert_eq!(data, vec![0xaa; len]);
    }
    let send = ChatInstruction::SendMessages {
        messages: vec![Message::new(9, sender(), "yo".to_string())],
    };
    for len in [0usize, 1, 42, 44] {
        let mut data = vec![0xaa; len];
        assert!(send.serialize(&mut data).is_err());
        assert_eq!(data, vec![0xaa; len]);
    }
    let open = ChatInstruction::OpenAccount { account_metadata: AccountMetadata::new("al") };
    for len in [0usize, 1, 15, 17] {
        let mut data = vec![0xaa; len];
        assert!(open.serialize(&mut data).is_err());
        assert_eq!(data, vec![0xaa; len]);
    }
    let broken = ChatInstruction::SendMessages {
        messages: vec![Message { id: 0, from: sender(), msg_size: 1, msg: "yo".to_string() }],
    };
    let mut data = vec![0xaa; 42];
    assert!(broken.serialize(&mut data).is_err());
    assert_eq!(data, vec![0xaa; 42]);
}

#[test]
fn instruction_deserialize_rejects_bad_input() {
    assert!(ChatInstruction::deserialize(&[]).is_err());
    assert!(ChatInstruction::deserialize(&[3]).is_err());
    assert!(ChatInstruction::deserialize(&[255, 0, 0, 0, 0]).is_err());
    assert!(ChatInstruction::deserialize(&[1]).is_err());
    assert!(ChatInstruction::deserialize(&[1, 0, 0, 0]).is_err());
    assert!(ChatInstruction::deserialize(&[2]).is_err());
    assert!(ChatInstruction::deserialize(&[2, 1, 0, 0, 0, 0, 0, 0, 0, 0, 1, 0, 0, 0]).is_err());
    assert!(ChatInstruction::deserialize(&[0, 1, 2, 3]).is_err());
}

#[test]
fn instruction_deserialize_reads_each_tag() {
    assert_eq!(
        ChatInstruction::deserialize(&[0]).unwrap(),
        ChatInstruction::SendMessages { messages: vec![] }
    );
    assert_eq!(
        ChatInstruction::deserialize(&[1, 1, 1, 0, 0, 9, 9]).unwrap(),
        ChatInstruction::DeleteMessages { id: 257 }
    );
    assert_eq!(
        ChatInstruction::deserialize(&[2, 1, 14, 0, 0, 0, 0, 0, 0, 0, 1, 0, 0, 0, b'x', 7])
            .unwrap(),
        ChatInstruction::OpenAccount { account_metadata: AccountMetadata::new("x") }
    );
}

#[test]
fn commands_have_their_tags() {
    assert_eq!(ChatCommand::SendMessages.tag(), 0);
    assert_eq!(ChatCommand::DeleteMessages.tag(), 1);
    assert_eq!(ChatCommand::OpenAccount.tag(), 2);
    assert_eq!(ChatCommand::from_tag(0), Some(ChatCommand::SendMessages));
    assert_eq!(ChatCommand::from_tag(1), Some(ChatCommand::DeleteMessages));
    assert_eq!(ChatCommand::from_tag(2), Some(ChatCommand::OpenAccount));
    assert_eq!(ChatCommand::from_tag(3), None);
    assert_eq!(ChatCommand::from_tag(255), None);
}

#[test]
fn the_error_has_its_text() {
    assert_eq!(ChatDeserializationError.to_string(), "can't deserialize data");
}

#[test]
fn minimum_sizes() {
    assert_eq!(MINIMUM_MESSAGE_DATA_SIZE, 41);
    assert_eq!(MINIMUM_OPEN_ACCOUNT_DATA_SIZE, 15);
}

#[test]
fn account_data_decodes_to_metadata_and_messages() {
    let mut data = vec![0u8; 200];
    let mut metadata = AccountMetadata::new("alice");
    assert!(metadata.serialize(&mut data[..18]).is_ok());
    let (decoded, messages) = deserialize_account_data(&data).unwrap();
    assert_eq!(decoded, metadata);
    assert_eq!(messages, None);

    let log = vec![
        Message::new(0, sender(), "one".to_string()),
        Message::new(1, sender(), "three".to_string()),
    ];
    assert!(serialize_messages(&log, &mut data[18..]).is_ok());
    metadata.next_free_index = 18 + 43 + 45;
    metadata.last_message_id = 1;
    assert!(metadata.serialize(&mut data[..18]).is_ok());
    let (decoded, messages) = deserialize_account_data(&data).unwrap();
    assert_eq!(decoded, metadata);
    assert_eq!(messages, Some(log));
}

#[test]
fn account_data_that_ends_too_early_is_rejected() {
    assert!(deserialize_account_data(&[]).is_err());
    assert!(deserialize_account_data(&[0u8; 12]).is_err());
    let (metadata, messages) = deserialize_account_data(&[0u8; 13]).unwrap();
    assert_eq!(metadata, AccountMetadata::default());
    assert_eq!(messages, None);

    let mut data = vec![0u8; 40];
    let mut metadata = AccountMetadata::new("alice");
    metadata.next_free_index = 41;
    assert!(metadata.serialize(&mut data[..18]).is_ok());
    assert!(deserialize_account_data(&data).is_err());
    metadata.next_free_index = 40;
    assert!(metadata.serialize(&mut data[..18]).is_ok());
    assert!(deserialize_account_data(&data).is_err());
}
