use std::str::FromStr;

use chat_program::data::{
    deserialize_messages, serialize_messages, AccountMetadata, Address, ChatData,
    ChatDeserializationError, ChatInstruction, Message,
};
use solana_program::pubkey::Pubkey;

const PROGRAM_ADDRESS: &str = "DidmGHY2FMXTPzxMhiMjNSzwuqcHhJ679yP4NdCQsoqM";

fn program_address() -> Address {
    Address { bytes: Pubkey::from_str(&PROGRAM_ADDRESS.to_string()).unwrap().to_bytes() }
}

fn check_message_round_trip() -> Result<(), ChatDeserializationError> {
    let message = Message::new(1, program_address(), "12345".to_string());

    let size = message.size();
    let mut data = vec![0; size];

    message.serialize(&mut data[..])?;
    let mut message_new = Message::default();
    message_new.deserialize(&data[..])?;
    assert_eq!(&message, &message_new);
    Ok(())
}

fn check_messages_round_trip() -> Result<(), ChatDeserializationError> {
    let msg1 = Message { id: 1, from: program_address(), msg_size: 5, msg: "12345".to_string() };

    let msg2 = Message { id: 2, from: program_address(), msg_size: 3, msg: "abc".to_string() };

    let size = msg1.size() + msg2.size();
    let mut data = vec![0; size];
    let messages = vec![msg1, msg2];

    serialize_messages(&messages, &mut data[..])?;

    let messages_new = deserialize_messages(&data[..])?;
    assert_eq!(messages, messages_new);
    Ok(())
}

fn check_account_metadata_round_trip() -> Result<(), ChatDeserializationError> {
    let account_metadata = AccountMetadata {
        initialized: 1,
        next_free_index: 2,
        last_message_id: 3,
        account_name_len: 3,
        account_name: "abc".to_string(),
    };

    let size = account_metadata.size();
    let mut data = vec![0; size];

    account_metadata.serialize(&mut data[..])?;

    let mut s_account_metadata = AccountMetadata::default();
    s_account_metadata.deserialize(&data[..])?;

    assert_eq!(account_metadata, s_account_metadata);

    Ok(())
}

#[test]
fn message_serialization() -> Result<(), ChatDeserializationError> {
    check_message_round_trip()
}

#[test]
fn data_message_serialization() -> Result<(), ChatDeserializationError> {
    check_message_round_trip()
}

#[test]
fn messages_serialization() -> Result<(), ChatDeserializationError> {
    check_messages_round_trip()
}

#[test]
fn data_messages_serialization() -> Result<(), ChatDeserializationError> {
    check_messages_round_trip()
}

#[test]
fn acount_metadata_serialization() -> Result<(), ChatDeserializationError> {
    check_account_metadata_round_trip()
}

#[test]
fn data_acount_metadata_serialization() -> Result<(), ChatDeserializationError> {
    check_account_metadata_round_trip()
}

#[test]
fn chat_instruction_serializtion_oa() -> Result<(), ChatDeserializationError> {
    let chat_inst = ChatInstruction::OpenAccount {
        account_metadata: AccountMetadata {
            initialized: 0,
            next_free_index: 20,
            last_message_id: 3,
            account_name_len: 3,
            account_name: "abc".to_string(),
        },
    };

    let mut data = vec![0; chat_inst.size()];
    chat_inst.serialize(&mut data[..])?;

    let chat_inst_new = ChatInstruction::deserialize(&data[..])?;

    assert_eq!(chat_inst, chat_inst_new);

    Ok(())
}

#[test]
fn chat_instruction_serializtion_sm() -> Result<(), ChatDeserializationError> {
    let chat_inst = ChatInstruction::SendMessages { messages: vec![] };

    let mut data = vec![0; chat_inst.size()];
    chat_inst.serialize(&mut data[..])?;

    let chat_inst_new = ChatInstruction::deserialize(&data[..])?;

    assert_eq!(chat_inst, chat_inst_new);

    Ok(())
}

#[test]
fn chat_instruction_serializtion_sm2() -> Result<(), ChatDeserializationError> {
    let message1 = Message::new(0, program_address(), "message message".to_string());
    let message2 = Message::new(1, program_address(), "message message 2".to_string());

    let chat_inst = ChatInstruction::SendMessages { messages: vec![message1, message2] };

    let mut data = vec![0; chat_inst.size()];
    chat_inst.serialize(&mut data[..])?;

    let chat_inst_new = ChatInstruction::deserialize(&data[..])?;

    assert_eq!(chat_inst, chat_inst_new);

    Ok(())
}

#[test]
fn chat_instruction_serializtion_dm() -> Result<(), ChatDeserializationError> {
    let chat_inst = ChatInstruction::DeleteMessages { id: 100 };

    let mut data = vec![0; chat_inst.size()];
    chat_inst.serialize(&mut data[..])?;

    let chat_inst_new = ChatInstruction::deserialize(&data[..])?;

    println!("{:?}", chat_inst_new);

    assert_eq!(chat_inst, chat_inst_new);

    Ok(())
}
