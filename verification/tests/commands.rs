use resp_kv::command::{Command, CommandError};
use resp_kv::value::DataType;

#[test]
fn ping_line_is_a_ping() {
    assert_eq!(Command::from_str(b"PING"), Ok(Command::Ping(None)));
    assert_eq!(Command::from_str(b"ping"), Ok(Command::Ping(None)));
    assert_eq!(Command::from_str(b"PiNg"), Ok(Command::Ping(None)));
}

#[test]
fn empty_line_is_refused() {
    assert_eq!(Command::from_str(b""), Err(CommandError::EmptyPayload));
}

#[test]
fn unknown_word_is_refused() {
    assert_eq!(Command::from_str(b"PONG"), Err(CommandError::UnknownCommand));
    assert_eq!(Command::from_str(b"PIN"), Err(CommandError::UnknownCommand));
    assert_eq!(Command::from_str(b"PINGS"), Err(CommandError::UnknownCommand));
    assert_eq!(Command::from_str(b"GET"), Err(CommandError::UnknownCommand));
    assert_eq!(Command::from_str(b"P\x69NG\x00"), Err(CommandError::UnknownCommand));
}

#[test]
fn upper_case_folds_letters_only() {
    // '0' + 32 is 'P': only letters are folded, so this is no PING.
    assert_eq!(Command::from_str(b"0ING"), Err(CommandError::UnknownCommand));
    assert_eq!(Command::from_str(b"pINg"), Ok(Command::Ping(None)));
}

#[test]
fn line_with_arguments_is_not_served() {
    assert_eq!(Command::from_str(b"PING hello"), Err(CommandError::Unimplemented));
    assert_eq!(Command::from_str(b"ECHO hello world"), Err(CommandError::Unimplemented));
    assert_eq!(Command::from_str(b" "), Err(CommandError::Unimplemented));
    assert_eq!(Command::from_str(b"PING "), Err(CommandError::Unimplemented));
}

#[test]
fn try_from_reads_a_line() {
    assert_eq!(Command::try_from(b"ping"), Ok(Command::Ping(None)));
    assert_eq!(Command::try_from(b"nope"), Err(CommandError::UnknownCommand));
    assert_eq!(Command::try_from(b""), Err(CommandError::EmptyPayload));
}

#[test]
fn match_command_knows_ping_only() {
    assert_eq!(Command::match_command(b"PING"), Ok(Command::Ping(None)));
    assert_eq!(Command::match_command(b"ECHO"), Err(CommandError::UnknownCommand));
    assert_eq!(Command::match_command(b""), Err(CommandError::UnknownCommand));
}

#[test]
fn match_command_with_payload_is_not_served() {
    assert_eq!(
        Command::match_command_with_payload(b"PING", b"hello"),
        Err(CommandError::Unimplemented)
    );
    assert_eq!(
        Command::match_command_with_payload(b"", b""),
        Err(CommandError::Unimplemented)
    );
}

#[test]
fn ping_replies_pong() {
    assert_eq!(Command::Ping(None).reply(), DataType::SimpleString(b"PONG"));
    assert_eq!(Command::Ping(None).to_bytes(), b"+PONG\r\n".to_vec());
}

#[test]
fn ping_with_payload_replies_the_payload() {
    assert_eq!(Command::Ping(Some(b"hi")).reply(), DataType::BulkString(Some(b"hi")));
    assert_eq!(Command::Ping(Some(b"hi")).to_bytes(), b"$2\r\nhi\r\n".to_vec());
}

#[test]
fn echo_replies_the_payload() {
    assert_eq!(Command::Echo(b"hello").reply(), DataType::BulkString(Some(b"hello")));
    assert_eq!(Command::Echo(b"hello").to_bytes(), b"$5\r\nhello\r\n".to_vec());
    assert_eq!(Command::Echo(b"").to_bytes(), b"$0\r\n\r\n".to_vec());
}

#[test]
fn set_replies_ok() {
    assert_eq!(Command::SetKey.reply(), DataType::SimpleString(b"OK"));
    assert_eq!(Command::SetKey.to_bytes(), b"+OK\r\n".to_vec());
}

#[test]
fn get_replies_the_data_or_null() {
    assert_eq!(Command::Get(Some(b"bar".to_vec())).to_bytes(), b"$3\r\nbar\r\n".to_vec());
    assert_eq!(Command::Get(None).reply(), DataType::BulkString(None));
    assert_eq!(Command::Get(None).to_bytes(), b"$-1\r\n".to_vec());
}

#[test]
fn command_write_to_appends_the_reply() {
    let mut out = b"+OK\r\n".to_vec();
    Command::Get(None).write_to(&mut out);
    Command::Ping(None).write_to(&mut out);
    assert_eq!(out, b"+OK\r\n$-1\r\n+PONG\r\n".to_vec());
}
