use kv_store::wire::{decode_command, decode_response, encode_command, encode_response};
use kv_store::{DatabaseCommand, DatabaseResponse};

fn s(text: &str) -> String {
    text.to_string()
}

#[test]
fn commands_encode_to_the_expected_messages() {
    assert_eq!(
        encode_command(&DatabaseCommand::Get { key: s("k") }),
        "{\"Get\":{\"key\":\"k\"}}"
    );
    assert_eq!(
        encode_command(&DatabaseCommand::Put { key: s("k"), value: s("v") }),
        "{\"Set\":{\"key\":\"k\",\"value\":\"v\"}}"
    );
    assert_eq!(
        encode_command(&DatabaseCommand::Delete { key: s("k") }),
        "{\"Delete\":{\"key\":\"k\"}}"
    );
    assert_eq!(
        encode_command(&DatabaseCommand::Exists { key: s("k") }),
        "{\"Exists\":{\"key\":\"k\"}}"
    );
    assert_eq!(encode_command(&DatabaseCommand::Keys), "\"Keys\"");
    assert_eq!(encode_command(&DatabaseCommand::Len), "\"Len\"");
    assert_eq!(encode_command(&DatabaseCommand::Clear), "\"Clear\"");
    assert_eq!(encode_command(&DatabaseCommand::Ping), "\"Ping\"");
}

#[test]
fn commands_round_trip_through_the_codec() {
    let commands = vec![
        DatabaseCommand::Get { key: s("a key") },
        DatabaseCommand::Put { key: s("k\"x"), value: s("v\\y") },
        DatabaseCommand::Delete { key: s("") },
        DatabaseCommand::Exists { key: s("e") },
        DatabaseCommand::Keys,
        DatabaseCommand::Len,
        DatabaseCommand::Clear,
        DatabaseCommand::Ping,
    ];
    for command in commands {
        let text = encode_command(&command);
        assert_eq!(decode_command(&text), Some(command));
    }
}

#[test]
fn unreadable_commands_are_rejected() {
    assert!(decode_command("").is_none());
    assert!(decode_command("\"Pong\"").is_none());
    assert!(decode_command("{\"Get\":{\"key\":\"k\"}} ").is_none());
    assert!(decode_command("{\"Get\":{\"key\":k}}").is_none());
    assert!(decode_command("{\"Rename\":{\"key\":\"k\"}}").is_none());
    assert!(decode_command("\"keys\"").is_none());
}

#[test]
fn responses_encode_to_the_expected_messages() {
    assert_eq!(
        encode_response(&DatabaseResponse::Success { value: Some(s("v")) }),
        "{\"Ok\":{\"value\":\"v\"}}"
    );
    assert_eq!(
        encode_response(&DatabaseResponse::Success { value: None }),
        "{\"Ok\":{\"value\":null}}"
    );
    assert_eq!(
        encode_response(&DatabaseResponse::Error { message: s("bad") }),
        "{\"Error\":{\"message\":\"bad\"}}"
    );
    assert_eq!(
        encode_response(&DatabaseResponse::Keys { keys: vec![] }),
        "{\"Keys\":{\"keys\":[]}}"
    );
    assert_eq!(
        encode_response(&DatabaseResponse::Keys { keys: vec![s("a"), s("b")] }),
        "{\"Keys\":{\"keys\":[\"a\",\"b\"]}}"
    );
    assert_eq!(
        encode_response(&DatabaseResponse::Len { count: 42 }),
        "{\"Len\":{\"count\":42}}"
    );
    assert_eq!(encode_response(&DatabaseResponse::Pong), "\"Pong\"");
}

#[test]
fn responses_round_trip_through_the_codec() {
    let responses = vec![
        DatabaseResponse::Success { value: Some(s("a value")) },
        DatabaseResponse::Success { value: None },
        DatabaseResponse::Error { message: s("what \"went\" wrong") },
        DatabaseResponse::Keys { keys: vec![] },
        DatabaseResponse::Keys { keys: vec![s("one")] },
        DatabaseResponse::Keys { keys: vec![s("one"), s("two"), s("three")] },
        DatabaseResponse::Len { count: 0 },
        DatabaseResponse::Len { count: usize::MAX },
        DatabaseResponse::Pong,
    ];
    for response in responses {
        let text = encode_response(&response);
        assert_eq!(decode_response(&text), Some(response));
    }
}

#[test]
fn unreadable_responses_are_rejected() {
    assert!(decode_response("").is_none());
    assert!(decode_response("\"Ping\"").is_none());
    assert!(decode_response("{\"Ok\":{\"value\":}}").is_none());
    assert!(decode_response("{\"Len\":{\"count\":-1}}").is_none());
    assert!(decode_response("{\"Len\":{\"count\":99999999999999999999}}").is_none());
    assert!(decode_response("{\"Keys\":{\"keys\":[\"a\",]}}").is_none());
}
