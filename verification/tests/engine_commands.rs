use kv_store::engine::{execute, handle_request};
use kv_store::protocol::render_response;
use kv_store::{DatabaseCommand, DatabaseResponse, KeyValueStore};

fn s(text: &str) -> String {
    text.to_string()
}

#[test]
fn scenario_set_get_delete_exists_len() {
    let mut store = KeyValueStore::new();
    let (r, persist) = execute(&mut store, DatabaseCommand::Put { key: s("a"), value: s("1") });
    assert_eq!(r, DatabaseResponse::Success { value: None });
    assert!(persist);
    let (r, persist) = execute(&mut store, DatabaseCommand::Put { key: s("a"), value: s("2") });
    assert_eq!(r, DatabaseResponse::Success { value: Some(s("1")) });
    assert!(persist);
    let (r, persist) = execute(&mut store, DatabaseCommand::Get { key: s("a") });
    assert_eq!(r, DatabaseResponse::Success { value: Some(s("2")) });
    assert!(!persist);
    let (r, persist) = execute(&mut store, DatabaseCommand::Delete { key: s("a") });
    assert_eq!(r, DatabaseResponse::Success { value: Some(s("2")) });
    assert!(persist);
    let (r, persist) = execute(&mut store, DatabaseCommand::Exists { key: s("a") });
    assert_eq!(r, DatabaseResponse::Success { value: Some(s("false")) });
    assert!(!persist);
    let (r, persist) = execute(&mut store, DatabaseCommand::Len);
    assert_eq!(r, DatabaseResponse::Len { count: 0 });
    assert!(!persist);
}

#[test]
fn exists_reports_true_for_present_keys() {
    let mut store = KeyValueStore::new();
    store.set(s("here"), s("x"));
    let (r, _) = execute(&mut store, DatabaseCommand::Exists { key: s("here") });
    assert_eq!(r, DatabaseResponse::Success { value: Some(s("true")) });
}

#[test]
fn keys_command_lists_the_keys() {
    let mut store = KeyValueStore::new();
    store.set(s("a"), s("1"));
    store.set(s("b"), s("2"));
    let (r, persist) = execute(&mut store, DatabaseCommand::Keys);
    assert!(!persist);
    match r {
        DatabaseResponse::Keys { mut keys } => {
            keys.sort();
            assert_eq!(keys, vec![s("a"), s("b")]);
        }
        other => panic!("keys listing answered with {:?}", other),
    }
}

#[test]
fn clear_empties_and_answers_success() {
    let mut store = KeyValueStore::new();
    store.set(s("a"), s("1"));
    let (r, persist) = execute(&mut store, DatabaseCommand::Clear);
    assert_eq!(r, DatabaseResponse::Success { value: None });
    assert!(persist);
    assert_eq!(store.len(), 0);
}

#[test]
fn ping_answers_pong_whatever_the_store_holds() {
    let mut store = KeyValueStore::new();
    let (r, persist) = execute(&mut store, DatabaseCommand::Ping);
    assert_eq!(r, DatabaseResponse::Pong);
    assert!(!persist);
    store.set(s("a"), s("1"));
    let (r, _) = execute(&mut store, DatabaseCommand::Ping);
    assert_eq!(r, DatabaseResponse::Pong);
    execute(&mut store, DatabaseCommand::Clear);
    let (r, _) = execute(&mut store, DatabaseCommand::Ping);
    assert_eq!(r, DatabaseResponse::Pong);
}

#[test]
fn distinct_writes_are_all_kept() {
    let mut store = KeyValueStore::new();
    let n = 50;
    for i in 0..n {
        let (r, persist) =
            execute(&mut store, DatabaseCommand::Put { key: format!("key{}", i), value: format!("value{}", i) });
        assert_eq!(r, DatabaseResponse::Success { value: None });
        assert!(persist);
    }
    assert_eq!(store.len(), n);
    for i in 0..n {
        assert_eq!(store.get(&format!("key{}", i)), Some(format!("value{}", i)));
    }
}

#[test]
fn handle_request_answers_and_asks_to_persist() {
    let mut store = KeyValueStore::new();
    let (reply, persist) = handle_request(&mut store, "{\"Set\":{\"key\":\"a\",\"value\":\"1\"}}");
    assert_eq!(reply, "{\"Ok\":{\"value\":null}}");
    assert!(persist);
    let (reply, persist) = handle_request(&mut store, "{\"Get\":{\"key\":\"a\"}}");
    assert_eq!(reply, "{\"Ok\":{\"value\":\"1\"}}");
    assert!(!persist);
    let (reply, persist) = handle_request(&mut store, "\"Len\"");
    assert_eq!(reply, "{\"Len\":{\"count\":1}}");
    assert!(!persist);
    let (reply, persist) = handle_request(&mut store, "\"Ping\"");
    assert_eq!(reply, "\"Pong\"");
    assert!(!persist);
}

#[test]
fn handle_request_answers_errors_and_keeps_going() {
    let mut store = KeyValueStore::new();
    store.set(s("a"), s("1"));
    let (reply, persist) = handle_request(&mut store, "nonsense");
    assert_eq!(reply, "{\"Error\":{\"message\":\"Invalid command: malformed request\"}}");
    assert!(!persist);
    assert_eq!(store.len(), 1);
}

#[test]
fn responses_render_for_the_command_line() {
    assert_eq!(render_response(&DatabaseResponse::Success { value: Some(s("v")) }), "v");
    assert_eq!(render_response(&DatabaseResponse::Success { value: None }), "(null)");
    assert_eq!(render_response(&DatabaseResponse::Error { message: s("oops") }), "Error: oops");
    assert_eq!(render_response(&DatabaseResponse::Keys { keys: vec![] }), "(empty)");
    assert_eq!(
        render_response(&DatabaseResponse::Keys { keys: vec![s("a"), s("b")] }),
        "a\nb"
    );
    assert_eq!(render_response(&DatabaseResponse::Len { count: 7 }), "7");
    assert_eq!(render_response(&DatabaseResponse::Len { count: 120 }), "120");
    assert_eq!(render_response(&DatabaseResponse::Pong), "PONG");
}

#[test]
fn responses_interpret_for_each_client_call() {
    let ok_v = DatabaseResponse::Success { value: Some(s("v")) };
    let ok_none = DatabaseResponse::Success { value: None };
    let err = DatabaseResponse::Error { message: s("boom") };

    assert_eq!(ok_v.clone().into_value(), Ok(Some(s("v"))));
    assert_eq!(ok_none.clone().into_value(), Ok(None));
    assert_eq!(err.clone().into_value(), Err(s("boom")));
    assert_eq!(DatabaseResponse::Pong.into_value(), Err(s("Unexpected response type")));

    assert_eq!(DatabaseResponse::Success { value: Some(s("true")) }.into_bool(), Ok(true));
    assert_eq!(DatabaseResponse::Success { value: Some(s("false")) }.into_bool(), Ok(false));
    assert_eq!(DatabaseResponse::Success { value: Some(s("junk")) }.into_bool(), Ok(false));
    assert_eq!(ok_none.clone().into_bool(), Ok(false));
    assert_eq!(err.clone().into_bool(), Err(s("boom")));

    assert_eq!(
        DatabaseResponse::Keys { keys: vec![s("a")] }.into_keys(),
        Ok(vec![s("a")])
    );
    assert_eq!(err.clone().into_keys(), Err(s("boom")));
    assert_eq!(ok_v.clone().into_keys(), Err(s("Unexpected response type")));

    assert_eq!(DatabaseResponse::Len { count: 3 }.into_len(), Ok(3));
    assert_eq!(err.clone().into_len(), Err(s("boom")));

    assert_eq!(ok_none.into_unit(), Ok(()));
    assert_eq!(err.clone().into_unit(), Err(s("boom")));

    assert_eq!(DatabaseResponse::Pong.into_pong(), Ok(()));
    assert_eq!(err.into_pong(), Err(s("boom")));
    assert_eq!(ok_v.into_pong(), Err(s("Unexpected response type")));
}
