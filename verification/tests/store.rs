use kvs::errors::KvsError;
use kvs::handle_request;
use kvs::state::State;
use kvs::Action;
use kvs::Command;
use kvs::KvStore;
use kvs::KvsEngine;
use kvs::Message;

#[test]
fn test_get() -> Result<(), KvsError> {
    let store1 = KvStore::open(Vec::new())?;
    store1.set("key1".to_owned(), "value1".to_owned())?;
    let store2 = store1.clone();
    let val = store2.get("key1".to_owned())?;
    assert!(val == Some("value1".to_owned()));
    Ok(())
}

#[test]
fn open_empty_log() {
    let st = State::open(Vec::new()).unwrap();
    assert_eq!(st.log_len(), 0);
    assert_eq!(st.record_count(), 0);
    assert_eq!(st.get("anything".to_owned()).unwrap(), None);
}

#[test]
fn open_corrupt_log() {
    let r = State::open(vec![1, 2, 3]);
    assert!(matches!(r, Err(KvsError::CorruptLog)));
    let r2 = KvStore::open(vec![255, 0, 9]);
    assert!(matches!(r2, Err(KvsError::CorruptLog)));
}

#[test]
fn last_write_wins() {
    let mut st = State::open(Vec::new()).unwrap();
    st.set("k".to_owned(), "v1".to_owned()).unwrap();
    st.set("k".to_owned(), "v2".to_owned()).unwrap();
    assert_eq!(st.get("k".to_owned()).unwrap(), Some("v2".to_owned()));
}

#[test]
fn tombstone() {
    let mut st = State::open(Vec::new()).unwrap();
    st.set("k".to_owned(), "v".to_owned()).unwrap();
    assert_eq!(st.remove("k".to_owned()).unwrap(), Some(()));
    assert_eq!(st.get("k".to_owned()).unwrap(), None);
    let len_before = st.log_len();
    let again = st.remove("k".to_owned());
    assert!(matches!(again, Err(KvsError::KeyNotFound)));
    assert_eq!(st.log_len(), len_before);
}

#[test]
fn monotonic_log() {
    let mut st = State::open(Vec::new()).unwrap();
    let mut last: usize = st.log_len();
    st.set("a".to_owned(), "1".to_owned()).unwrap();
    assert!(st.log_len() >= last);
    last = st.log_len();
    st.set("a".to_owned(), "22".to_owned()).unwrap();
    assert!(st.log_len() >= last);
    last = st.log_len();
    st.get("a".to_owned()).unwrap();
    assert!(st.log_len() >= last);
    last = st.log_len();
    st.remove("a".to_owned()).unwrap();
    assert!(st.log_len() >= last);
    last = st.log_len();
    let _ = st.remove("a".to_owned());
    assert!(st.log_len() >= last);
}

#[test]
fn replay_rebuilds_index() {
    let mut st = State::open(Vec::new()).unwrap();
    st.set("a".to_owned(), "1".to_owned()).unwrap();
    st.set("b".to_owned(), "2".to_owned()).unwrap();
    st.set("a".to_owned(), "3".to_owned()).unwrap();
    st.remove("b".to_owned()).unwrap();
    st.set("c".to_owned(), "4".to_owned()).unwrap();

    let before_a = st.get("a".to_owned()).unwrap();
    let before_b = st.get("b".to_owned()).unwrap();
    let before_c = st.get("c".to_owned()).unwrap();

    let reopened = State::open(st.log_snapshot()).unwrap();
    assert_eq!(reopened.get("a".to_owned()).unwrap(), before_a);
    assert_eq!(reopened.get("b".to_owned()).unwrap(), before_b);
    assert_eq!(reopened.get("c".to_owned()).unwrap(), before_c);
    assert_eq!(before_a, Some("3".to_owned()));
    assert_eq!(before_b, None);
    assert_eq!(before_c, Some("4".to_owned()));
}

#[test]
fn end_to_end_scenario() {
    let mut st = State::open(Vec::new()).unwrap();
    st.set("a".to_owned(), "1".to_owned()).unwrap();
    assert_eq!(st.record_count(), 1);
    assert_eq!(st.get("a".to_owned()).unwrap(), Some("1".to_owned()));
    st.set("a".to_owned(), "2".to_owned()).unwrap();
    assert_eq!(st.record_count(), 2);
    assert_eq!(st.get("a".to_owned()).unwrap(), Some("2".to_owned()));
    st.remove("a".to_owned()).unwrap();
    assert_eq!(st.record_count(), 3);
    assert_eq!(st.get("a".to_owned()).unwrap(), None);
    let r = st.remove("a".to_owned());
    assert!(matches!(r, Err(KvsError::KeyNotFound)));
    assert_eq!(st.record_count(), 3);
}

fn command(action: Action, key: &str, value: &str) -> Message {
    Message::Command(Command {
        action,
        key: key.to_owned(),
        value: value.to_owned(),
    })
}

#[test]
fn handler_replies() {
    let store = KvStore::open(Vec::new()).unwrap();

    match handle_request(&store, command(Action::Get, "a", "")) {
        Message::Error(text) => assert_eq!(text, "Key not found"),
        _ => panic!("expected an error reply"),
    }
    match handle_request(&store, command(Action::Put, "a", "1")) {
        Message::String(text) => assert_eq!(text, "ok"),
        _ => panic!("expected a string reply"),
    }
    match handle_request(&store, command(Action::Get, "a", "")) {
        Message::String(text) => assert_eq!(text, "1"),
        _ => panic!("expected a string reply"),
    }
    match handle_request(&store, command(Action::Remove, "a", "")) {
        Message::String(text) => assert_eq!(text, "ok"),
        _ => panic!("expected a string reply"),
    }
    match handle_request(&store, command(Action::Remove, "a", "")) {
        Message::Error(text) => assert_eq!(text, "Key not found"),
        _ => panic!("expected an error reply"),
    }
    match handle_request(&store, command(Action::Noop, "", "")) {
        Message::Error(text) => assert_eq!(text, "invalid Action"),
        _ => panic!("expected an error reply"),
    }
    match handle_request(&store, Message::String("hello".to_owned())) {
        Message::Error(text) => assert_eq!(text, "Invalid message"),
        _ => panic!("expected an error reply"),
    }
}

#[test]
fn shared_handles_observe_one_store() {
    let store1 = KvStore::open(Vec::new()).unwrap();
    let store2 = store1.clone();
    let store3 = store2.clone();
    store1.set("x".to_owned(), "1".to_owned()).unwrap();
    store2.set("y".to_owned(), "2".to_owned()).unwrap();
    assert_eq!(store3.get("x".to_owned()).unwrap(), Some("1".to_owned()));
    assert_eq!(store3.get("y".to_owned()).unwrap(), Some("2".to_owned()));
    store3.remove("x".to_owned()).unwrap();
    assert_eq!(store1.get("x".to_owned()).unwrap(), None);
    assert!(matches!(
        store2.remove("x".to_owned()),
        Err(KvsError::KeyNotFound)
    ));
}

#[test]
fn reply_builders() {
    match kvs::get_reply(Ok(Some("v".to_owned()))) {
        Message::String(s) => assert_eq!(s, "v"),
        _ => panic!("expected a string reply"),
    }
    match kvs::get_reply(Ok(None)) {
        Message::Error(s) => assert_eq!(s, "Key not found"),
        _ => panic!("expected an error reply"),
    }
    match kvs::get_reply(Err(KvsError::Io)) {
        Message::Error(s) => assert_eq!(s, "i/o failure"),
        _ => panic!("expected an error reply"),
    }
    match kvs::set_reply(Ok(())) {
        Message::String(s) => assert_eq!(s, "ok"),
        _ => panic!("expected a string reply"),
    }
    match kvs::set_reply(Err(KvsError::EngineUnavailable)) {
        Message::Error(s) => assert_eq!(s, "engine unavailable"),
        _ => panic!("expected an error reply"),
    }
    match kvs::remove_reply(Ok(Some(()))) {
        Message::String(s) => assert_eq!(s, "ok"),
        _ => panic!("expected a string reply"),
    }
    match kvs::remove_reply(Err(KvsError::KeyNotFound)) {
        Message::Error(s) => assert_eq!(s, "Key not found"),
        _ => panic!("expected an error reply"),
    }
}

#[test]
fn empty_key_and_value() {
    let mut st = State::open(Vec::new()).unwrap();
    st.set(String::new(), String::new()).unwrap();
    assert_eq!(st.get(String::new()).unwrap(), Some(String::new()));
    st.remove(String::new()).unwrap();
    assert_eq!(st.get(String::new()).unwrap(), None);
}

#[test]
fn error_texts() {
    assert_eq!(KvsError::KeyNotFound.text(), "Key not found");
    assert_eq!(KvsError::Encoding.text(), "message too large");
    assert_eq!(KvsError::CorruptLog.text(), "corrupt log record");
}
