use echo_server::command::{get_reply, Command, InMemStore, RespFrame};
use std::collections::HashMap;

struct TestStore {
    map: HashMap<String, String>,
}

impl InMemStore for TestStore {
    fn set(&mut self, key: String, value: String) -> Option<String> {
        self.map.insert(key, value)
    }

    fn get(&self, key: String) -> Option<String> {
        self.map.get(&key).cloned()
    }
}

fn args(items: &[&str]) -> Result<Vec<String>, String> {
    Ok(items.iter().map(|s| s.to_string()).collect())
}

fn simple(frame: RespFrame) -> String {
    match frame {
        RespFrame::SimpleString(s) => s,
        other => panic!("expected a simple string, got {:?}", other),
    }
}

fn error(frame: RespFrame) -> String {
    match frame {
        RespFrame::Error(s) => s,
        other => panic!("expected an error, got {:?}", other),
    }
}

#[test]
fn ping_is_recognised() {
    assert!(matches!(Command::from_input(args(&["PING"])), Command::Ping));
    assert!(matches!(Command::from_input(args(&["PING", "extra"])), Command::Ping));
}

#[test]
fn get_takes_its_key_in_lower_case() {
    match Command::from_input(args(&["GET", "MyKey"])) {
        Command::Get(k) => assert_eq!(k, "mykey"),
        other => panic!("unexpected {:?}", other),
    }
}

#[test]
fn set_lowers_the_key_but_not_the_value() {
    match Command::from_input(args(&["SET", "KEY", "VALUE"])) {
        Command::SetValue(k, v) => {
            assert_eq!(k, "key");
            assert_eq!(v, "VALUE");
        },
        other => panic!("unexpected {:?}", other),
    }
}

#[test]
fn commands_without_their_arguments_are_unknown() {
    assert!(matches!(Command::from_input(args(&["GET"])), Command::Unknown));
    assert!(matches!(Command::from_input(args(&["SET", "k"])), Command::Unknown));
}

#[test]
fn other_inputs_are_unknown() {
    assert!(matches!(Command::from_input(args(&[])), Command::Unknown));
    assert!(matches!(Command::from_input(args(&["ECHO", "x"])), Command::Unknown));
    assert!(matches!(Command::from_input(args(&["ping"])), Command::Unknown));
    assert!(matches!(Command::from_input(Err("bad".to_string())), Command::Unknown));
}

#[test]
fn ping_is_answered_pong() {
    let store = TestStore { map: HashMap::new() };
    assert_eq!(simple(Command::Ping.execute(store).unwrap()), "PONG");
}

#[test]
fn echo_is_answered_ok() {
    let store = TestStore { map: HashMap::new() };
    assert_eq!(simple(Command::Echo("x".to_string()).execute(store).unwrap()), "Ok");
}

#[test]
fn set_is_answered_ok() {
    let store = TestStore { map: HashMap::new() };
    let cmd = Command::SetValue("k".to_string(), "v".to_string());
    assert_eq!(simple(cmd.execute(store).unwrap()), "OK");
}

#[test]
fn get_finds_the_stored_value_in_lower_case() {
    let mut map = HashMap::new();
    map.insert("k".to_string(), "VaLuE".to_string());
    let store = TestStore { map };
    assert_eq!(simple(Command::Get("k".to_string()).execute(store).unwrap()), "value");
}

#[test]
fn get_of_a_missing_key_is_an_error_naming_it() {
    let store = TestStore { map: HashMap::new() };
    assert_eq!(error(Command::Get("nokey".to_string()).execute(store).unwrap()), "Key not found nokey");
}

#[test]
fn unknown_command_fails() {
    let store = TestStore { map: HashMap::new() };
    assert_eq!(Command::Unknown.execute(store).unwrap_err(), "Unknown command");
}

#[test]
fn get_reply_for_each_lookup_result() {
    let key = "abc".to_string();
    assert_eq!(simple(get_reply(&key, Some("XyZ".to_string()))), "xyz");
    assert_eq!(error(get_reply(&key, None)), "Key not found abc");
}

#[derive(Clone)]
struct SharedStore(std::rc::Rc<std::cell::RefCell<HashMap<String, String>>>);

impl InMemStore for SharedStore {
    fn set(&mut self, key: String, value: String) -> Option<String> {
        self.0.borrow_mut().insert(key, value)
    }

    fn get(&self, key: String) -> Option<String> {
        self.0.borrow().get(&key).cloned()
    }
}

#[test]
fn get_after_set_through_a_shared_store() {
    let h = SharedStore(std::rc::Rc::new(std::cell::RefCell::new(HashMap::new())));
    let set = Command::from_input(args(&["SET", "MYKEY", "HELLO"]));
    assert_eq!(simple(set.execute(h.clone()).unwrap()), "OK");
    let get = Command::from_input(args(&["GET", "MYKEY"]));
    assert_eq!(simple(get.execute(h.clone()).unwrap()), "hello");
    let miss = Command::from_input(args(&["GET", "OTHER"]));
    assert_eq!(error(miss.execute(h).unwrap()), "Key not found other");
}
