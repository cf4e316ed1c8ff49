use echo_server::command::{InMemStore, RespFrame};
use echo_server::mem_store::Mem;
use echo_server::server::{connection_response, get_command, handle_request, read_resp_request, set_command, write_frames};

#[test]
fn simple_string_is_written_over_the_start_of_the_buffer() {
    let mut out = vec![0u8; 10];
    write_frames(&RespFrame::SimpleString("PONG".to_string()), &mut out).unwrap();
    assert_eq!(&out[..7], b"+PONG\r\n");
    assert_eq!(&out[7..], &[0u8, 0, 0]);
}

#[test]
fn error_is_written_with_a_minus() {
    let mut out = vec![0u8; 4096];
    write_frames(&RespFrame::Error("Key not found k".to_string()), &mut out).unwrap();
    assert_eq!(&out[..18], b"-Key not found k\r\n");
    assert!(out[18..].iter().all(|b| *b == 0));
}

#[test]
fn non_ascii_text_is_written_as_utf8() {
    let mut out = vec![7u8; 8];
    write_frames(&RespFrame::SimpleString("é".to_string()), &mut out).unwrap();
    assert_eq!(&out[..5], "+é\r\n".as_bytes());
    assert_eq!(&out[5..], &[7u8, 7, 7]);
}

#[test]
fn too_small_buffer_is_left_alone() {
    let mut out: Vec<u8> = Vec::new();
    let err = write_frames(&RespFrame::SimpleString("OK".to_string()), &mut out).unwrap_err();
    assert_eq!(err, "Failed to encode frame: Buffer too small: ");
    assert!(out.is_empty());
    let mut out = vec![1u8, 2, 3, 4];
    assert!(write_frames(&RespFrame::SimpleString("OK".to_string()), &mut out).is_err());
    assert_eq!(out, vec![1u8, 2, 3, 4]);
}

#[test]
fn get_command_answers_lower_case_value_or_nil() {
    let mut m = Mem::new();
    m.set("key", "VALUE");
    let r = get_command(&m, "KEY".to_string());
    assert_eq!(r.status, "HTTP/1.1 200 OK ");
    assert_eq!(r.body, "+value\r\n");
    let r = get_command(&m, "other".to_string());
    assert_eq!(r.body, "$-1\r\n");
}

#[test]
fn set_command_stores_lower_case_key_and_value() {
    let mut m = Mem::new();
    let r = set_command("KEY".to_string(), "VALUE".to_string(), &mut m);
    assert_eq!(r.status, "HTTP/1.1 200 OK");
    assert_eq!(r.body, "write success ");
    assert_eq!(m.get("key"), Some("value".to_string()));
}

fn req(items: &[&str]) -> Result<Vec<String>, String> {
    Ok(items.iter().map(|s| s.to_string()).collect())
}

#[test]
fn connection_set_then_get() {
    let mut m = Mem::new();
    assert_eq!(connection_response(req(&["SET", "K", "V"]), &mut m), "+OK\r\n");
    assert_eq!(connection_response(req(&["GET", "K"]), &mut m), "+v\r\n");
}

#[test]
fn connection_other_replies() {
    let mut m = Mem::new();
    assert_eq!(connection_response(req(&["PING"]), &mut m), "+PONG\r\n");
    assert_eq!(connection_response(req(&["GET"]), &mut m), "");
    assert_eq!(connection_response(req(&["GET", "missing"]), &mut m), "$-1\r\n");
    assert_eq!(connection_response(req(&["HELLO"]), &mut m), "$-1\r\n");
    assert_eq!(connection_response(req(&[]), &mut m), "$-1\r\n");
    assert_eq!(connection_response(Err("bad".to_string()), &mut m), "");
}

#[test]
fn connection_set_without_value_stores_empty() {
    let mut m = Mem::new();
    assert_eq!(connection_response(req(&["SET", "K"]), &mut m), "+OK\r\n");
    assert_eq!(m.get("k"), Some(String::new()));
    assert_eq!(connection_response(req(&["SET"]), &mut m), "+OK\r\n");
    assert_eq!(m.get(""), Some(String::new()));
}

#[test]
fn request_read_and_answered_end_to_end() {
    let mut m = Mem::new();
    let set = read_resp_request(b"*3\r\n$3\r\nset\r\n$3\r\nfoo\r\n$3\r\nBar\r\n");
    assert_eq!(connection_response(set, &mut m), "+OK\r\n");
    let get = read_resp_request(b"*2\r\n$3\r\nGET\r\n$3\r\nFOO\r\n");
    assert_eq!(connection_response(get, &mut m), "+bar\r\n");
}

#[test]
fn response_bytes_are_exactly_the_reply() {
    let bytes = echo_server::server::response_bytes(&RespFrame::SimpleString("PONG".to_string()));
    assert_eq!(bytes, b"+PONG\r\n".to_vec());
    let bytes = echo_server::server::response_bytes(&RespFrame::Error("Key not found k".to_string()));
    assert_eq!(bytes, b"-Key not found k\r\n".to_vec());
}

#[test]
fn response_bytes_of_a_long_reply() {
    let big = "x".repeat(5000);
    let bytes = echo_server::server::response_bytes(&RespFrame::SimpleString(big.clone()));
    assert_eq!(bytes.len(), 5003);
    assert_eq!(&bytes[1..5001], big.as_bytes());
}

#[test]
fn connection_set_then_get_hello() {
    let mut m = Mem::new();
    let set = read_resp_request(b"*3\r\n$3\r\nSET\r\n$5\r\nmykey\r\n$5\r\nHello\r\n");
    assert_eq!(connection_response(set, &mut m), "+OK\r\n");
    let get = read_resp_request(b"*2\r\n$3\r\nGET\r\n$5\r\nmykey\r\n");
    assert_eq!(connection_response(get, &mut m), "+hello\r\n");
}

#[test]
fn get_command_after_set_command() {
    let mut m = Mem::new();
    set_command("Key".to_string(), "Value".to_string(), &mut m);
    assert_eq!(get_command(&m, "KEY".to_string()).body, "+value\r\n");
}

#[test]
fn handle_request_runs_the_command_against_the_store() {
    let mut m = Mem::new();
    m.set("mykey", "HELLO");
    match handle_request(b"*2\r\n$3\r\nget\r\n$5\r\nmykey\r\n", m) {
        Some(RespFrame::SimpleString(s)) => assert_eq!(s, "hello"),
        other => panic!("unexpected {:?}", other),
    }
    match handle_request(b"*1\r\n$4\r\nping\r\n", Mem::new()) {
        Some(RespFrame::SimpleString(s)) => assert_eq!(s, "PONG"),
        other => panic!("unexpected {:?}", other),
    }
    match handle_request(b"*2\r\n$3\r\nGET\r\n$1\r\nk\r\n", Mem::new()) {
        Some(RespFrame::Error(s)) => assert_eq!(s, "Key not found k"),
        other => panic!("unexpected {:?}", other),
    }
    assert!(handle_request(b"*1\r\n$4\r\nECHO\r\n", Mem::new()).is_none());
    assert!(handle_request(b"garbage", Mem::new()).is_none());
}

#[test]
fn mem_as_a_command_store_sets_under_the_lower_case_key() {
    let mut m = Mem::new();
    assert_eq!(InMemStore::set(&mut m, "KEY".to_string(), "V1".to_string()), None);
    assert_eq!(InMemStore::set(&mut m, "key".to_string(), "V2".to_string()), Some("V1".to_string()));
    assert_eq!(InMemStore::get(&m, "key".to_string()), Some("V2".to_string()));
    assert_eq!(InMemStore::get(&m, "KEY".to_string()), None);
}
