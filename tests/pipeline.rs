use redis::cmd::{Cmd, Pipeline};
use redis::parser::parse_redis_value;
use redis::types::Value;

fn get(key: &str) -> Cmd {
    let mut c = Cmd::new();
    c.arg("GET").arg(key);
    c
}

#[test]
fn pipeline_concatenates_commands_in_order() {
    let mut p = Pipeline::new();
    p.add_command(get("a")).add_command(get("b"));
    assert!(!p.is_transaction());
    assert_eq!(
        p.get_packed_pipeline(),
        b"*2\r\n$3\r\nGET\r\n$1\r\na\r\n*2\r\n$3\r\nGET\r\n$1\r\nb\r\n".to_vec()
    );
}

#[test]
fn transaction_is_framed_by_multi_and_exec() {
    let mut p = Pipeline::new();
    p.set_transaction(true).add_command(get("a"));
    assert!(p.is_transaction());
    assert_eq!(
        p.get_packed_pipeline(),
        b"*1\r\n$5\r\nMULTI\r\n*2\r\n$3\r\nGET\r\n$1\r\na\r\n*1\r\n$4\r\nEXEC\r\n".to_vec()
    );
}

#[test]
fn empty_pipeline_packs_to_nothing_or_to_the_frame() {
    let mut p = Pipeline::new();
    assert_eq!(p.get_packed_pipeline(), Vec::<u8>::new());
    p.set_transaction(true);
    assert_eq!(
        p.get_packed_pipeline(),
        b"*1\r\n$5\r\nMULTI\r\n*1\r\n$4\r\nEXEC\r\n".to_vec()
    );
    p.set_transaction(false);
    assert_eq!(p.get_packed_pipeline(), Vec::<u8>::new());
}

#[test]
fn packed_command_reads_back_as_its_arguments() {
    let mut c = Cmd::new();
    c.arg("SET").arg("k").arg(vec![0u8, 13, 10]).arg(-3i64).cursor_arg(9);
    let bytes = c.get_packed_command();
    assert_eq!(
        parse_redis_value(&bytes).unwrap(),
        Value::Bulk(vec![
            Value::Data(b"SET".to_vec()),
            Value::Data(b"k".to_vec()),
            Value::Data(vec![0, 13, 10]),
            Value::Data(b"-3".to_vec()),
            Value::Data(b"9".to_vec()),
        ])
    );
}

#[test]
fn canonical_reply_bytes_read_back() {
    let bytes = b"*6\r\n$-1\r\n:-42\r\n$4\r\na\r\nb\r\n*1\r\n+PONG\r\n+OK\r\n+\xc3\xa9t\xc3\xa9\r\n";
    assert_eq!(
        parse_redis_value(bytes).unwrap(),
        Value::Bulk(vec![
            Value::Nil,
            Value::Int(-42),
            Value::Data(b"a\r\nb".to_vec()),
            Value::Bulk(vec![Value::Status("PONG".to_string())]),
            Value::Okay,
            Value::Status("été".to_string()),
        ])
    );
}
