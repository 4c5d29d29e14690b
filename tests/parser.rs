use redis::parser::{parse_redis_value, Parser};
use redis::types::{ErrorKind, RedisError, Value};

#[test]
fn test_parse_int() {
    let bytes = ":12\r\n".as_bytes();
    let value = parse_redis_value(bytes).unwrap();
    assert_eq!(value, Value::Int(12i64));
}

#[test]
fn test_parse_ok() {
    let bytes = "+OK\r\n".as_bytes();
    assert_eq!(Value::Okay, parse_redis_value(bytes).unwrap());
}

#[test]
fn test_parse_nil() {
    let bytes1 = "$-1\r\n".as_bytes();
    let bytes2 = "*-1\r\n".as_bytes();
    assert_eq!(Value::Nil, parse_redis_value(bytes1).unwrap());
    assert_eq!(Value::Nil, parse_redis_value(bytes2).unwrap());
}

#[test]
fn test_parse_string() {
    let bytes_nil = "$0\r\n\r\n".as_bytes();
    assert_eq!(Value::Data(vec![]), parse_redis_value(bytes_nil).unwrap());
}

#[test]
fn test_parse_error() {
    let msg1 = "unknown command 'foobar'";
    let msg2 = "Operation against a key holding the wrong kind of value";
    let bytes1 = "-ERR unknown command 'foobar'\r\n".as_bytes();
    let bytes2 =
        "-WRONGTYPE Operation against a key holding the wrong kind of value\r\n".as_bytes();

    let err1 = parse_redis_value(bytes1).err().unwrap();
    assert_eq!(
        RedisError::from((
            ErrorKind::ResponseError,
            "An error was signaled by the server",
            msg1.to_string()
        )),
        err1
    );

    let err2 = parse_redis_value(bytes2).err().unwrap();
    assert_eq!(
        RedisError::from((
            ErrorKind::ExtensionError("WRONGTYPE".to_string()),
            "An error was signaled by the server",
            msg2.to_string()
        )),
        err2
    );
}

#[test]
fn test_bulk() {
    let bulk0 = "*0\r\n".as_bytes();
    let bulk1 = "*2\r\n$3\r\nfoo\r\n$3\r\nbar\r\n".as_bytes();
    let bulk2 = "*5\r\n:1\r\n:2\r\n:3\r\n:4\r\n$6\r\nfoobar\r\n".as_bytes();
    let bulk3 = "*-1\r\n".as_bytes();

    assert_eq!(Value::Bulk(vec![]), parse_redis_value(bulk0).unwrap());
    assert_eq!(
        Value::Bulk(vec![
            Value::Data("foo".as_bytes().to_vec()),
            Value::Data("bar".as_bytes().to_vec())
        ]),
        parse_redis_value(bulk1).unwrap()
    );
    assert_eq!(
        Value::Bulk(vec![
            Value::Int(1i64),
            Value::Int(2i64),
            Value::Int(3i64),
            Value::Int(4i64),
            Value::Data("foobar".as_bytes().to_vec())
        ]),
        parse_redis_value(bulk2).unwrap()
    );
    assert_eq!(Value::Nil, parse_redis_value(bulk3).unwrap());
}

fn response_error(desc: &'static str) -> RedisError {
    RedisError::from((ErrorKind::ResponseError, desc))
}

#[test]
fn status_other_than_ok_is_kept() {
    assert_eq!(
        parse_redis_value(b"+PONG\r\n").unwrap(),
        Value::Status("PONG".to_string())
    );
    assert_eq!(
        parse_redis_value(b"+ok\r\n").unwrap(),
        Value::Status("ok".to_string())
    );
    assert_eq!(
        parse_redis_value("+héllo\r\n".as_bytes()).unwrap(),
        Value::Status("héllo".to_string())
    );
}

#[test]
fn bare_newline_ends_a_line() {
    assert_eq!(parse_redis_value(b"+OK\n").unwrap(), Value::Okay);
    assert_eq!(parse_redis_value(b":7\n").unwrap(), Value::Int(7));
}

#[test]
fn carriage_return_must_precede_newline() {
    assert_eq!(
        parse_redis_value(b"+OK\rX").unwrap_err(),
        response_error("Invalid byte in Response")
    );
}

#[test]
fn integers_are_signed_and_trimmed() {
    assert_eq!(parse_redis_value(b":-7\r\n").unwrap(), Value::Int(-7));
    assert_eq!(parse_redis_value(b":+7\r\n").unwrap(), Value::Int(7));
    assert_eq!(parse_redis_value(b": 12 \r\n").unwrap(), Value::Int(12));
    assert_eq!(
        parse_redis_value(b":-9223372036854775808\r\n").unwrap(),
        Value::Int(i64::MIN)
    );
    assert_eq!(
        parse_redis_value(b":9223372036854775808\r\n").unwrap_err(),
        response_error("Expected integer, got garbage")
    );
}

#[test]
fn garbage_integer_is_a_response_error() {
    let e = parse_redis_value(b":abc\r\n").unwrap_err();
    assert_eq!(e, response_error("Expected integer, got garbage"));
    assert_eq!(e.kind, ErrorKind::ResponseError);
    assert_eq!(
        parse_redis_value(b":\r\n").unwrap_err(),
        response_error("Expected integer, got garbage")
    );
    assert_eq!(
        parse_redis_value(b":-\r\n").unwrap_err(),
        response_error("Expected integer, got garbage")
    );
}

#[test]
fn short_bulk_string_fails() {
    assert_eq!(
        parse_redis_value(b"$10\r\nabc").unwrap_err(),
        response_error("Could not read enough bytes")
    );
    assert_eq!(
        parse_redis_value(b"$3\r\nabc").unwrap_err(),
        response_error("Could not read enough bytes")
    );
    assert_eq!(
        parse_redis_value(b"$3\r\nabcX\n").unwrap_err(),
        response_error("Invalid byte in Response")
    );
    assert_eq!(
        parse_redis_value(b"$3\r\nabc\rX").unwrap_err(),
        response_error("Invalid byte in Response")
    );
}

#[test]
fn bulk_string_is_binary_safe() {
    assert_eq!(
        parse_redis_value(b"$4\r\n\r\n\xff\x00\r\n").unwrap(),
        Value::Data(vec![13, 10, 255, 0])
    );
}

#[test]
fn unknown_tag_and_empty_input_fail() {
    assert_eq!(
        parse_redis_value(b"!x\r\n").unwrap_err(),
        response_error("Invalid response when parsing value")
    );
    assert_eq!(
        parse_redis_value(b"").unwrap_err(),
        response_error("Could not read enough bytes")
    );
    assert_eq!(
        parse_redis_value(b"*2\r\n:1\r\n").unwrap_err(),
        response_error("Could not read enough bytes")
    );
}

#[test]
fn invalid_utf8_line_is_a_type_error() {
    let e = parse_redis_value(b"+\xff\r\n").unwrap_err();
    assert_eq!(e.kind, ErrorKind::TypeError);
    assert_eq!(e.desc, "Invalid UTF-8");
    let e = parse_redis_value(b":\xff1\r\n").unwrap_err();
    assert_eq!(e.kind, ErrorKind::TypeError);
}

#[test]
fn server_error_codes_are_classified() {
    let desc = "An error was signaled by the server";
    assert_eq!(
        parse_redis_value(b"-ERR unknown command 'x'\r\n").unwrap_err(),
        RedisError::from((ErrorKind::ResponseError, desc, "unknown command 'x'".to_string()))
    );
    assert_eq!(
        parse_redis_value(b"-WRONGTYPE bad op\r\n").unwrap_err(),
        RedisError::from((
            ErrorKind::ExtensionError("WRONGTYPE".to_string()),
            desc,
            "bad op".to_string()
        ))
    );
    assert_eq!(
        parse_redis_value(b"-EXECABORT Transaction discarded\r\n").unwrap_err().kind,
        ErrorKind::ExecAbortError
    );
    assert_eq!(
        parse_redis_value(b"-LOADING busy\r\n").unwrap_err().kind,
        ErrorKind::BusyLoadingError
    );
    assert_eq!(
        parse_redis_value(b"-NOSCRIPT No matching script\r\n").unwrap_err().kind,
        ErrorKind::NoScriptError
    );
    assert_eq!(
        parse_redis_value(b"-ERR\r\n").unwrap_err(),
        RedisError::from((ErrorKind::ResponseError, desc))
    );
    assert_eq!(
        parse_redis_value(b"-ERR a b  c\r\n").unwrap_err().detail,
        Some("a b  c".to_string())
    );
}

#[test]
fn nested_arrays_decode() {
    assert_eq!(
        parse_redis_value(b"*2\r\n*1\r\n+OK\r\n$-1\r\n").unwrap(),
        Value::Bulk(vec![Value::Bulk(vec![Value::Okay]), Value::Nil])
    );
    assert_eq!(parse_redis_value(b"*0\r\n").unwrap(), Value::Bulk(vec![]));
}

#[test]
fn parser_stops_after_each_value() {
    let bytes = b":1\r\n+OK\r\n$-1\r\n";
    let mut p = Parser::new(bytes);
    assert_eq!(p.parse_value().unwrap(), Value::Int(1));
    assert_eq!(p.position(), 4);
    assert_eq!(p.parse_value().unwrap(), Value::Okay);
    assert_eq!(p.parse_value().unwrap(), Value::Nil);
    assert_eq!(p.position(), bytes.len());
    assert_eq!(
        p.parse_value().unwrap_err(),
        response_error("Could not read enough bytes")
    );
}

#[test]
fn values_clone_at_every_depth() {
    let v = Value::Bulk(vec![
        Value::Bulk(vec![Value::Data(vec![1, 2]), Value::Nil]),
        Value::Status("x".to_string()),
        Value::Int(-1),
        Value::Okay,
    ]);
    assert_eq!(v.clone(), v);
}

fn nested(levels: usize) -> Vec<u8> {
    let mut bytes = Vec::new();
    for _ in 0..levels {
        bytes.extend_from_slice(b"*1\r\n");
    }
    bytes.extend_from_slice(b":1\r\n");
    bytes
}

#[test]
fn nesting_up_to_the_limit_decodes() {
    let mut v = parse_redis_value(&nested(512)).unwrap();
    let mut depth = 0;
    while let Value::Bulk(mut items) = v {
        assert_eq!(items.len(), 1);
        v = items.pop().unwrap();
        depth += 1;
    }
    assert_eq!(depth, 512);
    assert_eq!(v, Value::Int(1));
}

#[test]
fn nesting_beyond_the_limit_fails() {
    assert_eq!(
        parse_redis_value(&nested(513)).unwrap_err(),
        response_error("Response nested too deeply")
    );
}
