use redis::cmd::{bulklen, Cmd};
use redis::text::countdigits;
use redis::types::{NumericBehavior, ToRedisArgs};

#[test]
fn test_cmd_ser() {
    let mut cmd = Cmd::new();
    cmd.arg("SET").arg("my_key").arg(42);
    let serialized_cmd = "*3\r\n\
                          $3\r\nSET\r\n\
                          $6\r\nmy_key\r\n\
                          $2\r\n42\r\n"
        .as_bytes();
    assert_eq!(cmd.get_packed_command(), serialized_cmd);
}

#[test]
fn digit_counts_match_decimal_text() {
    for v in [0u64, 1, 9, 10, 99, 100, 999, 1000, 9999, 10000, 12345, 99999999, 100000000, u64::MAX] {
        assert_eq!(countdigits(v), v.to_string().len(), "{}", v);
    }
    assert_eq!(countdigits(0), 1);
    assert_eq!(countdigits(u64::MAX), 20);
}

#[test]
fn bulk_length_counts_header_payload_and_delimiters() {
    assert_eq!(bulklen(3), 9);
    assert_eq!(bulklen(0), 6);
    assert_eq!(bulklen(12), 19);
}

#[test]
fn empty_command_packs_to_empty_array() {
    let cmd = Cmd::new();
    assert_eq!(cmd.get_packed_command(), b"*0\r\n".to_vec());
    assert!(!cmd.in_scan_mode());
}

#[test]
fn cursor_is_rendered_when_packed() {
    let mut cmd = Cmd::new();
    cmd.arg("SCAN").cursor_arg(0).arg("COUNT").arg(10u32);
    assert!(cmd.in_scan_mode());
    assert_eq!(
        cmd.get_packed_command(),
        b"*4\r\n$4\r\nSCAN\r\n$1\r\n0\r\n$5\r\nCOUNT\r\n$2\r\n10\r\n".to_vec()
    );
    assert_eq!(
        cmd.get_packed_command_with_cursor(42),
        Some(b"*4\r\n$4\r\nSCAN\r\n$2\r\n42\r\n$5\r\nCOUNT\r\n$2\r\n10\r\n".to_vec())
    );
    assert_eq!(
        cmd.get_packed_command_with_cursor(1234567890),
        Some(b"*4\r\n$4\r\nSCAN\r\n$10\r\n1234567890\r\n$5\r\nCOUNT\r\n$2\r\n10\r\n".to_vec())
    );
}

#[test]
fn recorded_cursor_is_used_by_default() {
    let mut cmd = Cmd::new();
    cmd.arg("SSCAN").arg("set").cursor_arg(77);
    assert_eq!(
        cmd.get_packed_command(),
        b"*3\r\n$5\r\nSSCAN\r\n$3\r\nset\r\n$2\r\n77\r\n".to_vec()
    );
}

#[test]
fn cursor_repacking_without_cursor_is_not_applicable() {
    let mut cmd = Cmd::new();
    cmd.arg("GET").arg("k");
    assert_eq!(cmd.get_packed_command_with_cursor(42), None);
}

#[test]
fn two_element_sequence_expands_to_two_arguments() {
    let mut a = Cmd::new();
    a.arg("DEL").arg(vec!["k1", "k2"]);
    let mut b = Cmd::new();
    b.arg("DEL").arg("k1").arg("k2");
    assert_eq!(a.get_packed_command(), b.get_packed_command());
    assert_eq!(
        a.get_packed_command(),
        b"*3\r\n$3\r\nDEL\r\n$2\r\nk1\r\n$2\r\nk2\r\n".to_vec()
    );
    assert!(!vec!["k1", "k2"].is_single_arg());
}

#[test]
fn one_element_sequence_acts_as_a_scalar() {
    let mut a = Cmd::new();
    a.arg("GET").arg(vec![5i64]);
    let mut b = Cmd::new();
    b.arg("GET").arg(5i64);
    assert_eq!(a.get_packed_command(), b.get_packed_command());
    assert!(vec![5i64].is_single_arg());
    assert!(!vec![vec![1i64, 2]].is_single_arg());
}

#[test]
fn empty_sequence_gives_no_argument() {
    let v: Vec<String> = Vec::new();
    assert_eq!(v.to_redis_args(), Vec::<Vec<u8>>::new());
    assert!(!v.is_single_arg());
}

#[test]
fn integers_convert_to_decimal_text() {
    assert_eq!(42i32.to_redis_args(), vec![b"42".to_vec()]);
    assert_eq!((-5i8).to_redis_args(), vec![b"-5".to_vec()]);
    assert_eq!(0u16.to_redis_args(), vec![b"0".to_vec()]);
    assert_eq!(i64::MIN.to_redis_args(), vec![b"-9223372036854775808".to_vec()]);
    assert_eq!(u64::MAX.to_redis_args(), vec![b"18446744073709551615".to_vec()]);
    assert_eq!(usize::MAX.to_redis_args(), vec![usize::MAX.to_string().into_bytes()]);
    assert_eq!((-1isize).to_redis_args(), vec![b"-1".to_vec()]);
    assert_eq!(70000u32.to_redis_args(), vec![b"70000".to_vec()]);
    assert_eq!((-32768i16).to_redis_args(), vec![b"-32768".to_vec()]);
    assert_eq!(7i64.describe_numberic_behavior(), NumericBehavior::NumericInteger);
    assert_eq!(7usize.describe_numberic_behavior(), NumericBehavior::NumericInteger);
}

#[test]
fn booleans_convert_to_their_text() {
    assert_eq!(true.to_redis_args(), vec![b"true".to_vec()]);
    assert_eq!(false.to_redis_args(), vec![b"false".to_vec()]);
    assert_eq!(true.describe_numberic_behavior(), NumericBehavior::NonNumeric);
}

#[test]
fn bytes_are_binary_payload() {
    assert_eq!(7u8.to_redis_args(), vec![vec![7u8]]);
    let blob: Vec<u8> = vec![0, 255, 13, 10];
    assert_eq!(blob.to_redis_args(), vec![vec![0u8, 255, 13, 10]]);
    assert!(blob.is_single_arg());
    let mut cmd = Cmd::new();
    cmd.arg("SET").arg(blob);
    assert_eq!(
        cmd.get_packed_command(),
        b"*2\r\n$3\r\nSET\r\n$4\r\n\x00\xff\r\n\r\n".to_vec()
    );
    assert_eq!(7u8.describe_numberic_behavior(), NumericBehavior::NonNumeric);
}

#[test]
fn strings_pass_through_as_utf8() {
    let s = String::from("héllo");
    assert_eq!(s.to_redis_args(), vec!["héllo".as_bytes().to_vec()]);
    assert_eq!((&s).to_redis_args(), vec!["héllo".as_bytes().to_vec()]);
    assert_eq!("".to_redis_args(), vec![Vec::<u8>::new()]);
    assert!("x".is_single_arg());
}

#[test]
fn options_vanish_or_delegate() {
    let none: Option<i32> = None;
    assert_eq!(none.to_redis_args(), Vec::<Vec<u8>>::new());
    assert!(!none.is_single_arg());
    assert_eq!(none.describe_numberic_behavior(), NumericBehavior::NonNumeric);
    assert_eq!(Some(3i32).to_redis_args(), vec![b"3".to_vec()]);
    assert!(Some(3i32).is_single_arg());
    assert_eq!(Some(3i32).describe_numberic_behavior(), NumericBehavior::NumericInteger);
}

#[test]
fn tuples_concatenate_their_components() {
    assert_eq!((1i32, "x").to_redis_args(), vec![b"1".to_vec(), b"x".to_vec()]);
    assert!(!(1i32, "x").is_single_arg());
    assert!((1i32,).is_single_arg());
    let t = (1u8, 2u16, 3u32, 4u64, 5i8, 6i16, 7i32, 8i64, 9usize, 10isize, true, "z");
    assert_eq!(t.to_redis_args().len(), 12);
    assert_eq!(t.to_redis_args()[9], b"10".to_vec());
    assert_eq!(t.to_redis_args()[11], b"z".to_vec());
}

#[test]
fn arrays_and_slices_behave_like_sequences() {
    let arr = [1i32, 2, 3];
    assert_eq!(
        (&arr).to_redis_args(),
        vec![b"1".to_vec(), b"2".to_vec(), b"3".to_vec()]
    );
    let one = [9i32];
    assert!((&one).is_single_arg());
    let sl: &[i32] = &arr[..2];
    assert_eq!(sl.to_redis_args(), vec![b"1".to_vec(), b"2".to_vec()]);
    let bytes: &[u8] = b"ab";
    assert_eq!(bytes.to_redis_args(), vec![b"ab".to_vec()]);
}
