use benchmark::{
    decode_keys, encode_keys, load_keys, parse_decimal, sequential_key, workload_key_count,
    ycsb_line_keys, LoadError, YcsbError,
};

#[test]
fn keys_are_big_endian() {
    let bytes = encode_keys(&vec![0x0102030405060708, 42]);
    assert_eq!(bytes, vec![1, 2, 3, 4, 5, 6, 7, 8, 0, 0, 0, 0, 0, 0, 0, 42]);
    assert_eq!(encode_keys(&vec![u64::MAX]), vec![255; 8]);
    assert_eq!(encode_keys(&Vec::new()), Vec::<u8>::new());
    for k in [0u64, 1, 255, 256, 0xdead_beef_0000_0001, u64::MAX] {
        assert_eq!(encode_keys(&vec![k]), k.to_be_bytes().to_vec());
    }
}

#[test]
fn decoding_reads_full_groups_only() {
    let mut bytes = encode_keys(&vec![7, 0x0102030405060708, u64::MAX]);
    assert_eq!(decode_keys(&bytes), vec![7, 0x0102030405060708, u64::MAX]);
    bytes.extend_from_slice(&[9, 9, 9]);
    assert_eq!(decode_keys(&bytes), vec![7, 0x0102030405060708, u64::MAX]);
    assert_eq!(decode_keys(&vec![1, 2, 3, 4, 5, 6, 7]), Vec::<u64>::new());
}

#[test]
fn load_checks_the_key_count() {
    let bytes = encode_keys(&vec![3, 1, 2]);
    assert_eq!(load_keys(&bytes, 3), Ok(vec![3, 1, 2]));
    assert_eq!(load_keys(&bytes, 4), Err(LoadError::WrongKeyCount { found: 3, expected: 4 }));
    assert_eq!(load_keys(&Vec::new(), 0), Ok(Vec::new()));
}

#[test]
fn sequential_keys_wrap_at_the_population_size() {
    assert_eq!(sequential_key(0), 0);
    assert_eq!(sequential_key(249_999_999), 249_999_999);
    assert_eq!(sequential_key(250_000_000), 0);
    assert_eq!(sequential_key(250_000_001), 1);
    assert_eq!(sequential_key(999_999_999), 249_999_999);
}

#[test]
fn workload_names() {
    assert_eq!(workload_key_count("load"), Some(250_000_000));
    assert_eq!(workload_key_count("run"), Some(1_000_000_000));
    assert_eq!(workload_key_count("Load"), None);
    assert_eq!(workload_key_count(""), None);
}

#[test]
fn decimal_numerals() {
    let d = |s: &str| parse_decimal(&s.chars().collect());
    assert_eq!(d("0"), Some(0));
    assert_eq!(d("12345"), Some(12345));
    assert_eq!(d("007"), Some(7));
    assert_eq!(d("18446744073709551615"), Some(u64::MAX));
    assert_eq!(d("18446744073709551616"), None);
    assert_eq!(d(""), None);
    assert_eq!(d("12a"), None);
    assert_eq!(d("+1"), None);
}

#[test]
fn ycsb_lines() {
    assert_eq!(
        ycsb_line_keys("READ usertable user6284781860667377211 [ <all fields>]"),
        Ok(vec![6284781860667377211])
    );
    assert_eq!(ycsb_line_keys("INSERT usertable user42 [ field0=x ]"), Ok(vec![42]));
    assert_eq!(ycsb_line_keys("[OVERALL], RunTime(ms), 1234"), Ok(Vec::new()));
    assert_eq!(ycsb_line_keys("usertable user1 then usertable user22"), Ok(vec![22]));
    assert_eq!(
        ycsb_line_keys("UPDATE usertable user99999999999999999999 x"),
        Err(YcsbError::UserId)
    );
}
