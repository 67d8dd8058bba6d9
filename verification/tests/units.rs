//! The pieces one by one: hex rendering, checksum records, ordering,
//! serialization.

use crc_dir::hex::to_hex;
use crc_dir::record::FileRecord;
use crc_dir::sort::{record_le_exec, sort_records};
use crc_dir::table::render_csv;

#[test]
fn hex_zero_is_one_digit() {
    assert_eq!(to_hex(0), b"0".to_vec());
}

#[test]
fn hex_has_no_leading_zeros() {
    assert_eq!(to_hex(255), b"ff".to_vec());
    assert_eq!(to_hex(16), b"10".to_vec());
    assert_eq!(to_hex(0x0abc), b"abc".to_vec());
}

#[test]
fn hex_largest_value_is_eight_digits() {
    assert_eq!(to_hex(u32::MAX), b"ffffffff".to_vec());
}

#[test]
fn crc_of_check_string() {
    // The classic CRC-32 check value: the checksum is not the input.
    let r = FileRecord::new(b"n".to_vec(), &b"123456789".to_vec());
    assert_eq!(r.crc, b"cbf43926".to_vec());
}

#[test]
fn crc_of_empty_is_zero() {
    let r = FileRecord::new(b"n".to_vec(), &b"".to_vec());
    assert_eq!(r.crc, b"0".to_vec());
}

#[test]
fn record_comparison_is_by_name_then_crc() {
    let a = FileRecord { name: b"a".to_vec(), crc: b"ff".to_vec() };
    let b = FileRecord { name: b"b".to_vec(), crc: b"00".to_vec() };
    assert!(record_le_exec(&a, &b));
    assert!(!record_le_exec(&b, &a));
    let c = FileRecord { name: b"a".to_vec(), crc: b"00".to_vec() };
    assert!(record_le_exec(&c, &a));
    assert!(!record_le_exec(&a, &c));
}

#[test]
fn shorter_name_sorts_before_its_extension() {
    let mut v = vec![
        FileRecord { name: b"ab".to_vec(), crc: b"0".to_vec() },
        FileRecord { name: b"a".to_vec(), crc: b"0".to_vec() },
    ];
    sort_records(&mut v);
    assert_eq!(v[0].name, b"a".to_vec());
    assert_eq!(v[1].name, b"ab".to_vec());
}

#[test]
fn render_keeps_the_given_order() {
    // Serialization alone does not sort; ordering is the sorter's job.
    let v = vec![
        FileRecord { name: b"z".to_vec(), crc: b"1".to_vec() },
        FileRecord { name: b"a".to_vec(), crc: b"2".to_vec() },
    ];
    let out = render_csv(&v);
    assert_eq!(String::from_utf8(out).unwrap(), "Name,CRC\nz,1\na,2\n");
}

#[test]
fn carriage_return_forces_quoting() {
    let v = vec![FileRecord { name: b"a\rb".to_vec(), crc: b"0".to_vec() }];
    let out = render_csv(&v);
    assert_eq!(out, b"Name,CRC\n\"a\rb\",0\n".to_vec());
}
