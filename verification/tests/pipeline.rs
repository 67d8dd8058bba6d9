//! End-to-end behaviour of the library on concrete record sets.

use crc_dir::pipeline::ResultTable;
use crc_dir::record::FileRecord;

fn record(name: &str, contents: &str) -> FileRecord {
    FileRecord::new(name.as_bytes().to_vec(), &contents.as_bytes().to_vec())
}

fn output(records: Vec<FileRecord>) -> String {
    let mut table = ResultTable::new();
    for r in records {
        table.publish(r);
    }
    table.finalize();
    String::from_utf8(table.output()).unwrap()
}

#[test]
fn empty_file_row() {
    let out = output(vec![record("empty.txt", "")]);
    assert_eq!(out, "Name,CRC\nempty.txt,0\n");
}

#[test]
fn no_records_only_header() {
    let out = output(vec![]);
    assert_eq!(out, "Name,CRC\n");
}

#[test]
fn same_contents_same_crc() {
    let out = output(vec![record("a.txt", "123456789"), record("b.txt", "123456789")]);
    assert_eq!(out, "Name,CRC\na.txt,cbf43926\nb.txt,cbf43926\n");
}

#[test]
fn rows_sorted_by_name() {
    let out = output(vec![record("foo", "A"), record("bar", "A")]);
    assert_eq!(out, "Name,CRC\nbar,d3d99e8b\nfoo,d3d99e8b\n");
}

#[test]
fn comma_name_is_quoted() {
    let out = output(vec![record("name,with,commas.txt", "")]);
    assert_eq!(out, "Name,CRC\n\"name,with,commas.txt\",0\n");
}

#[test]
fn quote_in_name_is_doubled() {
    let out = output(vec![record("he\"llo", "")]);
    assert_eq!(out, "Name,CRC\n\"he\"\"llo\",0\n");
}

#[test]
fn newline_in_name_is_quoted() {
    let out = output(vec![record("a\nb", "")]);
    assert_eq!(out, "Name,CRC\n\"a\nb\",0\n");
}

#[test]
fn output_independent_of_publication_order() {
    let one = output(vec![record("foo", "A"), record("bar", "B"), record("baz", "C")]);
    let two = output(vec![record("baz", "C"), record("foo", "A"), record("bar", "B")]);
    assert_eq!(one, two);
}

#[test]
fn crc_tie_broken_by_hex_bytes_not_value() {
    // The checksum field is compared as bytes, so "10" sorts before "9".
    let a = FileRecord { name: b"x".to_vec(), crc: b"9".to_vec() };
    let b = FileRecord { name: b"x".to_vec(), crc: b"10".to_vec() };
    let out = output(vec![a, b]);
    assert_eq!(out, "Name,CRC\nx,10\nx,9\n");
}

#[test]
fn duplicate_names_both_kept() {
    let out = output(vec![record("same", "A"), record("same", "A")]);
    assert_eq!(out, "Name,CRC\nsame,d3d99e8b\nsame,d3d99e8b\n");
}

#[test]
fn thousand_distinct_files() {
    let mut table = ResultTable::new();
    for i in 0..1000 {
        let name = format!("f{:04}", i);
        let contents = format!("contents number {}", i);
        table.publish(FileRecord::new(name.into_bytes(), &contents.into_bytes()));
    }
    assert_eq!(table.len(), 1000);
    table.finalize();
    let text = String::from_utf8(table.output()).unwrap();
    let lines: Vec<&str> = text.lines().collect();
    assert_eq!(lines.len(), 1001);
    assert_eq!(lines[0], "Name,CRC");
    let mut previous: Option<(&str, &str)> = None;
    for line in &lines[1..] {
        let (name, crc) = line.split_once(',').unwrap();
        assert!(1 <= crc.len() && crc.len() <= 8);
        assert!(crc.bytes().all(|b| b.is_ascii_digit() || (b'a'..=b'f').contains(&b)));
        if let Some(p) = previous {
            assert!(p <= (name, crc));
        }
        previous = Some((name, crc));
    }
}
