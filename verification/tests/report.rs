use learn_os::report::{write_location, write_panic_info, write_u32, Location};

#[test]
fn numbers_are_written_in_decimal() {
    assert_eq!(write_u32(0), b"0");
    assert_eq!(write_u32(7), b"7");
    assert_eq!(write_u32(10), b"10");
    assert_eq!(write_u32(1234), b"1234");
    assert_eq!(write_u32(1_000_000_000), b"1000000000");
    assert_eq!(write_u32(u32::MAX), b"4294967295");
    assert_eq!(write_u32(100_200), b"100200");
}

#[test]
fn a_location_is_file_line_and_column() {
    let location = Location { file: b"src/main.rs", line: 89, column: 5 };
    assert_eq!(write_location(&location), b"src/main.rs:89:5");
    let location = Location { file: b"", line: 0, column: 120 };
    assert_eq!(write_location(&location), b":0:120");
}

#[test]
fn a_panic_is_reported_with_its_place_and_message() {
    let location = Location { file: b"src/main.rs", line: 89, column: 5 };
    assert_eq!(
        write_panic_info(Some(&location), Some(b"false is not true")),
        b"panicked at src/main.rs:89:5:\nfalse is not true"
    );
    assert_eq!(write_panic_info(Some(&location), None), b"panicked at src/main.rs:89:5:");
    assert_eq!(
        write_panic_info(None, Some(b"oh no")),
        b"panicked at (no location info):\noh no"
    );
    assert_eq!(write_panic_info(None, None), b"panicked at (no location info):");
}
