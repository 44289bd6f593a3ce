use localhost_build::crc32::Crc32Table;

#[test]
pub fn one_byte_change_changes_the_result() {
    let table = Crc32Table::default();
    let value1 = (0..200).map(|i| i + 9).collect::<Vec<u8>>();
    let mut value2 = (0..200).map(|i| i + 9).collect::<Vec<u8>>();
    *value2.get_mut(199).unwrap() = 13;

    assert_ne!(table.calculate(&value1), table.calculate(&value2));
}

#[test]
pub fn no_change_returns_same_result() {
    let table = Crc32Table::default();
    let value1 = (0..200).map(|i| i + 5).collect::<Vec<u8>>();
    let value2 = (0..200).map(|i| i + 5).collect::<Vec<u8>>();

    assert_eq!(table.calculate(&value1), table.calculate(&value2));
}

#[test]
pub fn checksum_of_the_standard_check_input() {
    let table = Crc32Table::default();
    assert_eq!(table.calculate(b"123456789"), 0xCBF4_3926);
    assert_eq!(table.calculate(b""), 0);
    assert!(table.compare(b"123456789", 0xCBF4_3926));
    assert!(!table.compare(b"123456780", 0xCBF4_3926));
}
