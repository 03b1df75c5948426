use cbp::classify::{is_executable_header, is_windows_executable, pe_header_offset};

fn image(offset: u32, characteristics: u16) -> Vec<u8> {
    let mut bytes = vec![0u8; offset as usize + 24];
    bytes[0] = 0x4D;
    bytes[1] = 0x5A;
    bytes[0x3C..0x40].copy_from_slice(&offset.to_le_bytes());
    let at = offset as usize;
    bytes[at..at + 4].copy_from_slice(&[0x50, 0x45, 0x00, 0x00]);
    bytes[at + 22..at + 24].copy_from_slice(&characteristics.to_le_bytes());
    bytes
}

#[test]
fn pe_two_byte_file_is_none() {
    assert!(!is_windows_executable(&[0x4D, 0x5A]));
    assert!(!is_windows_executable(&[]));
}

#[test]
fn pe_garbage_offset_is_none() {
    let mut bytes = vec![0u8; 64];
    bytes[0] = 0x4D;
    bytes[1] = 0x5A;
    bytes[0x3C..0x40].copy_from_slice(&0xFFFF_FFF0u32.to_le_bytes());
    assert!(!is_windows_executable(&bytes));
    bytes[0x3C..0x40].copy_from_slice(&50u32.to_le_bytes());
    assert!(!is_windows_executable(&bytes));
}

#[test]
fn pe_valid_exe_is_recognised() {
    assert!(is_windows_executable(&image(0x80, 0x0102)));
    assert!(is_windows_executable(&image(64, 0x0000)));
}

#[test]
fn pe_valid_dll_is_none() {
    assert!(!is_windows_executable(&image(0x80, 0x2102)));
    assert!(!is_windows_executable(&image(0x80, 0x2000)));
}

#[test]
fn pe_without_dos_signature_is_none() {
    let mut bytes = image(0x80, 0x0102);
    bytes[0] = 0x7F;
    assert!(!is_windows_executable(&bytes));
}

#[test]
fn pe_without_pe_signature_is_none() {
    let mut bytes = image(0x80, 0x0102);
    bytes[0x80 + 3] = 1;
    assert!(!is_windows_executable(&bytes));
}

#[test]
fn pe_truncated_header_is_none() {
    let mut bytes = image(0x80, 0x0102);
    bytes.truncate(0x80 + 23);
    assert!(!is_windows_executable(&bytes));
}

#[test]
fn pe_is_read_in_two_steps() {
    let bytes = image(0x1234, 0x0102);
    assert_eq!(pe_header_offset(&bytes[..64]), Some(0x1234));
    assert_eq!(pe_header_offset(&bytes[..63]), None);
    assert!(is_executable_header(&bytes[0x1234..0x1234 + 24]));
    assert!(!is_executable_header(&bytes[0x1234..0x1234 + 23]));
    let big = 0xFFFF_FFFFu32;
    let mut head = bytes[..64].to_vec();
    head[0x3C..0x40].copy_from_slice(&big.to_le_bytes());
    assert_eq!(pe_header_offset(&head), Some(0xFFFF_FFFF));
}
