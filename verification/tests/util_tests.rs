use qbank::files::{format_file_size, is_valid_extension, truncate_string};
use qbank::utils::{generate_id, rand_bytes};
use sha2::Digest;

#[test]
fn file_sizes_render_by_unit() {
    assert_eq!(format_file_size(0), "0 B");
    assert_eq!(format_file_size(512), "512 B");
    assert_eq!(format_file_size(1023), "1023 B");
    assert_eq!(format_file_size(1024), "1.00 KB");
    assert_eq!(format_file_size(1536), "1.50 KB");
    assert_eq!(format_file_size(2048), "2.00 KB");
    assert_eq!(format_file_size(1024 * 1024), "1.00 MB");
    assert_eq!(format_file_size(5 * 1024 * 1024 + 256 * 1024), "5.25 MB");
    assert_eq!(format_file_size(1024 * 1024 * 1024), "1.00 GB");
    assert_eq!(format_file_size(3 * 1024 * 1024 * 1024 / 2), "1.50 GB");
}

#[test]
fn truncation_keeps_short_strings() {
    assert_eq!(truncate_string("hello", 10), "hello");
    assert_eq!(truncate_string("hello", 5), "hello");
    // a budget under three is fine for a string that already fits it
    assert_eq!(truncate_string("hi", 2), "hi");
    assert_eq!(truncate_string("", 0), "");
}

#[test]
fn truncation_cuts_with_ellipsis() {
    assert_eq!(truncate_string("hello world", 8), "hello...");
    assert_eq!(truncate_string("abcdef", 3), "...");
}

#[test]
fn extensions_are_checked_case_insensitively() {
    assert!(is_valid_extension("notes.pdf"));
    assert!(is_valid_extension("notes.PDF"));
    assert!(is_valid_extension("slides.PpTx"));
    assert!(is_valid_extension("dir/file.txt"));
    assert!(!is_valid_extension("image.png"));
    assert!(!is_valid_extension("noextension"));
    assert!(!is_valid_extension(".hidden"));
    assert!(!is_valid_extension("dir.pdf/file"));
}

#[test]
fn ids_are_ten_hex_digits_from_the_digest() {
    let id = generate_id(123456789);
    assert_eq!(id.len(), 10);
    assert!(id.chars().all(|c| c.is_ascii_hexdigit()));
    // the id is the first five digest bytes of SHA-256 over the clock
    // reading's sixteen little-endian bytes plus its first eight again
    let nanos: u128 = 123456789;
    let mut data = nanos.to_le_bytes().to_vec();
    data.extend_from_slice(&nanos.to_le_bytes()[..8]);
    let digest = sha2::Sha256::digest(&data);
    assert_eq!(id, hex::encode(&digest[..5]));
}

#[test]
fn ids_depend_on_their_input() {
    assert_eq!(generate_id(42), generate_id(42));
    assert_ne!(generate_id(42), generate_id(43));
}

#[test]
fn entropy_bytes_are_little_endian() {
    assert_eq!(rand_bytes(0x0102030405060708), vec![8, 7, 6, 5, 4, 3, 2, 1]);
    assert_eq!(rand_bytes(0xFF), vec![255, 0, 0, 0, 0, 0, 0, 0]);
}
