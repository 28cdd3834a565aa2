use adbian::args::{split_range, two_numbers};
use adbian::listing::{decode_listing, split_listing};
use adbian::number::parse_num;
use adbian::path::{parent_of, resolve_dir, resolve_path};
use adbian::search::{find_bytes, parse_hex};
use adbian::wire::frame;

#[test]
fn frame_prefixes_big_endian_length() {
    assert_eq!(frame(b"hi"), vec![0, 0, 0, 2, b'h', b'i']);
    assert_eq!(&frame(&[0u8; 300])[..4], &[0, 0, 1, 44]);
}

#[test]
fn resolve_absolute_vs_relative() {
    assert_eq!(resolve_path("Z:\\", "C:\\Data\\x.txt"), "C:\\Data\\x.txt");
    assert_eq!(resolve_path("Z:\\", "system"), "Z:\\system");
    assert_eq!(resolve_path("Z:\\sys\\", "bin"), "Z:\\sys\\bin");
}

#[test]
fn dir_always_ends_in_sep() {
    assert_eq!(resolve_dir("Z:\\", "system"), "Z:\\system\\");
    assert_eq!(resolve_dir("Z:\\sys\\", "bin"), "Z:\\sys\\bin\\");
}

#[test]
fn parent_walks_up_and_stops_at_root() {
    assert_eq!(parent_of("Z:\\sys\\bin\\"), "Z:\\sys\\");
    assert_eq!(parent_of("Z:\\sys\\"), "Z:\\");
    assert_eq!(parent_of("Z:\\"), "Z:\\");
}

#[test]
fn a_range_whose_offset_reads_like_its_length_still_keeps_the_path() {
    // The chunked pull that found this: 64 KB at offset 64 KB.
    assert_eq!(
        split_range("C:\\Data\\_app_install\\cal.sis 65536 65536"),
        ("C:\\Data\\_app_install\\cal.sis", Some((65536, 65536)))
    );
    assert_eq!(split_range("C:\\Data\\x.txt 0 4096"), ("C:\\Data\\x.txt", Some((0, 4096))));
    // No range: a bare path, even one that ends in digits.
    assert_eq!(split_range("C:\\Data\\log2.txt"), ("C:\\Data\\log2.txt", None));
    // A path with spaces keeps them, and only trailing numbers count as a range.
    assert_eq!(split_range("C:\\Data\\my file 2.txt"), ("C:\\Data\\my file 2.txt", None));
}

#[test]
fn numbers_take_hex_only_with_the_prefix() {
    assert_eq!(parse_num("0x101f8766"), Some(0x101f8766));
    assert_eq!(parse_num("0X10"), Some(16));
    // No prefix means decimal, so a plain count cannot be silently read as hex.
    assert_eq!(parse_num("4132"), Some(4132));
    assert_eq!(parse_num("zz"), None);
    assert_eq!(two_numbers("0x101f75b6 0x10203642"), Some((0x101f75b6, 0x10203642)));
    assert_eq!(two_numbers("5"), None);
}

#[test]
fn hex_patterns_become_bytes() {
    assert_eq!(parse_hex("66871f10"), Some(vec![0x66, 0x87, 0x1f, 0x10]));
    assert_eq!(parse_hex("66 87 1f 10"), Some(vec![0x66, 0x87, 0x1f, 0x10]));
    assert_eq!(parse_hex("abc"), None, "odd digit count is a mistake, not a guess");
    assert_eq!(parse_hex("zz"), None);
}

#[test]
fn byte_search_finds_the_first_offset() {
    // The little-endian spelling of 0x101F8766, the UID this shell went hunting for.
    let hay = vec![0, 1, 2, 0x66, 0x87, 0x1f, 0x10, 9];
    assert_eq!(find_bytes(&hay, &[0x66, 0x87, 0x1f, 0x10]), Some(3));
    assert_eq!(find_bytes(&hay, &[0xde, 0xad]), None);
    assert_eq!(find_bytes(&hay, &[]), None);
}

#[test]
fn listing_splits_into_entries() {
    let mut buf: Vec<u16> = Vec::new();
    buf.extend("a.txt".encode_utf16());
    buf.push(0);
    buf.extend("dir\\".encode_utf16());
    buf.push(0);
    buf.resize(64, 0);
    let got = split_listing(&buf, 2);
    assert_eq!(got, vec![String::from("a.txt"), String::from("dir\\")]);
}

#[test]
fn listing_decodes_names_and_keeps_dir_slash() {
    // "a.txt\0dir\\\0"
    let mut buf: Vec<u16> = Vec::new();
    buf.extend("a.txt".encode_utf16());
    buf.push(0);
    buf.extend("dir\\".encode_utf16());
    buf.push(0);
    buf.resize(64, 0);
    assert_eq!(decode_listing(&buf, 2), "a.txt\ndir\\\n");
}
