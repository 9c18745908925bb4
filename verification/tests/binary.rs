use hardware::binary::{data_bounds, find_version, text_from_marker, version_in_sections};
use hardware::{extract_version_from_binary, get_librkllmrt_version, get_librknnrt_version};

/// A 64-bit little-endian ELF file with these sections, and one with their
/// names behind them. A section may claim another size than its data has.
fn elf(sections: &[(&str, &[u8], Option<u64>)]) -> Vec<u8> {
    let mut names = vec![0u8];
    let mut data = Vec::new();
    let mut headers = vec![0u8; 64];
    for (name, bytes, claimed) in sections {
        let at = names.len() as u32;
        names.extend_from_slice(name.as_bytes());
        names.push(0);
        let size = claimed.unwrap_or(bytes.len() as u64);
        headers.extend(header(at, 64 + data.len() as u64, size));
        data.extend_from_slice(bytes);
    }
    let at = names.len() as u32;
    names.extend_from_slice(b".shstrtab\0");
    headers.extend(header(at, 64 + data.len() as u64, names.len() as u64));
    data.extend_from_slice(&names);

    let mut file = vec![0x7f, b'E', b'L', b'F', 2, 1, 1, 0, 0, 0, 0, 0, 0, 0, 0, 0];
    file.extend(3u16.to_le_bytes());
    file.extend(183u16.to_le_bytes());
    file.extend(1u32.to_le_bytes());
    file.extend(0u64.to_le_bytes());
    file.extend(0u64.to_le_bytes());
    file.extend((64 + data.len() as u64).to_le_bytes());
    file.extend(0u32.to_le_bytes());
    for half in [64u16, 0, 0, 64, sections.len() as u16 + 2, sections.len() as u16 + 1] {
        file.extend(half.to_le_bytes());
    }
    assert_eq!(file.len(), 64);
    file.extend(data);
    file.extend(headers);
    file
}

fn header(name: u32, offset: u64, size: u64) -> Vec<u8> {
    let mut res = Vec::new();
    res.extend(name.to_le_bytes());
    res.extend(1u32.to_le_bytes());
    res.extend(0u64.to_le_bytes());
    res.extend(0u64.to_le_bytes());
    res.extend(offset.to_le_bytes());
    res.extend(size.to_le_bytes());
    res.extend(0u32.to_le_bytes());
    res.extend(0u32.to_le_bytes());
    res.extend(1u64.to_le_bytes());
    res.extend(0u64.to_le_bytes());
    res
}

fn section(name: &str, offset: u64, size: u64) -> (Option<String>, u64, u64) {
    (Some(name.to_string()), offset, size)
}

#[test]
fn version_stands_behind_its_marker() {
    let file = elf(&[(".rodata", b"v9.9.9\0librknnrt version: 2.3.0 (c949ad889d@2024)\0", None)]);
    assert_eq!(get_librknnrt_version(Some(&file)).as_deref(), Some("2.3.0"));
    assert_eq!(get_librkllmrt_version(Some(&file)).as_deref(), Some("Not Detected"));
    let file = elf(&[(".rodata", b"\xff\xfeRKLLM SDK (version: 1.2.1b1\0", None)]);
    assert_eq!(get_librkllmrt_version(Some(&file)).as_deref(), Some("1.2.1"));
}

#[test]
fn version_is_searched_in_data_sections_only() {
    let file = elf(&[
        (".text", b"mark 1.1.1", None),
        (".data.rel.ro", b"nothing", None),
        (".mydata", b"mark 2.2", None),
        (".rodata", b"mark 3.3.3", None),
        (".data", b"mark 4.4.4", None),
    ]);
    assert_eq!(extract_version_from_binary(Some(&file), "mark").as_deref(), Some("3.3.3"));
}

#[test]
fn section_beyond_the_file_is_passed_over() {
    let file = elf(&[(".data", b"mark 1.1.1", Some(1 << 40)), (".rodata", b"mark 2.2.2", None)]);
    assert_eq!(extract_version_from_binary(Some(&file), "mark").as_deref(), Some("2.2.2"));
}

#[test]
fn there_is_no_answer_behind_a_section_that_overflows() {
    let overflow = (".data", &b"mark 1.1.1"[..], Some(u64::MAX));
    let file = elf(&[overflow, (".rodata", b"mark 2.2.2", None)]);
    assert_eq!(extract_version_from_binary(Some(&file), "mark"), None);
    let file = elf(&[(".rodata", b"mark 2.2.2", None), overflow]);
    assert_eq!(extract_version_from_binary(Some(&file), "mark").as_deref(), Some("2.2.2"));
}

#[test]
fn a_file_that_is_none_has_no_version() {
    assert_eq!(extract_version_from_binary(None, "mark").as_deref(), Some("Not Detected"));
    for bytes in [&b""[..], b"\x7fELF", b"#!/bin/sh mark 1.1.1", b"\x7fELF0123456789abcdef"] {
        let file = bytes.to_vec();
        assert_eq!(extract_version_from_binary(Some(&file), "mark").as_deref(), Some("Not Detected"));
    }
}

#[test]
fn first_version_behind_the_first_marker_counts() {
    assert_eq!(find_version("mark 10.20.30.40 mark 5.6.7", "mark").as_deref(), Some("10.20.30"));
    assert_eq!(find_version("0.0.1 mark1.2. 3.4.5", "mark").as_deref(), Some("3.4.5"));
    assert_eq!(find_version("mark 1.2", "mark"), None);
    assert_eq!(find_version("1.2.3", "mark"), None);
    assert_eq!(find_version("1.2.3", "").as_deref(), Some("1.2.3"));
}

#[test]
fn version_may_be_in_other_digits() {
    assert_eq!(find_version("mark \u{0661}.2.3", "mark").as_deref(), Some("\u{0661}.2.3"));
}

#[test]
fn text_begins_with_the_first_marker() {
    assert_eq!(text_from_marker("aXbXc", "X").as_deref(), Some("XbXc"));
    assert_eq!(text_from_marker("\u{e9}\u{e9}Xc", "X").as_deref(), Some("Xc"));
    assert_eq!(text_from_marker("abc", "X"), None);
}

#[test]
fn bounds_are_those_of_data_sections_in_the_file() {
    let sections = vec![
        section("data", 10, 5),
        section(".bss", 0, 1),
        (None, 0, 1),
        section(".rodata", 90, 10),
        section(".rodata", 90, 11),
        section(".bss", u64::MAX, u64::MAX),
    ];
    assert_eq!(data_bounds(&sections, 100), (vec![(10, 15), (90, 100)], true));
}

#[test]
fn bounds_end_at_a_section_that_overflows() {
    let sections = vec![section(".data", 1, 2), section(".data", u64::MAX, 1), section(".data", 3, 4)];
    assert_eq!(data_bounds(&sections, 100), (vec![(1, 3)], false));
}

#[test]
fn first_data_section_with_a_version_decides() {
    let bytes = b"mark 1.x mark 2.0.1 mark 3.0.0".to_vec();
    let sections = vec![section(".rodata", 0, 8), section(".data", 9, 10), section(".data", 20, 10)];
    assert_eq!(version_in_sections(&bytes, &sections, "mark").as_deref(), Some("2.0.1"));
    let sections = vec![section(".rodata", 0, 8), section(".text", 9, 10)];
    assert_eq!(version_in_sections(&bytes, &sections, "mark").as_deref(), Some("Not Detected"));
    let sections = vec![section(".rodata", 0, 8), section(".data", u64::MAX, 10)];
    assert_eq!(version_in_sections(&bytes, &sections, "mark"), None);
}
