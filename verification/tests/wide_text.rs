use lumina::text::{string_to_u16_vec, u16_to_string};

#[test]
fn reads_up_to_the_first_nul() {
    let mut buf: Vec<u16> = "\\\\.\\DISPLAY1".encode_utf16().collect();
    buf.push(0);
    buf.extend("garbage".encode_utf16());
    assert_eq!(u16_to_string(&buf), "\\\\.\\DISPLAY1");
}

#[test]
fn reads_whole_buffer_without_nul() {
    let buf: Vec<u16> = "ASUS VG248".encode_utf16().collect();
    assert_eq!(u16_to_string(&buf), "ASUS VG248");
    assert_eq!(u16_to_string(&[]), "");
    assert_eq!(u16_to_string(&[0, 0x41]), "");
}

#[test]
fn decodes_surrogate_pairs() {
    assert_eq!(u16_to_string(&[0x41, 0xD83D, 0xDE00, 0]), "A\u{1F600}");
}

#[test]
fn lone_surrogates_become_replacement_chars() {
    assert_eq!(u16_to_string(&[0xD800, 0x41]), "\u{FFFD}A");
    assert_eq!(u16_to_string(&[0xDC00, 0xD800]), "\u{FFFD}\u{FFFD}");
    assert_eq!(u16_to_string(&[0xD800, 0xD83D, 0xDE00]), "\u{FFFD}\u{1F600}");
}

#[test]
fn writes_nul_terminated_utf16() {
    assert_eq!(string_to_u16_vec("A\u{1F600}"), vec![0x41, 0xD83D, 0xDE00, 0]);
    assert_eq!(string_to_u16_vec(""), vec![0]);
    assert_eq!(string_to_u16_vec("é"), vec![0xE9, 0]);
}

#[test]
fn wide_buffer_round_trip() {
    for s in ["", "\\\\.\\DISPLAY2", "Ünïcødé \u{10FFFF} \u{1F3AE}", "plain"] {
        assert_eq!(u16_to_string(&string_to_u16_vec(s)), s);
    }
}
