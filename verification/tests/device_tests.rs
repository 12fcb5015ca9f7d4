use trmnl_cyberpunk::device::{dashboard_filename, dashboard_url, encode, mac_short_id};

#[test]
fn short_id_from_mac() {
    assert_eq!(mac_short_id("aa:bb:cc:dd:ee:ff"), "DDEEFF");
    assert_eq!(mac_short_id("12:34:56:78:9A:bc"), "789ABC");
    assert_eq!(mac_short_id("ab:c"), "ABC");
    assert_eq!(mac_short_id("zz::"), "");
}

#[test]
fn filename_and_url() {
    assert_eq!(dashboard_filename(1778185416), "dashboard-1778185416.png");
    assert_eq!(dashboard_filename(-3), "dashboard--3.png");
    assert_eq!(dashboard_url("http://localhost:8080", 7), "http://localhost:8080/dashboard/7");
}

#[test]
fn percent_encoding() {
    assert_eq!(encode("abc-XYZ_0.9~"), "abc-XYZ_0.9~");
    assert_eq!(encode("a b&c"), "a%20b%26c");
    assert_eq!(encode("é"), "%C3%A9");
    assert_eq!(encode("2026-05-01"), "2026-05-01");
    assert_eq!(encode("/:?"), "%2F%3A%3F");
}

fn hex_value(c: u8) -> u8 {
    if c.is_ascii_digit() { c - b'0' } else { c - b'A' + 10 }
}

#[test]
fn percent_encoding_reads_back() {
    for s in ["Europe/Berlin", "a b&c", "é ü 日本", "~._-", ""] {
        let enc = encode(s);
        let cs = enc.as_bytes();
        let mut out: Vec<u8> = Vec::new();
        let mut i = 0;
        while i < cs.len() {
            if cs[i] == b'%' && i + 2 < cs.len() {
                out.push(hex_value(cs[i + 1]) * 16 + hex_value(cs[i + 2]));
                i += 3;
            } else {
                out.push(cs[i]);
                i += 1;
            }
        }
        assert_eq!(out, s.as_bytes());
    }
}
