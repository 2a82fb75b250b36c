use recomp_net_server::address::parse_address;
use recomp_net_server::geo_file::file_is_sound;
use recomp_net_server::ip_country::{lookup, range_counts, Ip, Table};
use recomp_net_server::ws_lobby::hub::WsLobbyHub;

fn v4(a: u8, b: u8, c: u8, d: u8) -> u32 {
    u32::from_be_bytes([a, b, c, d])
}

/// A table in its own format: codes, IPv4 ranges and IPv6 ranges.
fn blob(codes: &[&str], v4: &[(u32, u32, u16)], v6: &[(u64, u64, u16)]) -> Vec<u8> {
    let mut b = b"RCGEO1\0\0".to_vec();
    b.extend_from_slice(&(v4.len() as u32).to_le_bytes());
    b.extend_from_slice(&(v6.len() as u32).to_le_bytes());
    b.extend_from_slice(&(codes.len() as u16).to_le_bytes());
    for c in codes {
        b.extend_from_slice(c.as_bytes());
    }
    for (s, e, i) in v4 {
        b.extend_from_slice(&s.to_le_bytes());
        b.extend_from_slice(&e.to_le_bytes());
        b.extend_from_slice(&i.to_le_bytes());
    }
    for (s, e, i) in v6 {
        b.extend_from_slice(&s.to_le_bytes());
        b.extend_from_slice(&e.to_le_bytes());
        b.extend_from_slice(&i.to_le_bytes());
    }
    b
}

fn world() -> Vec<u8> {
    blob(
        &["au", "US", "NL", "GB"],
        &[
            (v4(1, 1, 1, 0), v4(1, 1, 2, 0), 0),
            (v4(8, 0, 0, 0), v4(9, 0, 0, 0), 1),
            (v4(193, 0, 0, 0), v4(193, 0, 24, 0), 2),
            (v4(212, 58, 224, 0), v4(212, 59, 0, 0), 3),
        ],
        &[(0x2001_4860_0000_0000, 0x2001_4860_FFFF_FFFF, 1)],
    )
}

fn table() -> Option<Table> {
    Table::parse(world())
}

#[test]
fn the_embedded_table_parses() {
    let many4: Vec<(u32, u32, u16)> =
        (0..100_001u32).map(|i| (i * 256, i * 256 + 255, (i % 2) as u16)).collect();
    let many6: Vec<(u64, u64, u16)> =
        (0..10_001u64).map(|i| (i << 32, (i << 32) + 9, 0)).collect();
    let t = Table::parse(blob(&["US", "FR"], &many4, &many6));
    let (v4, v6) = range_counts(&t);
    assert!(v4 > 100_000, "ipv4 ranges: {v4}");
    assert!(v6 > 10_000, "ipv6 ranges: {v6}");
    assert_eq!(lookup(&t, Ip::V4(100_000 * 256)).as_deref(), Some("US"));
    assert_eq!(lookup(&t, Ip::V4(99_999 * 256 + 254)).as_deref(), Some("FR"));
    assert_eq!(lookup(&t, Ip::V4(99_999 * 256 + 255)), None);
}

#[test]
fn well_known_addresses_resolve() {
    let t = table();
    assert_eq!(lookup(&t, Ip::V4(v4(8, 8, 8, 8))).as_deref(), Some("US"));
    assert!(lookup(&t, Ip::V4(v4(1, 1, 1, 1))).is_some());
    assert!(lookup(&t, Ip::V4(v4(193, 0, 6, 139))).is_some());
}

#[test]
fn codes_are_two_upper_case_letters() {
    let t = table();
    for a in [v4(8, 8, 8, 8), v4(1, 1, 1, 1), v4(212, 58, 244, 22)] {
        let cc = lookup(&t, Ip::V4(a)).unwrap();
        assert_eq!(cc.len(), 2, "{a} -> {cc}");
        assert!(cc.chars().all(|c| c.is_ascii_uppercase()), "{a} -> {cc}");
    }
}

#[test]
fn unallocated_and_reserved_space_has_no_answer() {
    let t = table();
    assert_eq!(lookup(&t, Ip::V4(v4(0, 0, 0, 1))), None);
    assert_eq!(lookup(&t, Ip::V4(v4(240, 0, 0, 1))), None);
    assert_eq!(lookup(&t, Ip::V4(v4(255, 255, 255, 255))), None);
}

#[test]
fn an_ipv4_mapped_v6_address_answers_from_the_v4_table() {
    let mapped = 0xFFFF_0000_0000u128 + v4(8, 8, 8, 8) as u128;
    assert_eq!(lookup(&table(), Ip::V6(mapped)).as_deref(), Some("US"));
}

#[test]
fn ipv6_resolves() {
    let g = 0x2001_4860_4860_0000_0000_0000_0000_8888u128;
    assert!(lookup(&table(), Ip::V6(g)).is_some());
    let last = 0x2001_4860_FFFF_FFFF_FFFF_FFFF_FFFF_FFFFu128;
    assert!(lookup(&table(), Ip::V6(last)).is_some());
    assert!(lookup(&table(), Ip::V6(last + 1)).is_none());
}

#[test]
fn the_search_is_exact_at_range_edges() {
    let t = table().expect("table");
    for i in 0..64usize.min(t.v4_count) {
        let (start, end, _) = t.v4_at(i);
        assert!(t.lookup_v4(start).is_some(), "start of range {i}");
        assert!(t.lookup_v4(end - 1).is_some(), "last address of range {i}");
        if start > 0 {
            let before = t.lookup_v4(start - 1);
            let here = t.lookup_v4(start);
            if before.is_some() && before == here {
                panic!("range {i} was not merged with its neighbour");
            }
        }
    }
}

#[test]
fn bytes_that_are_no_table_give_none() {
    assert!(Table::parse(Vec::new()).is_none());
    let mut wrong = world();
    wrong[0] = b'X';
    assert!(Table::parse(wrong).is_none());
    let mut short = world();
    short.pop();
    assert!(Table::parse(short).is_none());
    assert_eq!(range_counts(&None), (0, 0));
    assert_eq!(lookup(&None, Ip::V4(1)), None);
}

#[test]
fn a_code_that_is_no_text_has_no_answer() {
    let mut b = blob(&["US"], &[(0, 10, 0), (20, 30, 7)], &[]);
    assert_eq!(lookup(&Table::parse(b.clone()), Ip::V4(25)), None, "no such code");
    b[18] = 0xFF;
    assert_eq!(lookup(&Table::parse(b), Ip::V4(5)), None, "no such text");
}

#[test]
fn a_deployment_that_installs_nothing_still_gets_flags() {
    let hub = WsLobbyHub::with_geoip(world(), None);
    assert_eq!(hub.country_for("8.8.8.8"), "US");
}

#[test]
fn private_and_malformed_addresses_still_have_no_country() {
    let hub = WsLobbyHub::with_geoip(world(), None);
    assert_eq!(hub.country_for("127.0.0.1"), "");
    assert_eq!(hub.country_for("192.168.1.4"), "");
    assert_eq!(hub.country_for("10.0.0.7"), "");
    assert_eq!(hub.country_for("::1"), "");
    assert_eq!(hub.country_for("not-an-ip"), "");
    assert_eq!(hub.country_for(""), "");
    let hub = WsLobbyHub::with_geoip(blob(&["US"], &[(0, u32::MAX, 0)], &[]), None);
    assert_eq!(hub.country_for("172.31.0.1"), "");
    assert_eq!(hub.country_for("172.32.0.1"), "US");
    assert_eq!(hub.country_for("169.254.9.9"), "");
    assert_eq!(hub.country_for("0.0.0.0"), "");
}

#[test]
fn a_bad_database_path_falls_back_instead_of_failing() {
    assert!(maxminddb::Reader::open_readfile("/nonexistent/GeoLite2-Country.mmdb").is_err());
    let hub = WsLobbyHub::with_geoip(world(), None);
    assert_eq!(hub.country_for("8.8.8.8"), "US");
    assert_eq!(hub.country_for("127.0.0.1"), "");
    let hub = WsLobbyHub::with_geoip(world(), Some(b"no database".to_vec()));
    assert!(hub.geoip.is_none());
    assert_eq!(hub.country_for("8.8.8.8"), "US");
    assert_eq!(WsLobbyHub::new().country_for("8.8.8.8"), "");
}

fn text(out: &mut Vec<u8>, s: &str) {
    out.push(0x40 | s.len() as u8);
    out.extend_from_slice(s.as_bytes());
}

fn number(out: &mut Vec<u8>, key: &str, control: &[u8], n: u8) {
    text(out, key);
    out.extend_from_slice(control);
    out.push(n);
}

/// The metadata of a tree: its nodes, the bits of a record, the IP version.
fn metadata(nodes: &[u8], bits: u8, version: u8) -> Vec<u8> {
    let mut b = b"\xab\xcd\xefMaxMind.com".to_vec();
    b.push(0xE9);
    number(&mut b, "binary_format_major_version", &[0xA1], 2);
    number(&mut b, "binary_format_minor_version", &[0xA1], 0);
    number(&mut b, "build_epoch", &[0x01, 0x02], 1);
    text(&mut b, "database_type");
    b.extend_from_slice(&[0x5D, 11]);
    b.extend_from_slice(&[b'x'; 40]);
    text(&mut b, "description");
    b.push(0xE0);
    number(&mut b, "ip_version", &[0xA1], version);
    text(&mut b, "languages");
    b.extend_from_slice(&[0x01, 0x04]);
    text(&mut b, "en");
    text(&mut b, "node_count");
    b.push(0xC0 | nodes.len() as u8);
    b.extend_from_slice(nodes);
    number(&mut b, "record_size", &[0xA1], bits);
    b
}

/// The record of a country.
fn canada(code: &str) -> Vec<u8> {
    let mut b = vec![0xE1];
    text(&mut b, "country");
    b.push(0xE1);
    text(&mut b, "iso_code");
    text(&mut b, code);
    b
}

fn file(tree: &[u8], data: &[u8], meta: &[u8]) -> Vec<u8> {
    let mut b = tree.to_vec();
    b.extend_from_slice(&[0; 16]);
    b.extend_from_slice(data);
    b.extend_from_slice(meta);
    b
}

/// A database of one node: the lower half of the IPv4 addresses has one record.
fn database(code: &str) -> Vec<u8> {
    file(&[0, 0, 17, 0, 0, 1], &canada(code), &metadata(&[1], 24, 4))
}

/// What a database says of an address without a table to back it up.
fn says(db: Vec<u8>, address: &str) -> String {
    let hub = WsLobbyHub::with_geoip(Vec::new(), Some(db));
    assert!(hub.geoip.is_some());
    hub.country_for(address)
}

#[test]
fn records_of_every_width_are_read() {
    let d = canada("ca");
    let meta = |bits| metadata(&[1], bits, 4);
    let wide = file(&[0, 0, 0, 17, 0, 0, 0, 1], &d, &meta(32));
    assert_eq!(says(wide, "8.8.8.8"), "CA");
    let odd = file(&[0, 0, 17, 0x00, 0, 0, 1], &d, &meta(28));
    assert_eq!(says(odd.clone(), "8.8.8.8"), "CA");
    assert_eq!(says(odd, "200.1.2.3"), "");
    let right = file(&[0, 0, 1, 0x00, 0, 0, 17], &d, &meta(28));
    assert_eq!(says(right.clone(), "8.8.8.8"), "");
    assert_eq!(says(right, "200.1.2.3"), "CA");
}

#[test]
fn ipv4_addresses_are_found_in_a_tree_for_ipv6() {
    let mut tree = Vec::new();
    for i in 0..96u8 {
        let next = if i == 95 { 96 + 16 } else { i + 1 };
        tree.extend_from_slice(&[0, 0, next, 0, 0, 96]);
    }
    let db = file(&tree, &canada("ca"), &metadata(&[96], 24, 6));
    assert_eq!(says(db.clone(), "8.8.8.8"), "CA");
    assert_eq!(says(db, "2001:4860:4860::8888"), "");
}

#[test]
fn a_record_may_be_reached_through_pointers() {
    let mut d = canada("ca");
    let at = d.len() as u8;
    d.push(0xE2);
    text(&mut d, "extra");
    d.extend_from_slice(&[0x20, 0]);
    d.extend_from_slice(&[0x20, 1]);
    d.extend_from_slice(&[0x20, 9]);
    let db = file(&[0, 0, 17 + at, 0, 0, 1], &d, &metadata(&[1], 24, 4));
    assert_eq!(says(db, "8.8.8.8"), "CA");
}

#[test]
fn a_record_beyond_the_file_is_no_answer() {
    let db = file(&[0, 0xFF, 0xFF, 0, 0, 1], &canada("ca"), &metadata(&[1], 24, 4));
    assert!(file_is_sound(&db));
    assert_eq!(says(db, "8.8.8.8"), "");
}

#[test]
fn a_damaged_database_costs_its_answers_alone() {
    let d = canada("ca");
    let one = [0, 0, 17, 0, 0, 1];
    let with = |tree: &[u8], data: &[u8], meta: Vec<u8>| file(tree, data, &meta);
    let itself = [0xE1, 0x41, b'x', 0x20, 3];
    let cases = [
        ("no metadata", one.to_vec()),
        ("more nodes than the file holds", with(&one, &d, metadata(&[0xFF, 0xFF], 24, 4))),
        ("the same for IPv6", with(&one, &d, metadata(&[0xFF, 0xFF, 0xFF], 32, 6))),
        ("a record before the data", with(&[0, 0, 5, 0, 0, 1], &d, metadata(&[1], 24, 4))),
        ("the same on the right", with(&[0, 0, 1, 0, 0, 16], &d, metadata(&[1], 24, 4))),
        ("a width that there is not", with(&one, &d, metadata(&[1], 25, 4))),
        ("no separator", [&one[..], &metadata(&[200], 24, 4)].concat()),
        ("a value that holds itself", with(&one, &itself, metadata(&[1], 24, 4))),
        ("a kind that is no byte", with(&one, &[0x00, 0xFF], metadata(&[1], 24, 4))),
    ];
    for (what, db) in cases {
        assert!(!file_is_sound(&db), "{what}");
        let hub = WsLobbyHub::with_geoip(world(), Some(db));
        assert!(hub.geoip.is_none(), "{what}");
        assert_eq!(hub.country_for("8.8.8.8"), "US", "{what}");
    }
    let whole = database("ca");
    for n in 0..whole.len() {
        let hub = WsLobbyHub::with_geoip(world(), Some(whole[..n].to_vec()));
        assert_eq!(hub.country_for("8.8.8.8"), "US", "the first {n} bytes");
    }
}

#[test]
fn no_byte_that_differs_makes_a_lookup_fail() {
    let mut d = canada("ca");
    let at = d.len() as u8;
    d.push(0xE2);
    text(&mut d, "extra");
    d.extend_from_slice(&[0x20, 0]);
    d.extend_from_slice(&[0x20, 1]);
    d.extend_from_slice(&[0x20, 9]);
    for version in [4, 6] {
        let whole = file(&[0, 0, 17 + at, 0, 0, 1], &d, &metadata(&[1], 24, version));
        for i in 0..whole.len() {
            for byte in 0..=255u8 {
                let mut db = whole.clone();
                db[i] = byte;
                let hub = WsLobbyHub::with_geoip(Vec::new(), Some(db));
                hub.country_for("8.8.8.8");
                hub.country_for("200.1.2.3");
                hub.country_for("2001:4860:4860::8888");
            }
        }
    }
}

#[test]
fn a_record_of_the_database_wins_and_the_table_backs_it_up() {
    let hub = WsLobbyHub::with_geoip(world(), Some(database("ca")));
    assert!(hub.geoip.is_some());
    assert_eq!(hub.country_for("8.8.8.8"), "CA", "the code in upper case");
    assert_eq!(hub.country_for(" 8.8.8.8 "), "CA");
    assert_eq!(hub.country_for("127.0.0.1"), "", "private comes first");
    let plain = WsLobbyHub::with_geoip(world(), None);
    for a in ["200.1.2.3", "2001:4860:4860::8888", "2a00::1", "nonsense"] {
        assert_eq!(hub.country_for(a), plain.country_for(a), "{a}");
    }
    let empty = WsLobbyHub::with_geoip(world(), Some(database("")));
    assert_eq!(empty.country_for("8.8.8.8"), "US", "an empty code is no answer");
}

#[test]
fn addresses_are_quads_or_eight_words() {
    let quad = |t: &str, n: u32| assert_eq!(parse_address(t), Some(Ip::V4(n)), "{t}");
    let long = |t: &str, n: u128| assert_eq!(parse_address(t), Some(Ip::V6(n)), "{t}");
    quad("1.2.3.4", 0x0102_0304);
    quad("0.0.0.0", 0);
    quad(" 255.255.255.255\n", u32::MAX);
    long("::", 0);
    long("::1", 1);
    long("1::", 1 << 112);
    long("1:2:3:4:5:6:7:8", 0x0001_0002_0003_0004_0005_0006_0007_0008);
    long("1:2:3:4:5:6:7::", 0x0001_0002_0003_0004_0005_0006_0007_0000);
    long("::2:3:4:5:6:7:8", 0x0002_0003_0004_0005_0006_0007_0008);
    long("::ffff:1.2.3.4", 0xFFFF_0102_0304);
    long("1:2:3:4:5:6:7.8.9.10", 0x0001_0002_0003_0004_0005_0006_0708_090A);
    long("1:2:3:4:5::1.2.3.4", 0x0001_0002_0003_0004_0005_0000_0102_0304);
    long("FE80::abCD", (0xFE80 << 112) + 0xABCD);
    long(" 2001:db8::8a2e:370:7334 ", 0x2001_0db8_0000_0000_0000_8a2e_0370_7334);
    for t in [
        "", "1.2.3", "1.2.3.4.5", "1.2.3.", "256.1.1.1", "01.2.3.4", "+1.2.3.4", "1:2:3:4:5:6:7",
        "1:2:3:4:5:6:7:8:9", "1::2:3:4:5:6:7:8", "1:::2", "1::2::3", ":1::", "1:2:", "12345::", "g::",
        "::00001", "::1%eth0", "::1.2.3", "::1.2.3.4:5", "1.2.3.4::", "1:2:3:4:5:6:7:8.9.10.11",
        "1:2:3:4:5:6::1.2.3.4", "1:2:3:4:5:6:7:8::",
    ] {
        assert_eq!(parse_address(t), None, "{t}");
    }
}
