use recomp_net_server::input_relay::{
    sender_is_spectator, wants_input_relay, InputRelay, Peer, Verdict, MAX_PLAYER_SLOTS, MAX_SLOTS,
    MAX_SPECTATOR_SLOTS, MIN_PACKET, PROBES_PER_SECOND, RNET_PKT_PROBE, RNET_PKT_PROBE_REPLY,
    RNET_PKT_START,
};
use recomp_net_server::config::{Config, Env};
use recomp_net_server::public_ip::{
    advertise_host_needs_public, binding_request, discover_ipv4, format_socket, ipv4_usable,
    new_request, parse_binding_ipv4, Discovery, STUN_ATTR_XOR_MAPPED_ADDRESS, STUN_BINDING_SUCCESS, STUN_HEADER,
    STUN_MAGIC,
};
use recomp_net_server::udp_pktinfo::parse_ipv4_host;

const MAGIC: u32 = 0x524E_4554;

#[test]
fn gallery_fits_beside_a_full_room() {
    assert_eq!(MAX_SLOTS, MAX_PLAYER_SLOTS + MAX_SPECTATOR_SLOTS);
    assert!(MAX_PLAYER_SLOTS >= 8);
    assert_eq!(MAX_SPECTATOR_SLOTS, 4);
}

#[test]
fn player_seats_are_forwarded() {
    for slot in 0..4u8 {
        assert!(!sender_is_spectator(Some(slot), 4), "slot {slot}");
    }
}

#[test]
fn spectator_seats_are_muted() {
    for slot in 4..8u8 {
        assert!(sender_is_spectator(Some(slot), 4), "slot {slot}");
    }
}

#[test]
fn unbound_sender_is_not_muted() {
    assert!(!sender_is_spectator(None, 2));
}

#[test]
fn a_session_with_no_gallery_mutes_nobody_in_range() {
    for slot in 0..8u8 {
        assert!(!sender_is_spectator(Some(slot), 8), "slot {slot}");
    }
}

fn peer(n: u128) -> Peer {
    Peer { v6: false, ip: n, port: 7000 }
}

fn packet(kind: u16, session: u32, slot: u8) -> Vec<u8> {
    let mut p = Vec::new();
    p.extend_from_slice(&MAGIC.to_le_bytes());
    p.extend_from_slice(&kind.to_le_bytes());
    p.extend_from_slice(&session.to_le_bytes());
    p.push(slot);
    p.extend_from_slice(&[9, 9, 9]);
    assert!(p.len() >= MIN_PACKET);
    p
}

fn relay() -> InputRelay {
    let mut r = InputRelay::start(true, "203.0.113.1", "192.168.1.2", 7777);
    assert!(r.open_session(5, 2, 1, 0).is_ok());
    r
}

#[test]
fn a_packet_fans_out_to_everyone_but_its_sender() {
    let mut r = relay();
    for (slot, who) in [(0u8, 1u128), (1, 2), (2, 3)] {
        r.receive(MAGIC, &packet(1, 5, slot), peer(who), None, 10);
    }
    match r.receive(MAGIC, &packet(1, 5, 0), peer(1), None, 20) {
        Verdict::Forward(to) => {
            let mut ips: Vec<u128> = to.iter().map(|b| b.peer.ip).collect();
            ips.sort();
            assert_eq!(ips, vec![2, 3]);
        }
        _ => panic!("a player's packet is forwarded"),
    }
    /* The gallery is heard by nobody. */
    assert!(matches!(
        r.receive(MAGIC, &packet(1, 5, 2), peer(3), None, 30),
        Verdict::Drop(_)
    ));
    assert_eq!(r.session_counts(40), (1, 1));
    assert!(r.close_session(5));
    assert_eq!(r.session_counts(40), (0, 0));
}

#[test]
fn a_packet_of_no_session_is_dropped() {
    let mut r = relay();
    assert!(matches!(
        r.receive(MAGIC, &packet(1, 6, 0), peer(1), None, 0),
        Verdict::Drop(_)
    ));
    assert!(matches!(
        r.receive(MAGIC + 1, &packet(1, 5, 0), peer(1), None, 0),
        Verdict::Drop(_)
    ));
    assert!(matches!(r.receive(MAGIC, &[0; 4], peer(1), None, 0), Verdict::Drop(_)));
    assert!(matches!(
        r.receive(MAGIC, &packet(RNET_PKT_START, 5, 0), peer(1), None, 0),
        Verdict::Forward(_) | Verdict::Drop(_)
    ));
}

#[test]
fn a_probe_is_answered_and_capped() {
    let mut r = relay();
    let probe = packet(RNET_PKT_PROBE, 0, 0);
    for _ in 0..PROBES_PER_SECOND {
        match r.receive(MAGIC, &probe, peer(1), None, 0) {
            Verdict::Answer(a) => {
                assert_eq!(a.len(), 14);
                assert_eq!(u16::from_le_bytes([a[4], a[5]]), RNET_PKT_PROBE_REPLY);
            }
            _ => panic!("a probe is answered"),
        }
    }
    assert!(matches!(r.receive(MAGIC, &probe, peer(1), None, 0), Verdict::Drop(_)));
}

#[test]
fn an_idle_session_is_purged() {
    let mut r = relay();
    r.purge_idle(1_000);
    assert_eq!(r.session_counts(1_000).0, 1);
    r.purge_idle(200_000);
    assert_eq!(r.session_counts(200_000).0, 0);
}

#[test]
fn the_endpoint_follows_the_network() {
    let r = relay();
    assert_eq!(r.advertise_endpoint(), "203.0.113.1:7777");
    assert_eq!(r.lan_advertise_endpoint().as_deref(), Some("192.168.1.2:7777"));
    assert_eq!(r.pick_advertise_endpoint(true), "192.168.1.2:7777");
    assert_eq!(r.pick_advertise_endpoint(false), "203.0.113.1:7777");
}

#[test]
fn loopback_detected() {
    assert!(advertise_host_needs_public(""));
    assert!(advertise_host_needs_public("127.0.0.1"));
    assert!(advertise_host_needs_public("localhost"));
    assert!(!advertise_host_needs_public("203.0.113.1"));
    assert!(!advertise_host_needs_public("netplay.example.com"));
}

fn success(txid: &[u8]) -> Vec<u8> {
    let mut pkt = vec![0u8; STUN_HEADER + 12];
    pkt[0..2].copy_from_slice(&STUN_BINDING_SUCCESS.to_be_bytes());
    pkt[2..4].copy_from_slice(&12u16.to_be_bytes());
    pkt[4..8].copy_from_slice(&STUN_MAGIC.to_be_bytes());
    pkt[8..20].copy_from_slice(txid);
    pkt[20..22].copy_from_slice(&STUN_ATTR_XOR_MAPPED_ADDRESS.to_be_bytes());
    pkt[22..24].copy_from_slice(&8u16.to_be_bytes());
    pkt[24] = 0;
    pkt[25] = 0x01;
    let port = 3478u16 ^ ((STUN_MAGIC >> 16) as u16);
    let addr = u32::from_be_bytes([203, 0, 113, 50]) ^ STUN_MAGIC;
    pkt[26..28].copy_from_slice(&port.to_be_bytes());
    pkt[28..32].copy_from_slice(&addr.to_be_bytes());
    pkt
}

#[test]
fn parse_xor_mapped() {
    let txid = [1u8, 2, 3, 4, 5, 6, 7, 8, 9, 10, 11, 12];
    let ip = parse_binding_ipv4(&success(&txid), &txid).unwrap();
    assert_eq!(ip, "203.0.113.50");
}

#[test]
fn a_reply_to_another_request_is_refused() {
    let txid = [1u8, 2, 3, 4, 5, 6, 7, 8, 9, 10, 11, 12];
    assert!(parse_binding_ipv4(&success(&txid), &[0u8; 12]).is_err());
    assert!(parse_binding_ipv4(&[0u8; 3], &txid).is_err());
}

#[test]
fn a_request_carries_its_transaction() {
    let txid = vec![7u8; 12];
    let r = binding_request(&txid);
    assert_eq!(r.len(), STUN_HEADER);
    assert_eq!(&r[4..8], &STUN_MAGIC.to_be_bytes()[..]);
    assert_eq!(&r[8..], &txid[..]);
    let (a, b) = (new_request(), new_request());
    assert_eq!(a.1, binding_request(&a.0));
    assert_ne!(a.0, b.0, "two requests have two transactions");
}

#[test]
fn host_settings_are_read_as_addresses() {
    assert_eq!(parse_ipv4_host(" 10.0.0.7 "), Some(0x0A00_0007));
    assert_eq!(parse_ipv4_host("255.255.255.255"), Some(u32::MAX));
    assert_eq!(parse_ipv4_host("256.0.0.1"), None);
    assert_eq!(parse_ipv4_host("01.2.3.4"), None);
    assert_eq!(parse_ipv4_host("1.2.3"), None);
    assert_eq!(parse_ipv4_host("+1.2.3.4"), None);
    assert_eq!(parse_ipv4_host(""), None);
    assert_eq!(format_socket("1.2.3.4", 9), "1.2.3.4:9");
    assert!(ipv4_usable(0x0808_0808));
    assert!(!ipv4_usable(0xE000_0001));
}

#[test]
fn the_relay_is_used_where_it_is_wanted() {
    assert!(wants_input_relay(true));
    assert!(!wants_input_relay(false));
}

#[test]
fn servers_are_asked_until_one_names_the_address() {
    let no = |e: &str| Err::<String, String>(e.to_string());
    assert!(matches!(discover_ipv4(2, &vec![]), Discovery::Ask(0)));
    assert!(matches!(discover_ipv4(2, &vec![no("late")]), Discovery::Ask(1)));
    match discover_ipv4(3, &vec![no("late"), Ok("203.0.113.9".to_string())]) {
        Discovery::Found(ip) => assert_eq!(ip, "203.0.113.9"),
        _ => panic!("the first answer counts"),
    }
    match discover_ipv4(2, &vec![no("late"), no("short")]) {
        Discovery::Failed(why) => assert_eq!(why, "short", "the last error is told"),
        _ => panic!("nobody answered"),
    }
    assert!(matches!(discover_ipv4(0, &vec![]), Discovery::Failed(w) if w == "no STUN endpoints"));
}

#[test]
fn a_loopback_address_is_never_advertised() {
    let mut c = Config::from_env(&Env { vars: vec![] }).ok().unwrap();
    let before = c.input_relay_advertise_host.clone();
    for ip in ["127.0.0.1", "127.9.9.9", "", "localhost"] {
        assert!(!c.use_public_host(ip), "{ip}");
        assert_eq!(c.input_relay_advertise_host, before);
    }
    assert!(c.use_public_host("203.0.113.9"));
    assert_eq!(c.input_relay_advertise_host, "203.0.113.9");
}
