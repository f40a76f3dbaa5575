use pico_blink::config::{CLIENT_IP, SERVER_IP};
use pico_blink::{dhcp, dns};

fn discover(kind: u8) -> Vec<u8> {
    let mut p = vec![0u8; 240];
    p[0] = 1;
    p[1] = 1;
    p[2] = 6;
    p[4..8].copy_from_slice(&[0xde, 0xad, 0xbe, 0xef]);
    for i in 0..16 {
        p[28 + i] = i as u8 + 1;
    }
    p[236..240].copy_from_slice(&[99, 130, 83, 99]);
    p.extend_from_slice(&[0, 0, 12, 2, 7, 7, 53, 1, kind, 255]);
    p
}

#[test]
fn dhcp_option_is_found_behind_padding_and_others() {
    let p = discover(1);
    assert_eq!(dhcp::find_dhcp_option(&p, 53), Some(&[1u8][..]));
    assert_eq!(dhcp::find_dhcp_option(&p, 12), Some(&[7u8, 7][..]));
    assert_eq!(dhcp::find_dhcp_option(&p, 54), None);
    assert_eq!(dhcp::find_dhcp_option(&p, 0), None);
    assert_eq!(dhcp::find_dhcp_option(&p, 255), None);
}

#[test]
fn dhcp_option_needs_a_complete_area() {
    let mut p = vec![0u8; 240];
    assert_eq!(dhcp::find_dhcp_option(&p, 53), None);
    assert_eq!(dhcp::find_dhcp_option(&p[..10], 53), None);
    p.push(53);
    assert_eq!(dhcp::find_dhcp_option(&p, 53), None);
    p.push(2);
    assert_eq!(dhcp::find_dhcp_option(&p, 53), None);
    p.push(9);
    assert_eq!(dhcp::find_dhcp_option(&p, 53), None);
    p.push(8);
    assert_eq!(dhcp::find_dhcp_option(&p, 53), Some(&[9u8, 8][..]));
}

#[test]
fn dhcp_first_of_two_options_counts() {
    let mut p = vec![0u8; 240];
    p.extend_from_slice(&[53, 1, 3, 53, 1, 1, 61, 0]);
    assert_eq!(dhcp::find_dhcp_option(&p, 53), Some(&[3u8][..]));
    assert_eq!(dhcp::find_dhcp_option(&p, 61), Some(&[][..]));
}

#[test]
fn dhcp_end_marker_hides_what_follows() {
    let mut p = vec![0u8; 240];
    p.extend_from_slice(&[255, 53, 1, 1]);
    assert_eq!(dhcp::find_dhcp_option(&p, 53), None);
}

#[test]
fn dhcp_discover_gets_an_offer() {
    let mut reply = [0xaau8; 384];
    let n = dhcp::answer(&discover(1), &mut reply).unwrap();
    assert_eq!(n, 295);
    let mut expected = vec![0u8; 240];
    expected[..3].copy_from_slice(&[2, 1, 6]);
    expected[4..8].copy_from_slice(&[0xde, 0xad, 0xbe, 0xef]);
    expected[16..20].copy_from_slice(&[192, 168, 4, 42]);
    expected[20..24].copy_from_slice(&[192, 168, 4, 1]);
    for i in 0..16 {
        expected[28 + i] = i as u8 + 1;
    }
    expected[236..240].copy_from_slice(&[99, 130, 83, 99]);
    expected.extend_from_slice(&[53, 1, 2]);
    expected.extend_from_slice(&[54, 4, 192, 168, 4, 1]);
    expected.extend_from_slice(&[51, 4, 0, 0, 0x0e, 0x10]);
    expected.extend_from_slice(&[1, 4, 255, 255, 255, 0]);
    expected.extend_from_slice(&[3, 4, 192, 168, 4, 1]);
    expected.extend_from_slice(&[6, 4, 192, 168, 4, 1]);
    expected.extend_from_slice(&[114, 19]);
    expected.extend_from_slice(b"http://192.168.4.1/");
    expected.push(255);
    assert_eq!(&reply[..n], &expected[..]);
    assert!(reply[n..].iter().all(|b| *b == 0));
    assert_eq!(&dhcp::LEASE_TIME, &3600u32.to_be_bytes());
}

#[test]
fn dhcp_request_gets_an_acknowledgement() {
    let mut reply = [0u8; 384];
    let n = dhcp::answer(&discover(3), &mut reply).unwrap();
    assert_eq!(dhcp::find_dhcp_option(&reply[..n], 53), Some(&[5u8][..]));
    assert_eq!(dhcp::find_dhcp_option(&reply[..n], 54), Some(&SERVER_IP[..]));
    assert_eq!(dhcp::find_dhcp_option(&reply[..n], 114), Some(&b"http://192.168.4.1/"[..]));
    assert_eq!(&reply[16..20], &CLIENT_IP);
}

#[test]
fn dhcp_replies_get_no_answer() {
    let mut reply = [0u8; 384];
    let n = dhcp::answer(&discover(1), &mut reply).unwrap();
    let sent = reply[..n].to_vec();
    let mut other = [0x55u8; 384];
    assert_eq!(dhcp::answer(&sent, &mut other), None);
    assert_eq!(other, [0x55u8; 384]);
}

#[test]
fn dhcp_other_messages_get_no_answer() {
    let mut reply = [0x11u8; 384];
    for kind in [0u8, 2, 4, 5, 6, 7, 8, 255] {
        assert_eq!(dhcp::answer(&discover(kind), &mut reply), None);
    }
    assert_eq!(dhcp::answer(&discover(1)[..239], &mut reply), None);
    assert_eq!(dhcp::answer(&discover(1)[..240], &mut reply), None);
    assert_eq!(dhcp::answer(&[], &mut reply), None);
    let mut from_server = discover(1);
    from_server[0] = 2;
    assert_eq!(dhcp::answer(&from_server, &mut reply), None);
    let mut empty_type = vec![0u8; 240];
    empty_type[0] = 1;
    empty_type.extend_from_slice(&[53, 0, 53, 1, 1, 255]);
    assert_eq!(dhcp::answer(&empty_type, &mut reply), None);
    assert_eq!(reply, [0x11u8; 384]);
}

fn query(qtype: u16) -> Vec<u8> {
    let mut p = vec![0x12, 0x34, 1, 0, 0, 1, 0, 0, 0, 0, 0, 1];
    p.extend_from_slice(b"\x07example\x03com\x00");
    p.extend_from_slice(&qtype.to_be_bytes());
    p.extend_from_slice(&[0, 1]);
    p.extend_from_slice(&[0, 0, 41, 16, 0, 0, 0, 0, 0, 0, 0]);
    p
}

#[test]
fn dns_address_query_gets_the_server() {
    let mut reply = [0xaau8; 512];
    let n = dns::answer(&query(1), &mut reply).unwrap();
    let mut expected = vec![0x12, 0x34, 0x81, 0x80, 0, 1, 0, 1, 0, 0, 0, 0];
    expected.extend_from_slice(b"\x07example\x03com\x00\x00\x01\x00\x01");
    expected.extend_from_slice(&[0xc0, 0x0c, 0, 1, 0, 1, 0, 0, 0, 60, 0, 4, 192, 168, 4, 1]);
    assert_eq!(&reply[..n], &expected[..]);
    assert!(reply[n..].iter().all(|b| *b == 0));
}

#[test]
fn dns_other_query_gets_no_record() {
    let mut reply = [0xaau8; 512];
    let n = dns::answer(&query(28), &mut reply).unwrap();
    let mut expected = vec![0x12, 0x34, 0x81, 0x80, 0, 1, 0, 0, 0, 0, 0, 0];
    expected.extend_from_slice(b"\x07example\x03com\x00\x00\x1c\x00\x01");
    assert_eq!(&reply[..n], &expected[..]);
}

#[test]
fn dns_reply_repeats_the_question() {
    let q = query(1);
    let mut reply = [0u8; 512];
    let n = dns::answer(&q, &mut reply).unwrap();
    assert_eq!(dns::parse_question(&reply[..n]), dns::parse_question(&q));
    assert_eq!(dns::parse_question(&q), Some(dns::Question { end: 29, qtype: 1 }));
}

#[test]
fn dns_type_has_its_high_byte_first() {
    assert_eq!(dns::parse_question(&query(0x0102)).unwrap().qtype, 0x0102);
}

#[test]
fn dns_name_may_end_in_a_pointer() {
    let mut p = vec![0u8; 12];
    p.extend_from_slice(&[1, b'a', 0xc0, 0x0c, 0, 1, 0, 1]);
    assert_eq!(dns::parse_question(&p), Some(dns::Question { end: 20, qtype: 1 }));
    let mut reply = [0u8; 512];
    assert_eq!(dns::answer(&p, &mut reply), Some(36));
}

#[test]
fn dns_broken_questions_get_no_answer() {
    let mut reply = [0x22u8; 512];
    assert_eq!(dns::answer(&[], &mut reply), None);
    assert_eq!(dns::answer(&query(1)[..11], &mut reply), None);
    assert_eq!(dns::answer(&query(1)[..12], &mut reply), None);
    assert_eq!(dns::answer(&query(1)[..20], &mut reply), None);
    assert_eq!(dns::answer(&query(1)[..25], &mut reply), None);
    assert_eq!(dns::answer(&query(1)[..28], &mut reply), None);
    let mut pointer_at_the_end = vec![0u8; 12];
    pointer_at_the_end.push(0xc0);
    assert_eq!(dns::answer(&pointer_at_the_end, &mut reply), None);
    let mut label_past_the_end = vec![0u8; 12];
    label_past_the_end.extend_from_slice(&[0xbf, 0, 0, 0, 0, 0]);
    assert_eq!(dns::answer(&label_past_the_end, &mut reply), None);
    assert_eq!(reply, [0x22u8; 512]);
}

#[test]
fn dns_room_for_the_reply() {
    assert!(dns::Question { end: 496, qtype: 1 }.reply_fits());
    assert!(!dns::Question { end: 497, qtype: 1 }.reply_fits());
    assert!(dns::Question { end: 512, qtype: 28 }.reply_fits());
    assert!(!dns::Question { end: 513, qtype: 28 }.reply_fits());
}

#[test]
fn dns_longest_query_that_fits() {
    let mut p = vec![0u8; 12];
    for _ in 0..7 {
        p.push(63);
        p.extend_from_slice(&[b'x'; 63]);
    }
    p.push(30);
    p.extend_from_slice(&[b'y'; 30]);
    p.extend_from_slice(&[0, 0, 1, 0, 1]);
    assert_eq!(p.len(), 496);
    let mut reply = [0u8; 512];
    assert!(dns::parse_question(&p).unwrap().reply_fits());
    assert_eq!(dns::answer(&p, &mut reply), Some(512));
    assert_eq!(&reply[508..], &[192, 168, 4, 1]);
}

#[test]
fn dns_reply_without_room() {
    let mut p = vec![0u8; 12];
    for _ in 0..7 {
        p.push(63);
        p.extend_from_slice(&[b'x'; 63]);
    }
    p.push(31);
    p.extend_from_slice(&[b'y'; 31]);
    p.extend_from_slice(&[0, 0, 1, 0, 1]);
    assert_eq!(p.len(), 497);
    let mut reply = [7u8; 512];
    assert_eq!(dns::try_answer(&p, &mut reply), Err(dns::NoRoom));
    assert_eq!(reply, [7u8; 512]);
    assert_eq!(dns::try_answer(&p[..496], &mut reply), Ok(None));
    assert_eq!(reply, [7u8; 512]);
    p[494] = 28;
    assert_eq!(dns::try_answer(&p, &mut reply), Ok(Some(497)));
    assert_eq!(&reply[12..497], &p[12..]);
    assert_eq!(&reply[497..], &[0u8; 15]);
}

#[test]
fn dns_either_way_to_answer_is_the_same() {
    let (mut a, mut b) = ([7u8; 512], [7u8; 512]);
    for packet in [query(1), query(28), vec![], query(1)[..20].to_vec()] {
        assert_eq!(dns::try_answer(&packet, &mut a), Ok(dns::answer(&packet, &mut b)));
        assert_eq!(a, b);
    }
}
