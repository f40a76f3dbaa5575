//! The DHCP server: it leases one fixed address and announces the portal.

use vstd::prelude::*;
use vstd::string::StringSliceAdditionalSpecFns;

use crate::bytes::{put, slice, zeros};
use crate::config::{CLIENT_IP, SERVER_IP};

verus! {

/// Port that the server listens on.
pub const SERVER_PORT: u16 = 67;

/// Port that replies are sent to.
pub const CLIENT_PORT: u16 = 68;

/// Address that replies are sent to: a client has none of its own yet.
pub const BROADCAST: [u8; 4] = [255, 255, 255, 255];

/// Room that a reply is written into.
pub const REPLY_ROOM: usize = 384;

/// Offset of the options in a message, just behind the magic cookie.
pub const OPTIONS_AT: usize = 240;

/// The first four bytes of the options field.
pub const MAGIC_COOKIE: [u8; 4] = [99, 130, 83, 99];

/// Netmask that is leased.
pub const NETMASK: [u8; 4] = [255, 255, 255, 0];

/// The lease time of one hour, 3600 seconds, with the high byte first.
pub const LEASE_TIME: [u8; 4] = [0, 0, 14, 16];

/// The address of the settings page, as announced to clients.
pub open spec fn portal_url() -> Seq<u8> {
    "http://192.168.4.1/".spec_bytes()
}

/// One option as it is sent: its code, the length of its data, its data.
pub open spec fn option(code: u8, data: Seq<u8>) -> Seq<u8> {
    seq![code, data.len() as u8] + data
}

/// The options that `area` holds, in order: up to the end marker 255, the end
/// of the area, or the first option that is cut short. A 0 is padding.
pub open spec fn options(area: Seq<u8>) -> Seq<(u8, Seq<u8>)>
    decreases area.len(),
{
    if area.len() == 0 || area[0] == 255 {
        Seq::empty()
    } else if area[0] == 0 {
        options(area.skip(1))
    } else if area.len() < 2 || area.len() < 2 + area[1] {
        Seq::empty()
    } else {
        seq![(area[0], area.subrange(2, 2 + area[1]))] + options(area.skip(2 + area[1]))
    }
}

/// The data of the first option in `list` that has the given code.
pub open spec fn lookup(list: Seq<(u8, Seq<u8>)>, code: u8) -> Option<Seq<u8>>
    decreases list.len(),
{
    if list.len() == 0 {
        None
    } else if list[0].0 == code {
        Some(list[0].1)
    } else {
        lookup(list.skip(1), code)
    }
}

/// The data of the first option of `message` that has the given code.
pub open spec fn message_option(message: Seq<u8>, code: u8) -> Option<Seq<u8>> {
    if message.len() <= OPTIONS_AT {
        None
    } else {
        lookup(options(message.skip(OPTIONS_AT as int)), code)
    }
}

/// The message type of the answer that `packet` gets: an offer (2) to a
/// discover (1), an acknowledgement (5) to a request (3), and nothing else.
pub open spec fn answer_type(packet: Seq<u8>) -> Option<u8> {
    if packet.len() < OPTIONS_AT || packet[0] != 1 {
        None
    } else {
        match message_option(packet, 53) {
            Some(data) => if data.len() == 0 {
                None
            } else if data[0] == 1 {
                Some(2u8)
            } else if data[0] == 3 {
                Some(5u8)
            } else {
                None
            },
            None => None,
        }
    }
}

/// The options of a reply.
pub open spec fn reply_options(kind: u8) -> Seq<u8> {
    option(53, seq![kind]) + option(54, SERVER_IP@) + option(51, LEASE_TIME@) + option(1, NETMASK@)
        + option(3, SERVER_IP@) + option(6, SERVER_IP@) + option(114, portal_url()) + seq![255u8]
}

/// The fixed part of a reply: a BOOTP reply for an Ethernet client, with the
/// client's transaction and hardware address, the leased address and the
/// server's.
pub open spec fn reply_head(xid: Seq<u8>, chaddr: Seq<u8>) -> Seq<u8> {
    seq![2u8, 1, 6, 0] + xid + zeros(8) + CLIENT_IP@ + SERVER_IP@ + zeros(4) + chaddr + zeros(192)
        + MAGIC_COOKIE@
}

/// A whole reply.
pub open spec fn reply_message(xid: Seq<u8>, chaddr: Seq<u8>, kind: u8) -> Seq<u8> {
    reply_head(xid, chaddr) + reply_options(kind)
}

/// The transaction identifier of a message.
pub open spec fn transaction(message: Seq<u8>) -> Seq<u8> {
    message.subrange(4, 8)
}

/// The hardware address field of a message.
pub open spec fn hardware_address(message: Seq<u8>) -> Seq<u8> {
    message.subrange(28, 44)
}

proof fn lemma_portal_url()
    ensures
        portal_url().len() == 19,
{
    reveal_strlit("http://192.168.4.1/");
    vstd::utf8::is_ascii_chars_encode_utf8("http://192.168.4.1/"@);
}

/// The data of the first option of the message `buf` that has the given code,
/// if the options before it, and it, are complete.
pub fn find_dhcp_option(buf: &[u8], code: u8) -> (res: Option<&[u8]>)
    ensures
        match res {
            Some(data) => message_option(buf@, code) == Some(data@),
            None => message_option(buf@, code) is None,
        },
{
    if buf.len() <= 240 {
        return None;
    }
    let mut i: usize = 240;
    while i < buf.len()
        invariant
            OPTIONS_AT < buf@.len(),
            i <= buf.len(),
            message_option(buf@, code) == lookup(options(buf@.skip(i as int)), code),
        decreases buf@.len() - i,
    {
        let ghost rest = buf@.skip(i as int);
        let opt = buf[i];
        if opt == 255 {
            return None;
        }
        if opt == 0 {
            assert(rest.skip(1) =~= buf@.skip(i + 1));
            i += 1;
            continue ;
        }
        if i + 1 >= buf.len() {
            return None;
        }
        let len = buf[i + 1] as usize;
        if len > buf.len() - (i + 2) {
            return None;
        }
        let ghost tail = options(rest.skip(2 + rest[1]));
        assert(options(rest) == seq![(rest[0], rest.subrange(2, 2 + rest[1]))] + tail);
        assert(options(rest).skip(1) =~= tail);
        assert(rest.subrange(2, 2 + rest[1]) =~= buf@.subrange(i + 2, i + 2 + len));
        if opt == code {
            return Some(slice(buf, i + 2, i + 2 + len));
        }
        assert(rest.skip(2 + rest[1]) =~= buf@.skip(i + 2 + len));
        i += 2 + len;
    }
    None
}

/// Writes one option behind what is `done` and returns the offset behind it.
fn put_option(
    reply: &mut [u8; REPLY_ROOM],
    at: usize,
    code: u8,
    data: &[u8],
    Ghost(done): Ghost<Seq<u8>>,
) -> (end: usize)
    requires
        data@.len() <= 255,
        at == done.len(),
        at + 2 + data@.len() <= REPLY_ROOM,
        old(reply)@ == done + zeros((REPLY_ROOM - at) as nat),
    ensures
        end == at + 2 + data@.len(),
        final(reply)@ == done + option(code, data@) + zeros((REPLY_ROOM - end) as nat),
{
    reply[at] = code;
    reply[at + 1] = data.len() as u8;
    put(reply, at + 2, data);
    assert(reply@ =~= done + option(code, data@) + zeros((REPLY_ROOM - at - 2 - data@.len()) as nat));
    at + 2 + data.len()
}

/// Starts a reply to `packet` with its fixed part, and zeroes the rest.
fn put_head(packet: &[u8], reply: &mut [u8; REPLY_ROOM])
    requires
        packet@.len() >= OPTIONS_AT,
    ensures
        final(reply)@ == reply_head(transaction(packet@), hardware_address(packet@)) + zeros(
            (REPLY_ROOM - OPTIONS_AT) as nat,
        ),
{
    *reply = [0u8;REPLY_ROOM];
    reply[0] = 2;
    reply[1] = 1;
    reply[2] = 6;
    put(reply, 4, slice(packet, 4, 8));
    put(reply, 16, &CLIENT_IP);
    put(reply, 20, &SERVER_IP);
    put(reply, 28, slice(packet, 28, 44));
    put(reply, 236, &MAGIC_COOKIE);
    assert(reply@ =~= reply_head(transaction(packet@), hardware_address(packet@)) + zeros(
        (REPLY_ROOM - OPTIONS_AT) as nat,
    ));
}

/// Completes a reply with its options and returns its length.
fn put_options(reply: &mut [u8; REPLY_ROOM], kind: u8, Ghost(head): Ghost<Seq<u8>>) -> (end: usize)
    requires
        head.len() == OPTIONS_AT,
        old(reply)@ == head + zeros((REPLY_ROOM - OPTIONS_AT) as nat),
    ensures
        end == (head + reply_options(kind)).len(),
        final(reply)@ == head + reply_options(kind) + zeros((REPLY_ROOM - end) as nat),
{
    proof {
        lemma_portal_url();
    }
    let mut o: usize = 240;
    let message_type = [kind];
    assert(message_type@ =~= seq![kind]);
    o = put_option(reply, o, 53, &message_type, Ghost(head));
    let ghost done = head + option(53, seq![kind]);
    o = put_option(reply, o, 54, &SERVER_IP, Ghost(done));
    let ghost done = done + option(54, SERVER_IP@);
    o = put_option(reply, o, 51, &LEASE_TIME, Ghost(done));
    let ghost done = done + option(51, LEASE_TIME@);
    o = put_option(reply, o, 1, &NETMASK, Ghost(done));
    let ghost done = done + option(1, NETMASK@);
    o = put_option(reply, o, 3, &SERVER_IP, Ghost(done));
    let ghost done = done + option(3, SERVER_IP@);
    o = put_option(reply, o, 6, &SERVER_IP, Ghost(done));
    let ghost done = done + option(6, SERVER_IP@);
    o = put_option(reply, o, 114, "http://192.168.4.1/".as_bytes(), Ghost(done));
    let ghost done = done + option(114, portal_url());
    reply[o] = 255;
    o += 1;
    assert(reply@ =~= done + seq![255u8] + zeros((REPLY_ROOM - o) as nat));
    assert(head + reply_options(kind) =~= done + seq![255u8]);
    o
}

/// Answers a datagram that came in on the server's port.
///
/// Where the datagram calls for an answer, it is written to the front of
/// `reply`, the rest of which is zeroed, and its length is returned. Any other
/// datagram leaves `reply` as it was.
pub fn answer(packet: &[u8], reply: &mut [u8; REPLY_ROOM]) -> (res: Option<usize>)
    ensures
        match answer_type(packet@) {
            Some(kind) => {
                let message = reply_message(transaction(packet@), hardware_address(packet@), kind);
                &&& res == Some(message.len() as usize)
                &&& final(reply)@ == message + zeros((REPLY_ROOM - message.len()) as nat)
            },
            None => res is None && final(reply)@ == old(reply)@,
        },
{
    if packet.len() < 240 || packet[0] != 1 {
        return None;
    }
    let kind: u8 = match find_dhcp_option(packet, 53) {
        Some(data) => {
            if data.len() == 0 {
                return None;
            }
            if data[0] == 1 {
                2
            } else if data[0] == 3 {
                5
            } else {
                return None;
            }
        },
        None => {
            return None;
        },
    };
    put_head(packet, reply);
    let ghost head = reply_head(transaction(packet@), hardware_address(packet@));
    Some(put_options(reply, kind, Ghost(head)))
}

/// An option in front of an area is the first of its options.
proof fn lemma_options_cons(code: u8, data: Seq<u8>, rest: Seq<u8>)
    requires
        code != 0,
        code != 255,
        data.len() <= 255,
    ensures
        options(option(code, data) + rest) == seq![(code, data)] + options(rest),
{
    let area = option(code, data) + rest;
    assert(area.subrange(2, 2 + area[1]) =~= data);
    assert(area.skip(2 + area[1]) =~= rest);
}

/// A reply carries the request's transaction and hardware address, leases
/// `CLIENT_IP`, and names the server as the next server.
pub proof fn law_reply_addresses(xid: Seq<u8>, chaddr: Seq<u8>, kind: u8)
    requires
        xid.len() == 4,
        chaddr.len() == 16,
    ensures
        ({
            let message = reply_message(xid, chaddr, kind);
            &&& transaction(message) == xid
            &&& hardware_address(message) == chaddr
            &&& message.subrange(16, 20) == CLIENT_IP@
            &&& message.subrange(20, 24) == SERVER_IP@
        }),
{
    let message = reply_message(xid, chaddr, kind);
    assert(transaction(message) =~= xid);
    assert(hardware_address(message) =~= chaddr);
    assert(message.subrange(16, 20) =~= CLIENT_IP@);
    assert(message.subrange(20, 24) =~= SERVER_IP@);
}

/// A client that reads the options of a reply finds exactly these, in this
/// order: the message type, the server, the lease time, the netmask, the
/// router, the name server, and the address of the portal.
pub proof fn law_reply_options_read_back(xid: Seq<u8>, chaddr: Seq<u8>, kind: u8)
    requires
        xid.len() == 4,
        chaddr.len() == 16,
    ensures
        options(reply_message(xid, chaddr, kind).skip(OPTIONS_AT as int)) == seq![
            (53u8, seq![kind]),
            (54u8, SERVER_IP@),
            (51u8, LEASE_TIME@),
            (1u8, NETMASK@),
            (3u8, SERVER_IP@),
            (6u8, SERVER_IP@),
            (114u8, portal_url()),
        ],
        message_option(reply_message(xid, chaddr, kind), 53) == Some(seq![kind]),
{
    lemma_portal_url();
    let message = reply_message(xid, chaddr, kind);
    let end = seq![255u8];
    let a7 = option(114, portal_url()) + end;
    let a6 = option(6, SERVER_IP@) + a7;
    let a5 = option(3, SERVER_IP@) + a6;
    let a4 = option(1, NETMASK@) + a5;
    let a3 = option(51, LEASE_TIME@) + a4;
    let a2 = option(54, SERVER_IP@) + a3;
    let a1 = option(53, seq![kind]) + a2;
    assert(message.skip(OPTIONS_AT as int) =~= reply_options(kind));
    assert(reply_options(kind) =~= a1);
    lemma_options_cons(114, portal_url(), end);
    lemma_options_cons(6, SERVER_IP@, a7);
    lemma_options_cons(3, SERVER_IP@, a6);
    lemma_options_cons(1, NETMASK@, a5);
    lemma_options_cons(51, LEASE_TIME@, a4);
    lemma_options_cons(54, SERVER_IP@, a3);
    lemma_options_cons(53, seq![kind], a2);
    assert(options(end) =~= Seq::empty());
    assert(options(a1) =~= seq![
        (53u8, seq![kind]),
        (54u8, SERVER_IP@),
        (51u8, LEASE_TIME@),
        (1u8, NETMASK@),
        (3u8, SERVER_IP@),
        (6u8, SERVER_IP@),
        (114u8, portal_url()),
    ]);
}

/// A reply always fits its room, and gets no answer itself.
pub proof fn law_reply_is_final(xid: Seq<u8>, chaddr: Seq<u8>, kind: u8)
    requires
        xid.len() == 4,
        chaddr.len() == 16,
    ensures
        reply_message(xid, chaddr, kind).len() == 295,
        reply_message(xid, chaddr, kind).len() <= REPLY_ROOM,
        answer_type(reply_message(xid, chaddr, kind)) is None,
{
    lemma_portal_url();
}

/// What stands where in a reply, of either kind: the fixed fields of a BOOTP
/// reply over Ethernet, the leased address 192.168.4.42, the server
/// 192.168.4.1, and the magic cookie, with zeros in every other field.
pub proof fn law_reply_fields(xid: Seq<u8>, chaddr: Seq<u8>, kind: u8)
    requires
        xid.len() == 4,
        chaddr.len() == 16,
    ensures
        ({
            let message = reply_message(xid, chaddr, kind);
            &&& message.len() == 295
            &&& message.subrange(0, 4) == seq![2u8, 1, 6, 0]
            &&& message.subrange(4, 8) == xid
            &&& forall|i: int| 8 <= i < 16 ==> #[trigger] message[i] == 0
            &&& message.subrange(16, 20) == seq![192u8, 168, 4, 42]
            &&& message.subrange(20, 24) == seq![192u8, 168, 4, 1]
            &&& forall|i: int| 24 <= i < 28 ==> #[trigger] message[i] == 0
            &&& message.subrange(28, 44) == chaddr
            &&& forall|i: int| 44 <= i < 236 ==> #[trigger] message[i] == 0
            &&& message.subrange(236, 240) == seq![99u8, 130, 83, 99]
        }),
{
    lemma_portal_url();
    let message = reply_message(xid, chaddr, kind);
    assert(message.subrange(0, 4) =~= seq![2u8, 1, 6, 0]);
    assert(message.subrange(4, 8) =~= xid);
    assert(message.subrange(16, 20) =~= seq![192u8, 168, 4, 42]);
    assert(message.subrange(20, 24) =~= seq![192u8, 168, 4, 1]);
    assert(message.subrange(28, 44) =~= chaddr);
    assert(message.subrange(236, 240) =~= seq![99u8, 130, 83, 99]);
}

/// What stands where in the options of a reply, of either kind: the message
/// type, the server, a lease of 3600 seconds, the netmask of 24 bits, the
/// server as router and as name server, the address of the portal, and the end.
pub proof fn law_reply_option_fields(xid: Seq<u8>, chaddr: Seq<u8>, kind: u8)
    requires
        xid.len() == 4,
        chaddr.len() == 16,
    ensures
        ({
            let message = reply_message(xid, chaddr, kind);
            &&& message.subrange(240, 243) == seq![53u8, 1, kind]
            &&& message.subrange(243, 249) == seq![54u8, 4, 192, 168, 4, 1]
            &&& message.subrange(249, 251) == seq![51u8, 4]
            &&& message[251] * 16777216 + message[252] * 65536 + message[253] * 256 + message[254]
                == 3600
            &&& message.subrange(255, 261) == seq![1u8, 4, 255, 255, 255, 0]
            &&& message.subrange(261, 267) == seq![3u8, 4, 192, 168, 4, 1]
            &&& message.subrange(267, 273) == seq![6u8, 4, 192, 168, 4, 1]
            &&& message.subrange(273, 275) == seq![114u8, 19]
            &&& message.subrange(275, 294) == "http://192.168.4.1/".spec_bytes()
            &&& message[294] == 255
        }),
{
    lemma_portal_url();
    let message = reply_message(xid, chaddr, kind);
    let area = reply_options(kind);
    assert(message.skip(240) =~= area);
    assert forall|i: int| 240 <= i < 295 implies message[i] == #[trigger] area[i - 240] by {
        assert(message.skip(240)[i - 240] == message[i]);
    }
    assert(message.subrange(240, 243) =~= seq![53u8, 1, kind]);
    assert(message.subrange(243, 249) =~= seq![54u8, 4, 192, 168, 4, 1]);
    assert(message.subrange(249, 251) =~= seq![51u8, 4]);
    assert(message.subrange(255, 261) =~= seq![1u8, 4, 255, 255, 255, 0]);
    assert(message.subrange(261, 267) =~= seq![3u8, 4, 192, 168, 4, 1]);
    assert(message.subrange(267, 273) =~= seq![6u8, 4, 192, 168, 4, 1]);
    assert(message.subrange(273, 275) =~= seq![114u8, 19]);
    assert(message.subrange(275, 294) =~= "http://192.168.4.1/".spec_bytes());
}

/// The reply to a packet is for that packet's client: it has the transaction
/// (bytes 4 to 7) and the hardware address (bytes 28 to 43) of the packet.
pub proof fn law_reply_is_for_its_client(packet: Seq<u8>, kind: u8)
    requires
        packet.len() >= 240,
    ensures
        ({
            let message = reply_message(transaction(packet), hardware_address(packet), kind);
            &&& message.len() == 295
            &&& forall|i: int| 4 <= i < 8 ==> #[trigger] message[i] == packet[i]
            &&& forall|i: int| 28 <= i < 44 ==> #[trigger] message[i] == packet[i]
        }),
{
    let xid = transaction(packet);
    let chaddr = hardware_address(packet);
    let message = reply_message(xid, chaddr, kind);
    law_reply_fields(xid, chaddr, kind);
    assert forall|i: int| 4 <= i < 8 implies #[trigger] message[i] == packet[i] by {
        assert(message.subrange(4, 8)[i - 4] == xid[i - 4]);
    }
    assert forall|i: int| 28 <= i < 44 implies #[trigger] message[i] == packet[i] by {
        assert(message.subrange(28, 44)[i - 28] == chaddr[i - 28]);
    }
}

/// An offer is the answer to a discover and to nothing else, an acknowledgement
/// that to a request and to nothing else, and there is no other answer. Either
/// comes in a BOOTP request of at least 240 bytes, whose option 53 says which.
pub proof fn law_what_is_answered(packet: Seq<u8>)
    ensures
        answer_type(packet) == Some(2u8) <==> {
            &&& packet.len() >= 240
            &&& packet[0] == 1
            &&& message_option(packet, 53) matches Some(data)
            &&& data.len() > 0
            &&& data[0] == 1
        },
        answer_type(packet) == Some(5u8) <==> {
            &&& packet.len() >= 240
            &&& packet[0] == 1
            &&& message_option(packet, 53) matches Some(data)
            &&& data.len() > 0
            &&& data[0] == 3
        },
        answer_type(packet) matches Some(kind) ==> kind == 2 || kind == 5,
{
}

/// How options are found behind the 240 bytes in front of them, whatever these
/// are: an option is found by its code, or skipped with its data; a 0 is
/// skipped; and a 255 ends the options.
pub proof fn law_options_are_walked(
    head: Seq<u8>,
    other: Seq<u8>,
    kind: u8,
    data: Seq<u8>,
    rest: Seq<u8>,
    code: u8,
)
    requires
        head.len() == 240,
        other.len() == 240,
        kind != 0,
        kind != 255,
        data.len() <= 255,
    ensures
        message_option(head, code) is None,
        message_option(head + seq![255u8] + rest, code) is None,
        message_option(head + seq![0u8] + rest, code) == message_option(head + rest, code),
        kind == code ==> message_option(
            head + seq![kind, data.len() as u8] + data + rest,
            code,
        ) == Some(data),
        kind != code ==> message_option(head + seq![kind, data.len() as u8] + data + rest, code)
            == message_option(head + rest, code),
        message_option(head + rest, code) == message_option(other + rest, code),
{
    assert((head + rest).skip(240) =~= rest);
    assert((other + rest).skip(240) =~= rest);
    assert((head + seq![255u8] + rest).skip(240) =~= seq![255u8] + rest);
    let padded = seq![0u8] + rest;
    assert((head + seq![0u8] + rest).skip(240) =~= padded);
    assert(padded.skip(1) =~= rest);
    assert(options(padded) == options(rest));
    let longer = option(kind, data) + rest;
    assert((head + seq![kind, data.len() as u8] + data + rest).skip(240) =~= longer);
    lemma_options_cons(kind, data, rest);
    assert(options(longer).skip(1) =~= options(rest));
    assert(lookup(Seq::<(u8, Seq<u8>)>::empty(), code) is None);
    assert(options(Seq::<u8>::empty()) =~= Seq::empty());
    if rest.len() == 0 {
        assert(rest =~= Seq::<u8>::empty());
    }
}

/// An option that is cut short is not found, and ends the options: one without
/// a length, and one with less data than its length.
pub proof fn law_cut_option_is_not_found(
    head: Seq<u8>,
    kind: u8,
    len: u8,
    data: Seq<u8>,
    code: u8,
)
    requires
        head.len() == 240,
        kind != 0,
        data.len() < len,
    ensures
        message_option(head + seq![kind], code) is None,
        message_option(head + seq![kind, len] + data, code) is None,
{
    assert((head + seq![kind]).skip(240) =~= seq![kind]);
    assert((head + seq![kind, len] + data).skip(240) =~= seq![kind, len] + data);
    assert(options(seq![kind]) =~= Seq::empty());
    assert(options(seq![kind, len] + data) =~= Seq::empty());
}

/// A discover (type 1) is offered, and a request (type 3) is acknowledged, the
/// lease, and no other type is answered: whatever stands in the fixed part, and
/// whatever options come behind the message type.
pub proof fn law_clients_are_answered(head: Seq<u8>, kind: u8, rest: Seq<u8>)
    requires
        head.len() == 240,
        head[0] == 1,
    ensures
        ({
            let answered = answer_type(head + seq![53u8, 1, kind] + rest);
            &&& kind == 1 ==> answered == Some(2u8)
            &&& kind == 3 ==> answered == Some(5u8)
            &&& kind != 1 && kind != 3 ==> answered is None
        }),
{
    law_options_are_walked(head, head, 53, seq![kind], rest, 53);
    assert(head + seq![53u8, 1, kind] + rest =~= head + seq![53u8, 1u8] + seq![kind] + rest);
}

/// A packet that is too short for a message, or that is no BOOTP request, is
/// not answered.
pub proof fn law_other_packets_are_not_answered(packet: Seq<u8>)
    requires
        packet.len() < 240 || packet[0] != 1,
    ensures
        answer_type(packet) is None,
{
}

/// Replies go from port 67 to port 68 of every host on the network.
pub proof fn law_where_replies_go()
    ensures
        SERVER_PORT == 67,
        CLIENT_PORT == 68,
        BROADCAST@ == seq![255u8, 255, 255, 255],
{
    assert(BROADCAST@ =~= seq![255u8, 255, 255, 255]);
}

} // verus!
