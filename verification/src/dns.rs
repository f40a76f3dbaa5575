//! The DNS server of the captive portal: every name has the server's address.

use vstd::prelude::*;

use crate::bytes::{put, slice, zeros};
use crate::config::SERVER_IP;

verus! {

/// Port that the server listens on.
pub const SERVER_PORT: u16 = 53;

/// Room that a reply is written into.
pub const REPLY_ROOM: usize = 512;

/// Length of the fixed header, and offset of the question.
pub const HEADER_LEN: usize = 12;

/// Length of the one record that an address query is answered with.
pub const RECORD_LEN: usize = 16;

/// The record type of an IPv4 address.
pub const TYPE_A: u16 = 1;

/// The offset behind the name that starts at offset `p`: labels, each behind
/// its length, up to an empty one or up to a two-byte pointer.
pub open spec fn name_end(packet: Seq<u8>, p: int) -> Option<int>
    decreases packet.len() - p,
{
    if p < 0 || p >= packet.len() {
        None
    } else if packet[p] == 0 {
        Some(p + 1)
    } else if packet[p] >= 0xc0 {
        Some(p + 2)
    } else if p + 1 + packet[p] > packet.len() {
        None
    } else {
        name_end(packet, p + 1 + packet[p])
    }
}

/// The first question of a message: the offset behind it, and the record type
/// that it asks for.
pub open spec fn question(packet: Seq<u8>) -> Option<(int, int)> {
    if packet.len() < HEADER_LEN {
        None
    } else {
        match name_end(packet, HEADER_LEN as int) {
            Some(p) => if p + 4 <= packet.len() {
                Some((p + 4, packet[p] * 256 + packet[p + 1]))
            } else {
                None
            },
            None => None,
        }
    }
}

/// The record that an address query is answered with: the name of the
/// question, by a pointer to it; an IPv4 address of the Internet class; one
/// minute to live; and the server's address.
pub open spec fn address_record() -> Seq<u8> {
    seq![0xc0u8, 0x0c, 0, 1, 0, 1, 0, 0, 0, 60, 0, 4] + SERVER_IP@
}

/// The header of a reply: the query's identifier, the flags of a successful
/// answer with recursion, one question, and the number of answers.
pub open spec fn reply_header(id: Seq<u8>, answers: u8) -> Seq<u8> {
    id + seq![0x81u8, 0x80, 0, 1, 0, answers, 0, 0, 0, 0]
}

/// Length of the reply to a message whose question ends at `end` and asks for
/// `qtype`.
pub open spec fn reply_len(end: int, qtype: int) -> int {
    if qtype == TYPE_A {
        end + RECORD_LEN
    } else {
        end
    }
}

/// A whole reply to `packet`, whose question ends at `end` and asks for `qtype`.
pub open spec fn reply_message(packet: Seq<u8>, end: int, qtype: int) -> Seq<u8> {
    let asks_address = qtype == TYPE_A;
    reply_header(packet.take(2), if asks_address { 1 } else { 0 }) + packet.subrange(
        HEADER_LEN as int,
        end,
    ) + if asks_address { address_record() } else { Seq::empty() }
}

/// The question of a message.
#[derive(Clone, Copy, Debug, PartialEq, Eq)]
pub struct Question {
    /// Offset behind the question.
    pub end: usize,
    /// The record type that is asked for.
    pub qtype: u16,
}

impl Question {
    /// The question as plain numbers.
    pub open spec fn view(&self) -> (int, int) {
        (self.end as int, self.qtype as int)
    }

    /// Whether the reply to a message with this question fits its room.
    pub fn reply_fits(&self) -> (res: bool)
        ensures
            res == (reply_len(self@.0, self@.1) <= REPLY_ROOM),
    {
        if self.qtype == TYPE_A {
            self.end <= REPLY_ROOM - RECORD_LEN
        } else {
            self.end <= REPLY_ROOM
        }
    }
}

/// The offset behind the name of the first question.
fn skip_name(packet: &[u8]) -> (res: Option<usize>)
    requires
        packet@.len() >= HEADER_LEN,
    ensures
        match res {
            Some(p) => name_end(packet@, HEADER_LEN as int) == Some(p as int),
            None => match name_end(packet@, HEADER_LEN as int) {
                Some(p) => p > packet@.len(),
                None => true,
            },
        },
{
    let n = packet.len();
    let mut p: usize = 12;
    while p < n
        invariant
            n == packet@.len(),
            12 <= p <= n,
            name_end(packet@, HEADER_LEN as int) == name_end(packet@, p as int),
        decreases n - p,
    {
        let len = packet[p];
        assert((len & 0xc0 == 0xc0) == (len >= 0xc0)) by (bit_vector);
        if len == 0 {
            return Some(p + 1);
        }
        if len & 0xc0 == 0xc0 {
            if n - p < 2 {
                return None;
            }
            return Some(p + 2);
        }
        if len as usize >= n - p {
            return None;
        }
        p += 1 + len as usize;
    }
    None
}

/// Reads the first question of a message.
pub fn parse_question(packet: &[u8]) -> (res: Option<Question>)
    ensures
        match res {
            Some(q) => question(packet@) == Some(q@),
            None => question(packet@) is None,
        },
{
    let n = packet.len();
    if n < HEADER_LEN {
        return None;
    }
    let p = match skip_name(packet) {
        Some(p) => p,
        None => {
            return None;
        },
    };
    if n < p || n - p < 4 {
        return None;
    }
    let qtype = packet[p] as u16 * 256 + packet[p + 1] as u16;
    Some(Question { end: p + 4, qtype })
}

/// Answers a datagram that came in on the server's port.
///
/// Where the datagram holds a question, the reply is written to the front of
/// `reply`, the rest of which is zeroed, and its length is returned. Any other
/// datagram leaves `reply` as it was.
pub fn answer(packet: &[u8], reply: &mut [u8; REPLY_ROOM]) -> (res: Option<usize>)
    requires
        question(packet@) matches Some((end, qtype)) ==> reply_len(end, qtype) <= REPLY_ROOM,
    ensures
        match question(packet@) {
            Some((end, qtype)) => {
                let message = reply_message(packet@, end, qtype);
                &&& res == Some(message.len() as usize)
                &&& final(reply)@ == message + zeros((REPLY_ROOM - message.len()) as nat)
            },
            None => res is None && final(reply)@ == old(reply)@,
        },
{
    let q = match parse_question(packet) {
        Some(q) => q,
        None => {
            return None;
        },
    };
    proof {
        lemma_question_end(packet@);
    }
    let asks_address = q.qtype == TYPE_A;
    let ghost message = reply_message(packet@, q.end as int, q.qtype as int);
    *reply = [0u8;REPLY_ROOM];
    reply[0] = packet[0];
    reply[1] = packet[1];
    reply[2] = 0x81;
    reply[3] = 0x80;
    reply[5] = 1;
    reply[7] = if asks_address {
        1
    } else {
        0
    };
    put(reply, HEADER_LEN, slice(packet, HEADER_LEN, q.end));
    let mut out = q.end;
    if asks_address {
        let record: [u8; 12] = [0xc0, 0x0c, 0, 1, 0, 1, 0, 0, 0, 60, 0, 4];
        put(reply, out, &record);
        put(reply, out + 12, &SERVER_IP);
        out += RECORD_LEN;
    }
    assert(reply@ =~= message + zeros((REPLY_ROOM - message.len()) as nat));
    Some(out)
}

/// The reply to a datagram has no room.
#[derive(Clone, Copy, Debug, PartialEq, Eq)]
pub struct NoRoom;

/// Answers any datagram that came in on the server's port, as [`answer`] does.
///
/// Where the reply would not fit its room, this is said, and `reply` is left as
/// it was.
pub fn try_answer(packet: &[u8], reply: &mut [u8; REPLY_ROOM]) -> (res: Result<
    Option<usize>,
    NoRoom,
>)
    ensures
        match question(packet@) {
            Some((end, qtype)) => if reply_len(end, qtype) <= REPLY_ROOM {
                let message = reply_message(packet@, end, qtype);
                &&& res == Ok::<Option<usize>, NoRoom>(Some(message.len() as usize))
                &&& final(reply)@ == message + zeros((REPLY_ROOM - message.len()) as nat)
            } else {
                res is Err && final(reply)@ == old(reply)@
            },
            None => res == Ok::<Option<usize>, NoRoom>(None) && final(reply)@ == old(reply)@,
        },
{
    match parse_question(packet) {
        Some(q) => if q.reply_fits() {
            Ok(answer(packet, reply))
        } else {
            Err(NoRoom)
        },
        None => Ok(None),
    }
}

/// A name ends behind its start.
proof fn lemma_name_end(packet: Seq<u8>, p: int)
    ensures
        name_end(packet, p) matches Some(q) ==> p < q,
    decreases packet.len() - p,
{
    if 0 <= p < packet.len() && packet[p] != 0 && packet[p] < 0xc0 && p + 1 + packet[p]
        <= packet.len() {
        lemma_name_end(packet, p + 1 + packet[p]);
    }
}

/// A question has a name, a type and a class, and ends within the message.
proof fn lemma_question_end(packet: Seq<u8>)
    ensures
        question(packet) matches Some((end, qtype)) ==> HEADER_LEN + 5 <= end <= packet.len(),
{
    lemma_name_end(packet, HEADER_LEN as int);
}

/// A name reads the same in two messages that agree on its bytes.
proof fn lemma_name_end_same(a: Seq<u8>, b: Seq<u8>, p: int, end: int)
    requires
        0 <= p,
        name_end(a, p) == Some(end),
        end <= b.len(),
        end <= a.len(),
        forall|i: int| p <= i < end ==> a[i] == b[i],
    ensures
        name_end(b, p) == Some(end),
    decreases a.len() - p,
{
    lemma_name_end(a, p);
    if a[p] != 0 && a[p] < 0xc0 {
        lemma_name_end(a, p + 1 + a[p]);
        lemma_name_end_same(a, b, p + 1 + a[p], end);
    }
}

/// A reply repeats the question that it answers, under the query's
/// identifier.
pub proof fn law_reply_repeats_question(packet: Seq<u8>)
    requires
        question(packet) is Some,
    ensures
        ({
            let (end, qtype) = question(packet)->0;
            let reply = reply_message(packet, end, qtype);
            &&& question(reply) == question(packet)
            &&& reply.take(2) == packet.take(2)
            &&& reply.subrange(HEADER_LEN as int, end) == packet.subrange(HEADER_LEN as int, end)
        }),
{
    let (end, qtype) = question(packet)->0;
    let reply = reply_message(packet, end, qtype);
    lemma_question_end(packet);
    assert forall|i: int| HEADER_LEN <= i < end implies packet[i] == reply[i] by {}
    lemma_name_end_same(packet, reply, HEADER_LEN as int, end - 4);
    assert(reply.take(2) =~= packet.take(2));
    assert(reply.subrange(HEADER_LEN as int, end) =~= packet.subrange(HEADER_LEN as int, end));
}

/// Whatever name is asked for, an address query is told the server's address
/// in its one answer, and any other query gets no answer record.
pub proof fn law_every_name_is_the_server(packet: Seq<u8>)
    requires
        question(packet) is Some,
    ensures
        ({
            let (end, qtype) = question(packet)->0;
            let reply = reply_message(packet, end, qtype);
            &&& qtype == TYPE_A ==> {
                &&& reply[6] == 0 && reply[7] == 1
                &&& reply.len() == end + RECORD_LEN
                &&& reply.skip(end) == address_record()
                &&& reply.skip(reply.len() - 4) == SERVER_IP@
            }
            &&& qtype != TYPE_A ==> {
                &&& reply[6] == 0 && reply[7] == 0
                &&& reply.len() == end
            }
        }),
{
    let (end, qtype) = question(packet)->0;
    let reply = reply_message(packet, end, qtype);
    lemma_question_end(packet);
    if qtype == TYPE_A {
        assert(reply.skip(end) =~= address_record());
        assert(reply.skip(reply.len() - 4) =~= SERVER_IP@);
    }
}

/// The bytes of any reply: the identifier of the query; the flags of a response
/// without an error (0x81, 0x80), whatever the flags of the query; one
/// question; one answer where an address (type 1) is asked for, and none
/// otherwise; no other records; the question; and, in that one answer, the name
/// by a pointer to byte 12, an Internet address, 60 seconds to live, and
/// 192.168.4.1.
pub proof fn law_reply_bytes(packet: Seq<u8>)
    requires
        question(packet) is Some,
    ensures
        ({
            let (end, qtype) = question(packet)->0;
            let reply = reply_message(packet, end, qtype);
            &&& reply[0] == packet[0]
            &&& reply[1] == packet[1]
            &&& reply.subrange(2, 6) == seq![0x81u8, 0x80, 0, 1]
            &&& reply[6] == 0
            &&& reply[7] == (if qtype == 1 { 1u8 } else { 0u8 })
            &&& reply.subrange(8, 12) == seq![0u8, 0, 0, 0]
            &&& forall|i: int| 12 <= i < end ==> #[trigger] reply[i] == packet[i]
            &&& qtype == 1 ==> reply.skip(end) == seq![
                0xc0u8, 0x0c, 0, 1, 0, 1, 0, 0, 0, 60, 0, 4, 192, 168, 4, 1,
            ]
            &&& qtype != 1 ==> reply.len() == end
        }),
{
    let (end, qtype) = question(packet)->0;
    let reply = reply_message(packet, end, qtype);
    lemma_question_end(packet);
    assert(reply.subrange(2, 6) =~= seq![0x81u8, 0x80, 0, 1]);
    assert(reply.subrange(8, 12) =~= seq![0u8, 0, 0, 0]);
    if qtype == 1 {
        assert(reply.skip(end) =~= seq![
            0xc0u8, 0x0c, 0, 1, 0, 1, 0, 0, 0, 60, 0, 4, 192, 168, 4, 1,
        ]);
    }
}

/// A reply is as long as its message up to the end of the question, and 16
/// bytes longer where an address is asked for.
pub proof fn law_reply_len_by_type(end: int, qtype: int)
    ensures
        qtype == 1 ==> reply_len(end, qtype) == end + 16,
        qtype != 1 ==> reply_len(end, qtype) == end,
{
}

/// The length that a reply is held to have is the length that it has, and a
/// reply whose question ends by byte 496 always fits its 512 bytes.
pub proof fn law_reply_len(packet: Seq<u8>)
    requires
        question(packet) is Some,
    ensures
        ({
            let (end, qtype) = question(packet)->0;
            &&& reply_len(end, qtype) == reply_message(packet, end, qtype).len()
            &&& reply_len(end, qtype) == (if qtype == 1 { end + 16 } else { end })
            &&& end <= 496 ==> reply_len(end, qtype) <= 512
            &&& REPLY_ROOM == 512
        }),
{
    lemma_question_end(packet);
}

/// A question is a name from byte 12 on, then two bytes for the type, the high
/// one first, then two bytes for the class; all of it within the message.
pub proof fn law_question(packet: Seq<u8>, end: int, qtype: int)
    ensures
        question(packet) == Some((end, qtype)) <==> {
            &&& packet.len() >= 12
            &&& name_end(packet, 12) == Some(end - 4)
            &&& end <= packet.len()
            &&& qtype == packet[end - 4] * 256 + packet[end - 3]
        },
{
}

/// How the end of a name is found from byte `p` on: behind a 0; behind the two
/// bytes of a pointer; behind a label of the length that stands in front of it,
/// and what follows that; and nowhere, where the message ends before.
pub proof fn law_name_is_walked(packet: Seq<u8>, p: int)
    requires
        0 <= p,
    ensures
        p >= packet.len() ==> name_end(packet, p) is None,
        p < packet.len() && packet[p] == 0 ==> name_end(packet, p) == Some(p + 1),
        p < packet.len() && packet[p] >= 192 ==> name_end(packet, p) == Some(p + 2),
        p < packet.len() && 0 < packet[p] < 192 && p + 1 + packet[p] <= packet.len() ==> name_end(
            packet,
            p,
        ) == name_end(packet, p + 1 + packet[p]),
        p < packet.len() && 0 < packet[p] < 192 && p + 1 + packet[p] > packet.len() ==> name_end(
            packet,
            p,
        ) is None,
{
}

/// A name as it is sent: each label behind its length, and a 0 at the end.
pub open spec fn name_bytes(labels: Seq<Seq<u8>>) -> Seq<u8>
    decreases labels.len(),
{
    if labels.len() == 0 {
        seq![0u8]
    } else {
        seq![labels[0].len() as u8] + labels[0] + name_bytes(labels.skip(1))
    }
}

proof fn lemma_name_bytes_end(front: Seq<u8>, labels: Seq<Seq<u8>>, rest: Seq<u8>)
    requires
        forall|i: int| 0 <= i < labels.len() ==> 1 <= (#[trigger] labels[i]).len() <= 63,
    ensures
        name_end(front + name_bytes(labels) + rest, front.len() as int) == Some(
            (front + name_bytes(labels)).len() as int,
        ),
    decreases labels.len(),
{
    let packet = front + name_bytes(labels) + rest;
    let p = front.len() as int;
    if labels.len() == 0 {
        assert(packet[p] == 0);
    } else {
        let label = labels[0];
        let longer = front + seq![label.len() as u8] + label;
        assert(packet =~= longer + name_bytes(labels.skip(1)) + rest);
        assert(packet[p] == label.len() as u8);
        assert(longer.len() == p + 1 + label.len());
        lemma_name_bytes_end(longer, labels.skip(1), rest);
        law_name_is_walked(packet, p);
    }
}

/// A query for any name is understood: behind any header, a name of labels of 1
/// to 63 bytes, a type and a class are a question for that type, whatever
/// follows it.
pub proof fn law_any_name_is_understood(
    header: Seq<u8>,
    labels: Seq<Seq<u8>>,
    high: u8,
    low: u8,
    class: Seq<u8>,
    rest: Seq<u8>,
)
    requires
        header.len() == 12,
        class.len() == 2,
        forall|i: int| 0 <= i < labels.len() ==> 1 <= (#[trigger] labels[i]).len() <= 63,
    ensures
        question(header + name_bytes(labels) + seq![high, low] + class + rest) == Some(
            ((header + name_bytes(labels)).len() as int + 4, high * 256 + low),
        ),
{
    let tail = seq![high, low] + class + rest;
    let packet = header + name_bytes(labels) + seq![high, low] + class + rest;
    let p = (header + name_bytes(labels)).len() as int;
    assert(packet =~= header + name_bytes(labels) + tail);
    lemma_name_bytes_end(header, labels, tail);
    assert(packet[p] == high);
    assert(packet[p + 1] == low);
}

/// A question is read as the offset behind it and the type that it asks for.
pub proof fn law_question_view(q: Question)
    ensures
        q@ == (q.end as int, q.qtype as int),
{
}

/// The server listens where names are asked for.
pub proof fn law_where_names_are_asked_for()
    ensures
        SERVER_PORT == 53,
{
}

} // verus!
