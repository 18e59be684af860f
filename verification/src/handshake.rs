//! The handshake that opens a connection.
use crate::bytes::{push_all, push_zeros, zeros};
use crate::text::text_from_utf8;
use vstd::prelude::*;
use vstd::utf8::{decode_utf8, encode_utf8, valid_utf8};

verus! {

/// The number of bytes of a handshake.
pub const HANDSHAKE_LENGTH: usize = 68;

/// Why a handshake was turned down.
#[derive(Debug, Clone, Copy, PartialEq, Eq, Structural)]
pub enum HandshakeFailure {
    WrongFirstByte,
    WrongProtocol,
}

/// The name of the protocol, in bytes.
pub open spec fn protocol() -> Seq<u8> {
    encode_utf8("BitTorrent protocol"@)
}

/// The handshake for a torrent: the length of the name of the protocol, the
/// name, eight reserved bytes, the digest of the torrent, and the identity of
/// the client, which is all zeros.
pub open spec fn handshake_bytes(info_hash: Seq<u8>) -> Seq<u8> {
    seq![19u8] + protocol() + zeros(8) + info_hash + zeros(20)
}

/// The bytes of a reply that name the protocol.
pub open spec fn reply_protocol(reply: Seq<u8>) -> Seq<u8> {
    reply.subrange(1, 20)
}

/// Whether a reply can be looked at: it is complete, and if it claims a name
/// of the right length that name is text.
pub open spec fn reply_readable(reply: Seq<u8>) -> bool {
    &&& reply.len() == HANDSHAKE_LENGTH
    &&& reply[0] == 19 ==> valid_utf8(reply_protocol(reply))
}

/// What comes of the reply to a handshake. Only the protocol counts; neither
/// the digest nor the identity is looked at.
pub open spec fn reply_outcome(reply: Seq<u8>) -> Result<(), HandshakeFailure> {
    if reply[0] != 19 {
        Err(HandshakeFailure::WrongFirstByte)
    } else if reply_protocol(reply) != protocol() {
        Err(HandshakeFailure::WrongProtocol)
    } else {
        Ok(())
    }
}

proof fn lemma_protocol()
    ensures
        protocol().len() == 19,
        valid_utf8(protocol()),
        decode_utf8(protocol()) == "BitTorrent protocol"@,
{
    reveal_strlit("BitTorrent protocol");
    vstd::utf8::is_ascii_chars_encode_utf8("BitTorrent protocol"@);
    vstd::utf8::encode_utf8_valid_utf8("BitTorrent protocol"@);
    vstd::utf8::encode_utf8_decode_utf8("BitTorrent protocol"@);
}

/// The handshake to send for the torrent with the digest `info_hash`.
pub fn handshake_message(info_hash: &[u8]) -> (message: Vec<u8>)
    ensures
        message@ == handshake_bytes(info_hash@),
{
    let mut message: Vec<u8> = Vec::new();
    message.push(19);
    push_all(&mut message, "BitTorrent protocol".as_bytes());
    push_zeros(&mut message, 8);
    push_all(&mut message, info_hash);
    push_zeros(&mut message, 20);
    assert(message@ =~= handshake_bytes(info_hash@));
    message
}

/// The bytes of a reply that name the protocol.
fn protocol_field(reply: &[u8]) -> (name: Vec<u8>)
    requires
        reply@.len() == HANDSHAKE_LENGTH,
    ensures
        name@ == reply_protocol(reply@),
{
    let mut name: Vec<u8> = Vec::new();
    let mut i: usize = 1;
    while i < 20
        invariant
            1 <= i <= 20,
            reply@.len() == HANDSHAKE_LENGTH,
            name@ == reply@.subrange(1, i as int),
        decreases 20 - i,
    {
        name.push(reply[i]);
        i = i + 1;
        assert(name@ =~= reply@.subrange(1, i as int));
    }
    name
}

/// Whether `check_reply` can look at a reply.
pub fn is_reply_readable(reply: &[u8]) -> (readable: bool)
    ensures
        readable == reply_readable(reply@),
{
    if reply.len() != HANDSHAKE_LENGTH {
        return false;
    }
    reply[0] != 19 || text_from_utf8(protocol_field(reply)).is_some()
}

/// Looks at the reply to a handshake.
pub fn check_reply(reply: &[u8]) -> (outcome: Result<(), HandshakeFailure>)
    requires
        reply_readable(reply@),
    ensures
        outcome == reply_outcome(reply@),
{
    if reply[0] != 19 {
        return Err(HandshakeFailure::WrongFirstByte);
    }
    proof {
        lemma_protocol();
        vstd::utf8::decode_utf8_encode_utf8(reply_protocol(reply@));
    }
    match text_from_utf8(protocol_field(reply)) {
        Some(name) => {
            if name == "BitTorrent protocol".to_owned() {
                Ok(())
            } else {
                Err(HandshakeFailure::WrongProtocol)
            }
        },
        None => Err(HandshakeFailure::WrongProtocol),
    }
}

/// A client accepts the handshake that a client like it sends, for any torrent.
pub proof fn law_own_handshake_is_accepted(info_hash: Seq<u8>)
    requires
        info_hash.len() == 20,
    ensures
        handshake_bytes(info_hash).len() == HANDSHAKE_LENGTH,
        handshake_bytes(info_hash).subrange(28, 48) == info_hash,
        reply_readable(handshake_bytes(info_hash)),
        reply_outcome(handshake_bytes(info_hash)) is Ok,
{
    lemma_protocol();
    let message = handshake_bytes(info_hash);
    assert(reply_protocol(message) =~= protocol());
    assert(message.subrange(28, 48) =~= info_hash);
}

/// The twenty bytes that every handshake begins with: nineteen, and the text
/// `BitTorrent protocol`.
pub open spec fn opening() -> Seq<u8> {
    seq![
        19u8, 66, 105, 116, 84, 111, 114, 114, 101, 110, 116, 32, 112, 114, 111, 116, 111, 99, 111,
        108,
    ]
}

proof fn lemma_opening()
    ensures
        opening() == seq![19u8] + protocol(),
        opening().len() == 20,
{
    lemma_protocol();
    let text = "BitTorrent protocol"@;
    reveal_strlit("BitTorrent protocol");
    vstd::utf8::is_ascii_chars_encode_utf8(text);
    assert(opening() =~= seq![19u8] + protocol());
}

/// What a handshake is made of, byte by byte: the opening, eight zeros, the
/// digest, and twenty zeros.
pub proof fn law_handshake_layout(info_hash: Seq<u8>)
    ensures
        ({
            let m = handshake_bytes(info_hash);
            let n = info_hash.len() as int;
            &&& m.len() == 48 + n
            &&& m.subrange(0, 20) == opening()
            &&& forall|i: int| 20 <= i < 28 ==> #[trigger] m[i] == 0
            &&& m.subrange(28, 28 + n) == info_hash
            &&& forall|i: int| 28 + n <= i < 48 + n ==> #[trigger] m[i] == 0
        }),
{
    lemma_protocol();
    lemma_opening();
    let m = handshake_bytes(info_hash);
    assert(m.subrange(0, 20) =~= opening());
    assert(m.subrange(28, 28 + info_hash.len() as int) =~= info_hash);
}

/// A reply of 68 bytes is accepted exactly where it begins with the opening,
/// whatever the other bytes are.
pub proof fn law_reply_is_accepted_by_its_opening(reply: Seq<u8>)
    requires
        reply.len() == 68,
    ensures
        (reply_readable(reply) && reply_outcome(reply) is Ok) <==> reply.subrange(0, 20) == opening(),
{
    lemma_protocol();
    lemma_opening();
    let start = reply.subrange(0, 20);
    if start == opening() {
        assert(start[0] == reply[0]);
        assert(reply_protocol(reply) =~= start.subrange(1, 20));
        assert(opening().subrange(1, 20) =~= protocol());
    }
    if reply[0] == 19 && reply_protocol(reply) == protocol() {
        assert(start =~= seq![reply[0]] + reply_protocol(reply));
    }
}

/// Of a reply only the first twenty bytes count.
pub proof fn law_only_the_opening_counts(a: Seq<u8>, b: Seq<u8>)
    requires
        a.len() == 68,
        b.len() == 68,
        a.subrange(0, 20) == b.subrange(0, 20),
    ensures
        reply_readable(a) == reply_readable(b),
        reply_outcome(a) == reply_outcome(b),
{
    assert(a.subrange(0, 20)[0] == a[0] && b.subrange(0, 20)[0] == b[0]);
    assert(reply_protocol(a) =~= a.subrange(0, 20).subrange(1, 20));
    assert(reply_protocol(b) =~= b.subrange(0, 20).subrange(1, 20));
}

/// Why a reply is turned down: a wrong first byte goes before a wrong name. A
/// reply with a wrong first byte can always be looked at, one with the right
/// first byte where the name is text; one of another length never.
pub proof fn law_reply_is_turned_down(reply: Seq<u8>)
    ensures
        reply.len() != 68 ==> !reply_readable(reply),
        reply.len() == 68 && reply[0] != 19 ==> {
            &&& reply_readable(reply)
            &&& reply_outcome(reply) == Err::<(), HandshakeFailure>(HandshakeFailure::WrongFirstByte)
        },
        reply.len() == 68 && reply[0] == 19 ==> {
            &&& reply_readable(reply) <==> valid_utf8(reply.subrange(1, 20))
            &&& reply.subrange(0, 20) != opening() ==> reply_outcome(reply) == Err::<
                (),
                HandshakeFailure,
            >(HandshakeFailure::WrongProtocol)
        },
{
    if reply.len() == 68 && reply[0] == 19 && reply.subrange(0, 20) != opening() {
        law_reply_is_accepted_by_its_opening(reply);
        lemma_protocol();
        lemma_opening();
        if reply_protocol(reply) == protocol() {
            assert(reply.subrange(0, 20) =~= seq![19u8] + protocol());
        }
    }
}

} // verus!
