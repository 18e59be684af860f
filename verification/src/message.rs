//! The messages of the peer wire protocol.
use crate::bits::{bits, bits_of_bytes, max_bits, raw_bytes, Bitfield};
use crate::bytes::{be_bytes, be_value, push_all, push_be_u32, push_be_usize, quad, read_be_u32, tail, word_width};
use crate::text::{decimal, decimal_string, is_numeral};
use vstd::arithmetic::power::pow;
use vstd::prelude::*;

verus! {

/// A message between peers.
#[derive(Debug)]
pub enum Message {
    Choke,
    Unchoke,
    Interested,
    NotInterested,
    Have(u32),
    Bitfield(Bitfield),
    Request(u32, u32, u32),
    Piece(u32, u32, Vec<u8>),
    Cancel(u32, u32, u32),
    KeepAlive,
    Invalid,
}

/// What a message says. Of a bit field it says the bits and the bytes that
/// hold them.
pub enum MessageView {
    Choke,
    Unchoke,
    Interested,
    NotInterested,
    Have(u32),
    Bitfield(Seq<bool>, Seq<u8>),
    Request(u32, u32, u32),
    Piece(u32, u32, Seq<u8>),
    Cancel(u32, u32, u32),
    KeepAlive,
    Invalid,
}

impl View for Message {
    type V = MessageView;

    open spec fn view(&self) -> MessageView {
        match *self {
            Message::Choke => MessageView::Choke,
            Message::Unchoke => MessageView::Unchoke,
            Message::Interested => MessageView::Interested,
            Message::NotInterested => MessageView::NotInterested,
            Message::Have(index) => MessageView::Have(index),
            Message::Bitfield(b) => MessageView::Bitfield(bits(b), raw_bytes(b)),
            Message::Request(index, begin, length) => MessageView::Request(index, begin, length),
            Message::Piece(index, begin, piece) => MessageView::Piece(index, begin, piece@),
            Message::Cancel(index, begin, length) => MessageView::Cancel(index, begin, length),
            Message::KeepAlive => MessageView::KeepAlive,
            Message::Invalid => MessageView::Invalid,
        }
    }
}

/// The number that the four bytes of `bytes` from `at` on spell.
pub open spec fn field(bytes: Seq<u8>, at: int) -> u32 {
    be_value(bytes.subrange(at, at + 4)) as u32
}

/// Whether a message body can be decoded: the body of a known kind with fields
/// has room for them, that of `Have` has no more than its field, and a bit
/// field has no more bits than a bit string can hold.
pub open spec fn decodable(body: Seq<u8>) -> bool {
    body.len() > 0 ==> {
        &&& body[0] == 4 ==> body.len() == 5
        &&& body[0] == 5 ==> 8 * (body.len() - 1) <= max_bits()
        &&& body[0] == 6 ==> body.len() >= 13
        &&& body[0] == 7 ==> body.len() >= 9
        &&& body[0] == 8 ==> body.len() >= 13
    }
}

/// The message whose body, without the length before it, is `body`.
pub open spec fn decoded(body: Seq<u8>) -> MessageView {
    if body.len() == 0 {
        MessageView::KeepAlive
    } else if body[0] == 0 {
        MessageView::Choke
    } else if body[0] == 1 {
        MessageView::Unchoke
    } else if body[0] == 2 {
        MessageView::Interested
    } else if body[0] == 3 {
        MessageView::NotInterested
    } else if body[0] == 4 {
        MessageView::Have(field(body, 1))
    } else if body[0] == 5 {
        MessageView::Bitfield(bits_of_bytes(body.skip(1)), body.skip(1))
    } else if body[0] == 6 {
        MessageView::Request(field(body, 1), field(body, 5), field(body, 9))
    } else if body[0] == 7 {
        MessageView::Piece(field(body, 1), field(body, 5), body.skip(9))
    } else if body[0] == 8 {
        MessageView::Cancel(field(body, 1), field(body, 5), field(body, 9))
    } else {
        MessageView::Invalid
    }
}

/// The bytes of a message that follow its length: the kind and the fields.
pub open spec fn body_of(m: MessageView) -> Seq<u8> {
    match m {
        MessageView::Choke => seq![0u8],
        MessageView::Unchoke => seq![1u8],
        MessageView::Interested => seq![2u8],
        MessageView::NotInterested => seq![3u8],
        MessageView::Have(index) => seq![4u8] + be_bytes(index as nat, 4),
        MessageView::Bitfield(_, raw) => seq![5u8] + raw,
        MessageView::Request(index, begin, length) => seq![6u8] + be_bytes(index as nat, 4)
            + be_bytes(begin as nat, 4) + be_bytes(length as nat, 4),
        MessageView::Piece(index, begin, piece) => seq![7u8] + be_bytes(index as nat, 4)
            + be_bytes(begin as nat, 4) + piece,
        MessageView::Cancel(index, begin, length) => seq![8u8] + be_bytes(index as nat, 4)
            + be_bytes(begin as nat, 4) + be_bytes(length as nat, 4),
        MessageView::KeepAlive => Seq::empty(),
        MessageView::Invalid => Seq::empty(),
    }
}

/// The length that goes before the body. It is four bytes and counts the body,
/// but for two kinds: that of a bit field is a machine word that counts the
/// kind and the bits, that of a piece a machine word that counts the kind and
/// the data. Messages without a body have no length either.
pub open spec fn length_of(m: MessageView) -> Seq<u8> {
    match m {
        MessageView::Bitfield(b, _) => be_bytes(1 + b.len(), word_width()),
        MessageView::Piece(_, _, piece) => be_bytes(1 + piece.len(), word_width()),
        MessageView::KeepAlive => Seq::empty(),
        MessageView::Invalid => Seq::empty(),
        _ => be_bytes(body_of(m).len(), 4),
    }
}

/// The bytes that are sent for a message.
pub open spec fn encoded(m: MessageView) -> Seq<u8> {
    length_of(m) + body_of(m)
}

/// How a message is shown.
pub open spec fn shown(m: MessageView) -> Seq<char> {
    match m {
        MessageView::Choke => "Choke"@,
        MessageView::Unchoke => "Unchoke"@,
        MessageView::Interested => "Interested"@,
        MessageView::NotInterested => "NotInterested"@,
        MessageView::Have(index) => "Have("@ + decimal(index as nat) + ")"@,
        MessageView::Bitfield(_, _) => "Bitfield"@,
        MessageView::Request(index, begin, length) => "Request("@ + triple(index, begin, length) + ")"@,
        MessageView::Piece(index, begin, piece) => "Piece("@ + decimal(index as nat) + ", "@
            + decimal(begin as nat) + ", ["@ + decimal(piece.len()) + "])"@,
        MessageView::Cancel(index, begin, length) => "Cancel("@ + triple(index, begin, length) + ")"@,
        MessageView::KeepAlive => "KeepAlive"@,
        MessageView::Invalid => "Invalid"@,
    }
}

/// Three numbers with commas between them.
pub open spec fn triple(index: u32, begin: u32, length: u32) -> Seq<char> {
    decimal(index as nat) + ", "@ + decimal(begin as nat) + ", "@ + decimal(length as nat)
}

fn triple_string(index: u32, begin: u32, length: u32) -> (s: String)
    ensures
        s@ == triple(index, begin, length),
{
    let mut s: String = decimal_string(index as u64);
    s.append(", ");
    s.append(decimal_string(begin as u64).as_str());
    s.append(", ");
    s.append(decimal_string(length as u64).as_str());
    s
}

impl Message {
    /// Whether `from` can decode `body`.
    pub fn is_decodable(body: &Vec<u8>) -> (ok: bool)
        ensures
            ok == decodable(body@),
    {
        if body.len() == 0 {
            return true;
        }
        match body[0] {
            4 => body.len() == 5,
            5 => body.len() - 1 <= usize::MAX / 8 / 8,
            6 => body.len() >= 13,
            7 => body.len() >= 9,
            8 => body.len() >= 13,
            _ => true,
        }
    }

    /// Decodes the body of a message, that is the bytes after its length. A
    /// request or a cancellation may be longer than its fields; the rest is
    /// ignored. A kind that is not known gives `Invalid`.
    pub fn from(bytes: Vec<u8>) -> (m: Message)
        requires
            decodable(bytes@),
        ensures
            m@ == decoded(bytes@),
    {
        if bytes.len() == 0 {
            return Message::KeepAlive;
        }
        match bytes[0] {
            0 => Message::Choke,
            1 => Message::Unchoke,
            2 => Message::Interested,
            3 => Message::NotInterested,
            4 => Message::Have(read_be_u32(bytes.as_slice(), 1)),
            5 => Message::Bitfield(Bitfield::from_vec(tail(bytes.as_slice(), 1))),
            6 => {
                let index: u32 = read_be_u32(bytes.as_slice(), 1);
                let begin: u32 = read_be_u32(bytes.as_slice(), 5);
                let length: u32 = read_be_u32(bytes.as_slice(), 9);
                Message::Request(index, begin, length)
            },
            7 => {
                let index: u32 = read_be_u32(bytes.as_slice(), 1);
                let begin: u32 = read_be_u32(bytes.as_slice(), 5);
                Message::Piece(index, begin, tail(bytes.as_slice(), 9))
            },
            8 => {
                let index: u32 = read_be_u32(bytes.as_slice(), 1);
                let begin: u32 = read_be_u32(bytes.as_slice(), 5);
                let length: u32 = read_be_u32(bytes.as_slice(), 9);
                Message::Cancel(index, begin, length)
            },
            _ => Message::Invalid,
        }
    }

    /// The bytes to send for the message.
    pub fn into(self) -> (bytes: Vec<u8>)
        requires
            self@ matches MessageView::Piece(_, _, piece) ==> piece.len() < usize::MAX,
        ensures
            bytes@ == encoded(self@),
    {
        let ghost view = self@;
        let mut message: Vec<u8> = Vec::new();
        match self {
            Message::Choke => {
                push_be_u32(&mut message, 1);
                message.push(0);
            },
            Message::Unchoke => {
                push_be_u32(&mut message, 1);
                message.push(1);
            },
            Message::Interested => {
                push_be_u32(&mut message, 1);
                message.push(2);
            },
            Message::NotInterested => {
                push_be_u32(&mut message, 1);
                message.push(3);
            },
            Message::Have(index) => {
                push_be_u32(&mut message, 5);
                message.push(4);
                push_be_u32(&mut message, index);
            },
            Message::Bitfield(index) => {
                push_be_usize(&mut message, 1 + index.len());
                message.push(5);
                push_all(&mut message, index.as_raw_slice());
            },
            Message::Request(index, begin, length) => {
                push_be_u32(&mut message, 13);
                message.push(6);
                push_be_u32(&mut message, index);
                push_be_u32(&mut message, begin);
                push_be_u32(&mut message, length);
            },
            Message::Piece(index, begin, piece) => {
                push_be_usize(&mut message, 1 + piece.len());
                message.push(7);
                push_be_u32(&mut message, index);
                push_be_u32(&mut message, begin);
                push_all(&mut message, piece.as_slice());
            },
            Message::Cancel(index, begin, length) => {
                push_be_u32(&mut message, 13);
                message.push(8);
                push_be_u32(&mut message, index);
                push_be_u32(&mut message, begin);
                push_be_u32(&mut message, length);
            },
            Message::KeepAlive => {},
            Message::Invalid => {},
        }
        proof {
            lemma_body_len(view);
            assert(message@ =~= encoded(view));
        }
        message
    }

    /// The message as text, for the log.
    pub fn to_string(&self) -> (s: String)
        ensures
            s@ == shown(self@),
    {
        match self {
            Message::Choke => "Choke".to_owned(),
            Message::Unchoke => "Unchoke".to_owned(),
            Message::Interested => "Interested".to_owned(),
            Message::NotInterested => "NotInterested".to_owned(),
            Message::Have(index) => {
                let mut s: String = "Have(".to_owned();
                s.append(decimal_string(*index as u64).as_str());
                s.append(")");
                s
            },
            Message::Bitfield(_) => "Bitfield".to_owned(),
            Message::Request(index, begin, length) => {
                let mut s: String = "Request(".to_owned();
                s.append(triple_string(*index, *begin, *length).as_str());
                s.append(")");
                s
            },
            Message::Piece(index, begin, piece) => {
                let mut s: String = "Piece(".to_owned();
                s.append(decimal_string(*index as u64).as_str());
                s.append(", ");
                s.append(decimal_string(*begin as u64).as_str());
                s.append(", [");
                s.append(decimal_string(piece.len() as u64).as_str());
                s.append("])");
                s
            },
            Message::Cancel(index, begin, length) => {
                let mut s: String = "Cancel(".to_owned();
                s.append(triple_string(*index, *begin, *length).as_str());
                s.append(")");
                s
            },
            Message::KeepAlive => "KeepAlive".to_owned(),
            Message::Invalid => "Invalid".to_owned(),
        }
    }
}

proof fn lemma_body_len(m: MessageView)
    ensures
        m is Choke || m is Unchoke || m is Interested || m is NotInterested ==> body_of(m).len() == 1,
        m is Have ==> body_of(m).len() == 5,
        m is Request || m is Cancel ==> body_of(m).len() == 13,
        m matches MessageView::Piece(_, _, piece) ==> body_of(m).len() == 9 + piece.len(),
        m matches MessageView::Bitfield(_, raw) ==> body_of(m).len() == 1 + raw.len(),
{
    match m {
        MessageView::Have(index) => {
            crate::bytes::lemma_be_bytes_len(index as nat, 4);
        },
        MessageView::Request(index, begin, length) => {
            crate::bytes::lemma_be_bytes_len(index as nat, 4);
            crate::bytes::lemma_be_bytes_len(begin as nat, 4);
            crate::bytes::lemma_be_bytes_len(length as nat, 4);
        },
        MessageView::Cancel(index, begin, length) => {
            crate::bytes::lemma_be_bytes_len(index as nat, 4);
            crate::bytes::lemma_be_bytes_len(begin as nat, 4);
            crate::bytes::lemma_be_bytes_len(length as nat, 4);
        },
        MessageView::Piece(index, begin, _) => {
            crate::bytes::lemma_be_bytes_len(index as nat, 4);
            crate::bytes::lemma_be_bytes_len(begin as nat, 4);
        },
        _ => {},
    }
}

/// A field written at `at` reads back.
proof fn lemma_field(bytes: Seq<u8>, at: int, n: u32)
    requires
        0 <= at,
        at + 4 <= bytes.len(),
        bytes.subrange(at, at + 4) == be_bytes(n as nat, 4),
    ensures
        field(bytes, at) == n,
{
    crate::bytes::lemma_u32_range();
    crate::bytes::law_be_value_of_be_bytes(n as nat, 4);
}

/// Decoding the body of an encoded message gives the message back, for every
/// message that has a body. Of a bit field the bits come back as those of all
/// the bytes that hold them.
pub proof fn law_decode_body(m: MessageView)
    requires
        !(m is KeepAlive) && !(m is Invalid),
        m matches MessageView::Bitfield(b, raw) ==> 8 * raw.len() <= max_bits(),
    ensures
        decodable(body_of(m)),
        m is Bitfield ==> decoded(body_of(m)) == MessageView::Bitfield(
            bits_of_bytes(m->Bitfield_1),
            m->Bitfield_1,
        ),
        !(m is Bitfield) ==> decoded(body_of(m)) == m,
{
    lemma_body_len(m);
    let body = body_of(m);
    match m {
        MessageView::Have(index) => {
            crate::bytes::lemma_be_bytes_len(index as nat, 4);
            assert(body.subrange(1, 5) =~= be_bytes(index as nat, 4));
            lemma_field(body, 1, index);
        },
        MessageView::Request(index, begin, length) => {
            lemma_three_fields(6, index, begin, length);
        },
        MessageView::Cancel(index, begin, length) => {
            lemma_three_fields(8, index, begin, length);
        },
        MessageView::Piece(index, begin, piece) => {
            crate::bytes::lemma_be_bytes_len(index as nat, 4);
            crate::bytes::lemma_be_bytes_len(begin as nat, 4);
            assert(body.subrange(1, 5) =~= be_bytes(index as nat, 4));
            assert(body.subrange(5, 9) =~= be_bytes(begin as nat, 4));
            lemma_field(body, 1, index);
            lemma_field(body, 5, begin);
            assert(body.skip(9) =~= piece);
        },
        MessageView::Bitfield(b, raw) => {
            assert(body.skip(1) =~= raw);
        },
        _ => {},
    }
}

proof fn lemma_three_fields(kind: u8, index: u32, begin: u32, length: u32)
    ensures
        ({
            let body = seq![kind] + be_bytes(index as nat, 4) + be_bytes(begin as nat, 4) + be_bytes(
                length as nat,
                4,
            );
            &&& body.len() == 13
            &&& body[0] == kind
            &&& field(body, 1) == index
            &&& field(body, 5) == begin
            &&& field(body, 9) == length
        }),
{
    let body = seq![kind] + be_bytes(index as nat, 4) + be_bytes(begin as nat, 4) + be_bytes(
        length as nat,
        4,
    );
    crate::bytes::lemma_be_bytes_len(index as nat, 4);
    crate::bytes::lemma_be_bytes_len(begin as nat, 4);
    crate::bytes::lemma_be_bytes_len(length as nat, 4);
    assert(body.subrange(1, 5) =~= be_bytes(index as nat, 4));
    assert(body.subrange(5, 9) =~= be_bytes(begin as nat, 4));
    assert(body.subrange(9, 13) =~= be_bytes(length as nat, 4));
    lemma_field(body, 1, index);
    lemma_field(body, 5, begin);
    lemma_field(body, 9, length);
}

/// Whether a message goes out as a four byte length that counts the body, and
/// then the body, as messages come in.
pub open spec fn framed(m: MessageView) -> bool {
    !(m is Bitfield) && !(m is Piece) && !(m is KeepAlive) && !(m is Invalid)
}

/// What is sent for a framed message is what a reader expects: the first four
/// bytes give the number of bytes that follow, and those decode to the message.
pub proof fn law_message_round_trip(m: MessageView)
    requires
        framed(m),
    ensures
        encoded(m).len() >= 4,
        be_value(encoded(m).take(4)) == encoded(m).len() - 4,
        decodable(encoded(m).skip(4)),
        decoded(encoded(m).skip(4)) == m,
{
    lemma_body_len(m);
    law_decode_body(m);
    crate::bytes::lemma_u32_range();
    crate::bytes::lemma_be_bytes_len(body_of(m).len(), 4);
    crate::bytes::law_be_value_of_be_bytes(body_of(m).len(), 4);
    assert(encoded(m).take(4) =~= length_of(m));
    assert(encoded(m).skip(4) =~= body_of(m));
}

/// A piece or a bit field decodes from what follows the machine word that is
/// sent before it.
pub proof fn law_word_framed_round_trip(m: MessageView)
    requires
        m is Bitfield || m is Piece,
        m matches MessageView::Bitfield(b, raw) ==> 8 * raw.len() <= max_bits() && b == bits_of_bytes(raw),
    ensures
        decodable(encoded(m).skip(word_width() as int)),
        decoded(encoded(m).skip(word_width() as int)) == m,
{
    law_decode_body(m);
    let n = match m {
        MessageView::Bitfield(b, _) => 1 + b.len(),
        MessageView::Piece(_, _, piece) => 1 + piece.len(),
        _ => 0,
    };
    crate::bytes::lemma_be_bytes_len(n, word_width());
    assert(encoded(m).skip(word_width() as int) =~= body_of(m));
}

/// Encoding what was decoded from a body of a framed kind gives that body back
/// with its length before it, where the body holds nothing after its fields.
pub proof fn law_encode_decoded(body: Seq<u8>)
    requires
        decodable(body),
        framed(decoded(body)),
        body.len() == body_of(decoded(body)).len(),
    ensures
        encoded(decoded(body)) == be_bytes(body.len(), 4) + body,
{
    let m = decoded(body);
    lemma_body_len(m);
    crate::bytes::lemma_u32_range();
    if body[0] == 4 {
        crate::bytes::law_be_bytes_of_be_value(body.subrange(1, 5));
        assert(body_of(m) =~= body);
    } else if body[0] == 6 || body[0] == 8 {
        crate::bytes::law_be_bytes_of_be_value(body.subrange(1, 5));
        crate::bytes::law_be_bytes_of_be_value(body.subrange(5, 9));
        crate::bytes::law_be_bytes_of_be_value(body.subrange(9, 13));
        assert(body_of(m) =~= body);
    } else {
        assert(body_of(m) =~= body);
    }
}

/// What a message says is what its fields hold, in their order.
pub proof fn law_message_view(m: Message)
    ensures
        match m {
            Message::Choke => m@ is Choke,
            Message::Unchoke => m@ is Unchoke,
            Message::Interested => m@ is Interested,
            Message::NotInterested => m@ is NotInterested,
            Message::Have(index) => m@ is Have && m@->Have_0 == index,
            Message::Bitfield(b) => m@ is Bitfield && m@->Bitfield_0 == bits(b) && m@->Bitfield_1
                == raw_bytes(b),
            Message::Request(index, begin, length) => m@ is Request && m@->Request_0 == index
                && m@->Request_1 == begin && m@->Request_2 == length,
            Message::Piece(index, begin, piece) => m@ is Piece && m@->Piece_0 == index && m@->Piece_1
                == begin && m@->Piece_2 == piece@,
            Message::Cancel(index, begin, length) => m@ is Cancel && m@->Cancel_0 == index
                && m@->Cancel_1 == begin && m@->Cancel_2 == length,
            Message::KeepAlive => m@ is KeepAlive,
            Message::Invalid => m@ is Invalid,
        },
{
}

/// The bytes of the messages without fields: the length one, and a number for
/// the kind. A message that only keeps the connection alive has none.
pub proof fn law_plain_message_bytes()
    ensures
        encoded(MessageView::Choke) == seq![0u8, 0, 0, 1, 0],
        encoded(MessageView::Unchoke) == seq![0u8, 0, 0, 1, 1],
        encoded(MessageView::Interested) == seq![0u8, 0, 0, 1, 2],
        encoded(MessageView::NotInterested) == seq![0u8, 0, 0, 1, 3],
        encoded(MessageView::KeepAlive).len() == 0,
        encoded(MessageView::Invalid).len() == 0,
{
    reveal_with_fuel(be_bytes, 5);
    assert(be_bytes(1, 4) =~= seq![0u8, 0, 0, 1]);
    assert(encoded(MessageView::Choke) =~= seq![0u8, 0, 0, 1, 0]);
    assert(encoded(MessageView::Unchoke) =~= seq![0u8, 0, 0, 1, 1]);
    assert(encoded(MessageView::Interested) =~= seq![0u8, 0, 0, 1, 2]);
    assert(encoded(MessageView::NotInterested) =~= seq![0u8, 0, 0, 1, 3]);
}

/// The bytes of the message that tells of a piece: the length five, the kind
/// four, and the number of the piece.
pub proof fn law_have_bytes(index: u32)
    ensures
        ({
            let b = encoded(MessageView::Have(index));
            &&& b.len() == 9
            &&& b.take(5) == seq![0u8, 0, 0, 5, 4]
            &&& quad(b, 5) == index
        }),
{
    let b = encoded(MessageView::Have(index));
    lemma_body_len(MessageView::Have(index));
    crate::bytes::lemma_be_bytes_len(index as nat, 4);
    reveal_with_fuel(be_bytes, 5);
    assert(be_bytes(5, 4) =~= seq![0u8, 0, 0, 5]);
    assert(b.take(5) =~= seq![0u8, 0, 0, 5, 4]);
    assert(b.subrange(5, 9) =~= be_bytes(index as nat, 4));
    crate::bytes::law_quad_of_be_bytes(b, 5, index);
}

/// The bytes of a request and of a cancellation: the length thirteen, the kind
/// six or eight, then the piece, the offset in it, and the number of bytes.
pub proof fn law_request_bytes(index: u32, begin: u32, length: u32)
    ensures
        ({
            let b = encoded(MessageView::Request(index, begin, length));
            &&& b.len() == 17
            &&& b.take(5) == seq![0u8, 0, 0, 13, 6]
            &&& quad(b, 5) == index
            &&& quad(b, 9) == begin
            &&& quad(b, 13) == length
        }),
        ({
            let b = encoded(MessageView::Cancel(index, begin, length));
            &&& b.len() == 17
            &&& b.take(5) == seq![0u8, 0, 0, 13, 8]
            &&& quad(b, 5) == index
            &&& quad(b, 9) == begin
            &&& quad(b, 13) == length
        }),
{
    let r = encoded(MessageView::Request(index, begin, length));
    let c = encoded(MessageView::Cancel(index, begin, length));
    lemma_body_len(MessageView::Request(index, begin, length));
    lemma_body_len(MessageView::Cancel(index, begin, length));
    crate::bytes::lemma_be_bytes_len(index as nat, 4);
    crate::bytes::lemma_be_bytes_len(begin as nat, 4);
    crate::bytes::lemma_be_bytes_len(length as nat, 4);
    assert(be_bytes(13, 4) =~= seq![0u8, 0, 0, 13]) by {
        reveal_with_fuel(be_bytes, 5);
    }
    assert(r.take(5) =~= seq![0u8, 0, 0, 13, 6]);
    assert(c.take(5) =~= seq![0u8, 0, 0, 13, 8]);
    assert(r.subrange(5, 9) =~= be_bytes(index as nat, 4));
    assert(r.subrange(9, 13) =~= be_bytes(begin as nat, 4));
    assert(r.subrange(13, 17) =~= be_bytes(length as nat, 4));
    assert(c.subrange(5, 9) =~= be_bytes(index as nat, 4));
    assert(c.subrange(9, 13) =~= be_bytes(begin as nat, 4));
    assert(c.subrange(13, 17) =~= be_bytes(length as nat, 4));
    crate::bytes::law_quad_of_be_bytes(r, 5, index);
    crate::bytes::law_quad_of_be_bytes(r, 9, begin);
    crate::bytes::law_quad_of_be_bytes(r, 13, length);
    crate::bytes::law_quad_of_be_bytes(c, 5, index);
    crate::bytes::law_quad_of_be_bytes(c, 9, begin);
    crate::bytes::law_quad_of_be_bytes(c, 13, length);
}

/// The bytes of a piece: a machine word that counts one more than the data, the
/// kind seven, the piece, the offset in it, and the data.
pub proof fn law_piece_bytes(index: u32, begin: u32, data: Seq<u8>)
    ensures
        ({
            let b = encoded(MessageView::Piece(index, begin, data));
            let w = usize::BITS as int / 8;
            &&& b.len() == w + 9 + data.len()
            &&& forall|i: int|
                0 <= i < w ==> #[trigger] b[i] == ((1 + data.len()) as int / pow(
                    256,
                    (w - 1 - i) as nat,
                )) % 256
            &&& b[w] == 7
            &&& quad(b, w + 1) == index
            &&& quad(b, w + 5) == begin
            &&& b.skip(w + 9) == data
        }),
{
    let b = encoded(MessageView::Piece(index, begin, data));
    let w = word_width() as int;
    let n = 1 + data.len();
    crate::bytes::lemma_be_bytes_len(n, word_width());
    crate::bytes::lemma_be_bytes_len(index as nat, 4);
    crate::bytes::lemma_be_bytes_len(begin as nat, 4);
    assert forall|i: int| 0 <= i < w implies #[trigger] b[i] == (n as int / pow(
        256,
        (w - 1 - i) as nat,
    )) % 256 by {
        crate::bytes::law_be_bytes_digits(n, word_width(), i);
        assert(b[i] == be_bytes(n, word_width())[i]);
    }
    assert(b.subrange(w + 1, w + 5) =~= be_bytes(index as nat, 4));
    assert(b.subrange(w + 5, w + 9) =~= be_bytes(begin as nat, 4));
    crate::bytes::law_quad_of_be_bytes(b, w + 1, index);
    crate::bytes::law_quad_of_be_bytes(b, w + 5, begin);
    assert(b.skip(w + 9) =~= data);
}

/// The bytes of a bit field: a machine word that counts one more than the bits,
/// the kind five, and the bytes that hold the bits.
pub proof fn law_bitfield_bytes(has: Seq<bool>, raw: Seq<u8>)
    ensures
        ({
            let b = encoded(MessageView::Bitfield(has, raw));
            let w = usize::BITS as int / 8;
            &&& b.len() == w + 1 + raw.len()
            &&& forall|i: int|
                0 <= i < w ==> #[trigger] b[i] == ((1 + has.len()) as int / pow(
                    256,
                    (w - 1 - i) as nat,
                )) % 256
            &&& b[w] == 5
            &&& b.skip(w + 1) == raw
        }),
{
    let b = encoded(MessageView::Bitfield(has, raw));
    let w = word_width() as int;
    let n = 1 + has.len();
    crate::bytes::lemma_be_bytes_len(n, word_width());
    assert forall|i: int| 0 <= i < w implies #[trigger] b[i] == (n as int / pow(
        256,
        (w - 1 - i) as nat,
    )) % 256 by {
        crate::bytes::law_be_bytes_digits(n, word_width(), i);
        assert(b[i] == be_bytes(n, word_width())[i]);
    }
    assert(b.skip(w + 1) =~= raw);
}

/// Which bodies can be decoded: any of a kind without fields or of an unknown
/// kind, those whose fields are all there, for a kind that tells of a piece with
/// nothing after them, and bit fields that a bit string can hold.
pub proof fn law_decodable(body: Seq<u8>)
    ensures
        body.len() == 0 ==> decodable(body),
        body.len() > 0 ==> (decodable(body) <==> match body[0] {
            4 => body.len() == 5,
            5 => 64 * (body.len() - 1) <= usize::MAX,
            6 => body.len() >= 13,
            7 => body.len() >= 9,
            8 => body.len() >= 13,
            _ => true,
        }),
{
}

/// What a body says: its first byte tells the kind, and the fields follow, four
/// bytes each, the piece first, then the offset in it, then the number of bytes.
pub proof fn law_decoded_fields(body: Seq<u8>)
    requires
        decodable(body),
    ensures
        body.len() == 0 ==> decoded(body) is KeepAlive,
        body.len() > 0 ==> match body[0] {
            0 => decoded(body) is Choke,
            1 => decoded(body) is Unchoke,
            2 => decoded(body) is Interested,
            3 => decoded(body) is NotInterested,
            4 => decoded(body) is Have && decoded(body)->Have_0 == quad(body, 1),
            5 => decoded(body) is Bitfield && decoded(body)->Bitfield_0 == bits_of_bytes(
                body.subrange(1, body.len() as int),
            ) && decoded(body)->Bitfield_1 == body.subrange(1, body.len() as int),
            6 => decoded(body) is Request && decoded(body)->Request_0 == quad(body, 1)
                && decoded(body)->Request_1 == quad(body, 5) && decoded(body)->Request_2 == quad(body, 9),
            7 => decoded(body) is Piece && decoded(body)->Piece_0 == quad(body, 1)
                && decoded(body)->Piece_1 == quad(body, 5) && decoded(body)->Piece_2 == body.subrange(
                9,
                body.len() as int,
            ),
            8 => decoded(body) is Cancel && decoded(body)->Cancel_0 == quad(body, 1)
                && decoded(body)->Cancel_1 == quad(body, 5) && decoded(body)->Cancel_2 == quad(body, 9),
            _ => decoded(body) is Invalid,
        },
{
    if body.len() >= 5 {
        lemma_field_is_quad(body, 1);
    }
    if body.len() >= 9 {
        lemma_field_is_quad(body, 5);
    }
    if body.len() >= 13 {
        lemma_field_is_quad(body, 9);
    }
    if body.len() >= 1 {
        assert(body.skip(1) =~= body.subrange(1, body.len() as int));
    }
    if body.len() >= 9 {
        assert(body.skip(9) =~= body.subrange(9, body.len() as int));
    }
}

proof fn lemma_field_is_quad(body: Seq<u8>, at: int)
    requires
        0 <= at,
        at + 4 <= body.len(),
    ensures
        field(body, at) == quad(body, at),
{
    let four = body.subrange(at, at + 4);
    crate::bytes::law_be_value_of_fields(four);
    assert(four[0] == body[at] && four[1] == body[at + 1] && four[2] == body[at + 2] && four[3]
        == body[at + 3]);
}

/// How the messages without fields are shown: by their names.
pub proof fn law_names_are_shown(has: Seq<bool>, raw: Seq<u8>)
    ensures
        shown(MessageView::Choke) == seq!['C', 'h', 'o', 'k', 'e'],
        shown(MessageView::Unchoke) == seq!['U', 'n', 'c', 'h', 'o', 'k', 'e'],
        shown(MessageView::Interested) == seq!['I', 'n', 't', 'e', 'r', 'e', 's', 't', 'e', 'd'],
        shown(MessageView::NotInterested) == seq!['N', 'o', 't'] + seq![
            'I', 'n', 't', 'e', 'r', 'e', 's', 't', 'e', 'd',
        ],
        shown(MessageView::Bitfield(has, raw)) == seq!['B', 'i', 't', 'f', 'i', 'e', 'l', 'd'],
        shown(MessageView::KeepAlive) == seq!['K', 'e', 'e', 'p', 'A', 'l', 'i', 'v', 'e'],
        shown(MessageView::Invalid) == seq!['I', 'n', 'v', 'a', 'l', 'i', 'd'],
{
    reveal_strlit("Choke");
    reveal_strlit("Unchoke");
    reveal_strlit("Interested");
    reveal_strlit("NotInterested");
    reveal_strlit("Bitfield");
    reveal_strlit("KeepAlive");
    reveal_strlit("Invalid");
    assert(shown(MessageView::Choke) =~= seq!['C', 'h', 'o', 'k', 'e']);
    assert(shown(MessageView::Unchoke) =~= seq!['U', 'n', 'c', 'h', 'o', 'k', 'e']);
    assert(shown(MessageView::Interested) =~= seq![
        'I', 'n', 't', 'e', 'r', 'e', 's', 't', 'e', 'd',
    ]);
    assert(shown(MessageView::NotInterested) =~= seq!['N', 'o', 't'] + seq![
        'I', 'n', 't', 'e', 'r', 'e', 's', 't', 'e', 'd',
    ]);
    assert(shown(MessageView::Bitfield(has, raw)) =~= seq!['B', 'i', 't', 'f', 'i', 'e', 'l', 'd']);
    assert(shown(MessageView::KeepAlive) =~= seq!['K', 'e', 'e', 'p', 'A', 'l', 'i', 'v', 'e']);
    assert(shown(MessageView::Invalid) =~= seq!['I', 'n', 'v', 'a', 'l', 'i', 'd']);
}

/// Whether `text` is `head`, numerals of `numbers` with a comma and a space
/// between them, and a closing bracket.
pub open spec fn lists_numbers(text: Seq<char>, head: Seq<char>, numbers: Seq<nat>) -> bool {
    exists|numerals: Seq<Seq<char>>|
        #![trigger numerals.len()]
        {
            &&& numerals.len() == numbers.len()
            &&& forall|i: int|
                0 <= i < numbers.len() ==> is_numeral(#[trigger] numerals[i], numbers[i])
            &&& text == head + joined_by_commas(numerals) + seq![')']
        }
}

/// Texts with a comma and a space between them.
pub open spec fn joined_by_commas(texts: Seq<Seq<char>>) -> Seq<char>
    decreases texts.len(),
{
    if texts.len() == 0 {
        Seq::empty()
    } else if texts.len() == 1 {
        texts[0]
    } else {
        joined_by_commas(texts.drop_last()) + seq![',', ' '] + texts.last()
    }
}

/// How the messages with numbers are shown: the name, and the numbers in
/// brackets, in the order of the fields.
pub proof fn law_numbers_are_shown(index: u32, begin: u32, length: u32)
    ensures
        lists_numbers(
            shown(MessageView::Have(index)),
            seq!['H', 'a', 'v', 'e', '('],
            seq![index as nat],
        ),
        lists_numbers(
            shown(MessageView::Request(index, begin, length)),
            seq!['R', 'e', 'q', 'u', 'e', 's', 't', '('],
            seq![index as nat, begin as nat, length as nat],
        ),
        lists_numbers(
            shown(MessageView::Cancel(index, begin, length)),
            seq!['C', 'a', 'n', 'c', 'e', 'l', '('],
            seq![index as nat, begin as nat, length as nat],
        ),
{
    reveal_strlit("Have(");
    reveal_strlit("Request(");
    reveal_strlit("Cancel(");
    reveal_strlit(", ");
    reveal_strlit(")");
    reveal_with_fuel(joined_by_commas, 4);
    crate::text::law_decimal(index as nat);
    crate::text::law_decimal(begin as nat);
    crate::text::law_decimal(length as nat);
    let i = decimal(index as nat);
    let b = decimal(begin as nat);
    let l = decimal(length as nat);
    let one = seq![i];
    let three = seq![i, b, l];
    assert(one.len() == 1 && three.len() == 3);
    assert(three.drop_last() =~= seq![i, b]);
    assert(seq![i, b].drop_last() =~= seq![i]);
    assert(joined_by_commas(three) =~= triple(index, begin, length));
    assert("Have("@ =~= seq!['H', 'a', 'v', 'e', '(']);
    assert("Request("@ =~= seq!['R', 'e', 'q', 'u', 'e', 's', 't', '(']);
    assert("Cancel("@ =~= seq!['C', 'a', 'n', 'c', 'e', 'l', '(']);
    assert(")"@ =~= seq![')']);
}

/// How a piece is shown: the name, the piece, the offset in it, and the number of
/// bytes in square brackets.
pub proof fn law_piece_is_shown(index: u32, begin: u32, data: Seq<u8>)
    ensures
        exists|i: Seq<char>, b: Seq<char>, n: Seq<char>|
            #![trigger is_numeral(i, index as nat), is_numeral(b, begin as nat), is_numeral(n, data.len())]
            {
                &&& is_numeral(i, index as nat)
                &&& is_numeral(b, begin as nat)
                &&& is_numeral(n, data.len())
                &&& shown(MessageView::Piece(index, begin, data)) == seq!['P', 'i', 'e', 'c', 'e', '(']
                    + i + seq![',', ' '] + b + seq![',', ' ', '['] + n + seq![']', ')']
            },
{
    reveal_strlit("Piece(");
    reveal_strlit(", ");
    reveal_strlit(", [");
    reveal_strlit("])");
    crate::text::law_decimal(index as nat);
    crate::text::law_decimal(begin as nat);
    crate::text::law_decimal(data.len());
    assert("Piece("@ =~= seq!['P', 'i', 'e', 'c', 'e', '(']);
    assert(", "@ =~= seq![',', ' ']);
    assert(", ["@ =~= seq![',', ' ', '[']);
    assert("])"@ =~= seq![']', ')']);
    let i = decimal(index as nat);
    let b = decimal(begin as nat);
    let n = decimal(data.len());
    assert(is_numeral(i, index as nat) && is_numeral(b, begin as nat) && is_numeral(n, data.len()));
}

} // verus!
