use riptorrent::handshake::{
    check_reply, handshake_message, is_reply_readable, HandshakeFailure, HANDSHAKE_LENGTH,
};
use riptorrent::message::Message;

fn word(n: usize) -> Vec<u8> {
    n.to_be_bytes().to_vec()
}

#[test]
fn messages_without_fields_decode() {
    assert!(matches!(Message::from(vec![]), Message::KeepAlive));
    assert!(matches!(Message::from(vec![0]), Message::Choke));
    assert!(matches!(Message::from(vec![1]), Message::Unchoke));
    assert!(matches!(Message::from(vec![2]), Message::Interested));
    assert!(matches!(Message::from(vec![3]), Message::NotInterested));
    assert!(matches!(Message::from(vec![9]), Message::Invalid));
    assert!(matches!(Message::from(vec![255, 1, 2]), Message::Invalid));
}

#[test]
fn messages_with_fields_decode() {
    assert!(matches!(Message::from(vec![4, 0, 0, 1, 2]), Message::Have(258)));
    assert!(matches!(
        Message::from(vec![6, 0, 0, 0, 1, 0, 0, 64, 0, 0, 0, 64, 0]),
        Message::Request(1, 16384, 16384)
    ));
    assert!(matches!(
        Message::from(vec![8, 0, 0, 0, 1, 0, 0, 64, 0, 0, 0, 64, 0, 77]),
        Message::Cancel(1, 16384, 16384)
    ));
    match Message::from(vec![7, 0, 0, 0, 5, 0, 0, 0, 6, 1, 2, 3]) {
        Message::Piece(5, 6, data) => assert_eq!(data, vec![1, 2, 3]),
        other => panic!("{:?}", other),
    }
}

#[test]
fn bodies_that_cannot_be_decoded() {
    assert!(Message::is_decodable(&vec![]));
    assert!(Message::is_decodable(&vec![4, 0, 0, 0, 1]));
    assert!(!Message::is_decodable(&vec![4, 0, 0, 1]));
    assert!(!Message::is_decodable(&vec![4, 0, 0, 0, 1, 0]));
    assert!(!Message::is_decodable(&vec![6; 12]));
    assert!(Message::is_decodable(&vec![6; 13]));
    assert!(!Message::is_decodable(&vec![7; 8]));
    assert!(Message::is_decodable(&vec![7; 9]));
    assert!(!Message::is_decodable(&vec![8; 12]));
    assert!(Message::is_decodable(&vec![5]));
    assert!(Message::is_decodable(&vec![200]));
}

#[test]
fn messages_encode() {
    assert_eq!(Message::Choke.into(), vec![0, 0, 0, 1, 0]);
    assert_eq!(Message::Unchoke.into(), vec![0, 0, 0, 1, 1]);
    assert_eq!(Message::Interested.into(), vec![0, 0, 0, 1, 2]);
    assert_eq!(Message::NotInterested.into(), vec![0, 0, 0, 1, 3]);
    assert_eq!(Message::Have(258).into(), vec![0, 0, 0, 5, 4, 0, 0, 1, 2]);
    assert_eq!(
        Message::Request(1, 16384, 16384).into(),
        vec![0, 0, 0, 13, 6, 0, 0, 0, 1, 0, 0, 64, 0, 0, 0, 64, 0]
    );
    assert_eq!(
        Message::Cancel(1, 2, 3).into(),
        vec![0, 0, 0, 13, 8, 0, 0, 0, 1, 0, 0, 0, 2, 0, 0, 0, 3]
    );
    assert_eq!(Message::KeepAlive.into(), Vec::<u8>::new());
    assert_eq!(Message::Invalid.into(), Vec::<u8>::new());
}

#[test]
fn pieces_and_bit_fields_encode_with_a_machine_word() {
    let mut piece = word(4);
    piece.extend([7, 0, 0, 0, 1, 0, 0, 0, 2, 10, 20, 30]);
    assert_eq!(Message::Piece(1, 2, vec![10, 20, 30]).into(), piece);

    let mut field = word(17);
    field.extend([5, 0xA0, 0x01]);
    assert_eq!(Message::from(vec![5, 0xA0, 0x01]).into(), field);
}

#[test]
fn what_is_sent_decodes_again() {
    let sent: Vec<Vec<u8>> = vec![
        Message::Choke.into(),
        Message::Interested.into(),
        Message::Have(77).into(),
        Message::Request(3, 32768, 16384).into(),
        Message::Cancel(3, 32768, 16384).into(),
    ];
    for bytes in sent {
        assert_eq!(bytes[..4], ((bytes.len() - 4) as u32).to_be_bytes());
        let body = bytes[4..].to_vec();
        assert!(Message::is_decodable(&body));
        assert_eq!(Message::from(body).into(), bytes);
    }
}

#[test]
fn messages_are_shown() {
    assert_eq!(Message::Choke.to_string(), "Choke");
    assert_eq!(Message::Unchoke.to_string(), "Unchoke");
    assert_eq!(Message::Interested.to_string(), "Interested");
    assert_eq!(Message::NotInterested.to_string(), "NotInterested");
    assert_eq!(Message::Have(12).to_string(), "Have(12)");
    assert_eq!(Message::from(vec![5, 1]).to_string(), "Bitfield");
    assert_eq!(Message::Request(1, 2, 3).to_string(), "Request(1, 2, 3)");
    assert_eq!(Message::Piece(1, 2, vec![0; 30]).to_string(), "Piece(1, 2, [30])");
    assert_eq!(Message::Cancel(1, 2, 3).to_string(), "Cancel(1, 2, 3)");
    assert_eq!(Message::KeepAlive.to_string(), "KeepAlive");
    assert_eq!(Message::Invalid.to_string(), "Invalid");
}

#[test]
fn handshake_bytes_are_laid_out() {
    let hash = [7u8; 20];
    let message = handshake_message(&hash);
    assert_eq!(message.len(), HANDSHAKE_LENGTH);
    assert_eq!(message[0], 19);
    assert_eq!(&message[1..20], b"BitTorrent protocol");
    assert_eq!(message[20..28], [0u8; 8]);
    assert_eq!(message[28..48], hash);
    assert_eq!(message[48..68], [0u8; 20]);
}

#[test]
fn own_handshake_is_accepted() {
    let message = handshake_message(&[200u8; 20]);
    assert!(is_reply_readable(&message));
    assert_eq!(check_reply(&message), Ok(()));
}

#[test]
fn other_protocols_are_refused() {
    let mut reply = handshake_message(&[1u8; 20]);
    reply[0] = 18;
    assert!(is_reply_readable(&reply));
    assert_eq!(check_reply(&reply), Err(HandshakeFailure::WrongFirstByte));

    let mut reply = handshake_message(&[1u8; 20]);
    reply[1] = b'b';
    assert!(is_reply_readable(&reply));
    assert_eq!(check_reply(&reply), Err(HandshakeFailure::WrongProtocol));
}

#[test]
fn replies_that_cannot_be_read() {
    let mut reply = handshake_message(&[1u8; 20]);
    reply[5] = 0xFF;
    assert!(!is_reply_readable(&reply));
    reply[0] = 1;
    assert!(is_reply_readable(&reply));
    assert!(!is_reply_readable(&reply[..67]));
}
