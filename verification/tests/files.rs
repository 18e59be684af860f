use riptorrent::bencode::find_key;
use riptorrent::metainfo::{deserialize_pieces, hash_info, File, Info, Metainfo};

const INFO: &[u8] = b"d6:lengthi40000e4:name5:a.bin12:piece lengthi16384e6:pieces0:e";

const HASH: [u8; 20] = [
    192, 236, 118, 173, 35, 123, 44, 246, 112, 181, 40, 123, 249, 123, 218, 162, 109, 205, 200, 254,
];

fn info() -> Info {
    Info {
        name: "a.bin".to_string(),
        piece_length: 16384,
        pieces: vec![],
        length: Some(40000),
        files: None,
    }
}

fn torrent_file(info: &[u8]) -> Vec<u8> {
    let mut buf = b"d8:announce9:http://t/4:info".to_vec();
    buf.extend(info);
    buf.extend(b"e");
    buf
}

#[test]
fn digests_of_pieces_are_split() {
    let bytes: Vec<u8> = (0..60).collect();
    let pieces = deserialize_pieces(&bytes);
    assert_eq!(pieces.len(), 3);
    assert_eq!(pieces[1][0], 20);
    assert_eq!(pieces[2][19], 59);
    assert_eq!(pieces.concat(), bytes);
    assert!(deserialize_pieces(&[]).is_empty());
}

#[test]
fn digest_of_a_torrent_file() {
    let buf = torrent_file(INFO);
    assert_eq!(Metainfo::create_info_hash(&buf), HASH);

    let metainfo = Metainfo::from_bytes("http://t/".to_string(), info(), &buf);
    assert_eq!(metainfo.info_hash, HASH);
    assert_eq!(metainfo.announce, "http://t/");
    assert_eq!(metainfo.info.name, "a.bin");
    assert_eq!(metainfo.info.length, Some(40000));
}

#[test]
fn digest_does_not_depend_on_the_order_of_keys() {
    let buf = torrent_file(b"d4:name5:a.bin6:pieces0:12:piece lengthi16384e6:lengthi40000ee");
    assert_eq!(Metainfo::create_info_hash(&buf), HASH);
}

#[test]
fn torrent_files_that_cannot_be_used() {
    let good = torrent_file(INFO);
    assert!(Metainfo::try_from_bytes(String::new(), info(), &good).is_some());
    assert_eq!(
        Metainfo::try_from_bytes(String::new(), info(), &good).unwrap().info_hash,
        HASH
    );
    assert!(Metainfo::try_from_bytes(String::new(), info(), b"").is_none());
    assert!(Metainfo::try_from_bytes(String::new(), info(), b"i1e").is_none());
    assert!(Metainfo::try_from_bytes(String::new(), info(), b"d8:announce1:xe").is_none());
}

#[test]
fn entries_are_found_by_key() {
    let value = serde_bencode::value::Value::Int(1);
    let entries = vec![("a".to_string(), value.clone()), ("info".to_string(), value)];
    assert_eq!(find_key(&entries, "info"), Some(1));
    assert_eq!(find_key(&entries, "b"), None);
    assert!(hash_info(&entries).is_some());
    assert!(hash_info(&entries[..1].to_vec()).is_none());
}

#[test]
fn length_of_a_torrent() {
    assert_eq!(info().total_length(), Some(40000));
    let files = vec![
        File { length: 10, path: vec!["x".to_string()] },
        File { length: 32, path: vec!["y".to_string(), "z".to_string()] },
    ];
    let several = Info { length: None, files: Some(files), ..info() };
    assert_eq!(several.total_length(), Some(42));
    let none = Info { length: None, ..info() };
    assert_eq!(none.total_length(), Some(0));
    let huge = vec![
        File { length: usize::MAX, path: vec![] },
        File { length: 1, path: vec![] },
    ];
    let huge = Info { length: None, files: Some(huge), ..info() };
    assert_eq!(huge.total_length(), None);
    assert!(!huge.is_startable());
}

#[test]
fn torrents_that_can_be_started() {
    assert!(info().is_startable());
    assert!(!Info { piece_length: 0, ..info() }.is_startable());
}
