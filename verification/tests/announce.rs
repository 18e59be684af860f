use riptorrent::address::{IpAddr, SocketAddr};
use riptorrent::metainfo::{Info, Metainfo};
use riptorrent::tracker::{
    announce, announce_reply, deserialize_peers, peers_from_dicts, Error, Event, Params, PeerDict,
    Response,
};
use riptorrent::urlencode::percent_encode;

fn metainfo() -> Metainfo {
    let mut info_hash = [0u8; 20];
    for i in 0..20 {
        info_hash[i] = (i * 13) as u8;
    }
    Metainfo {
        announce: "http://tracker/announce".to_string(),
        info: Info {
            name: "a".to_string(),
            piece_length: 16384,
            pieces: vec![],
            length: Some(16384),
            files: None,
        },
        info_hash,
    }
}

fn params() -> Params {
    Params {
        info_hash: [0; 20],
        peer_id: "00000000000000000000".to_string(),
        ip: None,
        port: 6881,
        uploaded: 0,
        downloaded: 1,
        left: 16384,
        event: None,
        compact: 1,
    }
}

#[test]
fn compact_peers_are_read() {
    let peers = deserialize_peers(&[10, 0, 0, 1, 0x1A, 0xE1, 192, 168, 1, 2, 0, 80]);
    assert_eq!(
        peers,
        vec![
            SocketAddr { ip: IpAddr::V4(10, 0, 0, 1), port: 6881 },
            SocketAddr { ip: IpAddr::V4(192, 168, 1, 2), port: 80 },
        ]
    );
    assert!(deserialize_peers(&[]).is_empty());
}

#[test]
fn listed_peers_are_read() {
    let dicts = vec![
        PeerDict { peer_id: [1; 20], ip: IpAddr::V4(1, 2, 3, 4), port: 5 },
        PeerDict { peer_id: [2; 20], ip: IpAddr::V6(1), port: 6 },
    ];
    assert_eq!(
        peers_from_dicts(&dicts),
        vec![
            SocketAddr { ip: IpAddr::V4(1, 2, 3, 4), port: 5 },
            SocketAddr { ip: IpAddr::V6(1), port: 6 },
        ]
    );
}

#[test]
fn bytes_are_percent_encoded() {
    assert_eq!(percent_encode(b"aZ09-._~"), "aZ09-._~");
    assert_eq!(percent_encode(&[0, 32, 43, 255, 37]), "%00%20%2B%FF%25");
    assert_eq!(percent_encode(&[]), "");
    assert_ne!(percent_encode(b"%41"), percent_encode(b"A"));
}

#[test]
fn announce_url_is_built() {
    let url = announce(&metainfo(), &params()).unwrap();
    assert_eq!(
        url,
        "http://tracker/announce?info_hash=%00%0D%1A%274AN%5Bhu%82%8F%9C%A9%B6%C3%D0%DD%EA%F7\
         &peer_id=00000000000000000000&port=6881&uploaded=0&downloaded=1&left=16384&compact=1"
    );
}

#[test]
fn announce_url_with_everything() {
    for (event, name) in [
        (Event::Started, "started"),
        (Event::Completed, "completed"),
        (Event::Stopped, "stopped"),
    ] {
        let params = Params {
            ip: Some("a b&*".to_string()),
            event: Some(event),
            compact: -1,
            ..params()
        };
        let url = announce(&metainfo(), &params).unwrap();
        let query = format!(
            "&peer_id=00000000000000000000&ip=a+b%26*&port=6881&uploaded=0&downloaded=1\
             &left=16384&event={}&compact=-1",
            name
        );
        assert!(url.ends_with(&query), "{}", url);
    }
}

#[test]
fn parameters_are_listed_in_order() {
    let names: Vec<String> = params().pairs().into_iter().map(|pair| pair.0).collect();
    assert_eq!(names, vec!["peer_id", "port", "uploaded", "downloaded", "left", "compact"]);
}

#[test]
fn replies_of_the_tracker() {
    let peers = vec![SocketAddr { ip: IpAddr::V4(1, 2, 3, 4), port: 5 }];
    let good = Response { failure_reason: None, interval: Some(30), peers: peers.clone() };
    let outcome = announce_reply(Ok(good)).unwrap();
    assert_eq!(outcome.interval, Some(30));
    assert_eq!(outcome.peers, peers);

    let bad = Response { failure_reason: Some("no".to_string()), interval: None, peers: vec![] };
    match announce_reply(Ok(bad)) {
        Err(Error::QueryError(reason)) => assert_eq!(reason, "no"),
        other => panic!("{:?}", other),
    }

    let fault = serde_bencode::Error::EndOfStream;
    assert!(matches!(announce_reply(Err(fault)), Err(Error::BencodeError(_))));
}

#[test]
fn faults_become_errors() {
    assert!(matches!(
        Error::from(serde_bencode::Error::EndOfStream),
        Error::BencodeError(serde_bencode::Error::EndOfStream)
    ));
    let fault = serde_urlencoded::to_string(1u8).unwrap_err();
    assert!(matches!(Error::from(fault), Error::URLEncodeError(_)));
    let fault = reqwest::Client::new().get("no url").build().unwrap_err();
    assert!(matches!(Error::from(fault), Error::HTTPError(_)));
}
