//! The announce to the tracker.
use crate::address::{IpAddr, SocketAddr};
use crate::bytes::{be_bytes, be_value, read_be_u16};
use crate::metainfo::Metainfo;
use crate::text::{
    decimal, decimal_string, is_numeral, law_decimal, law_numeral_is_unique, law_signed_decimal, signed_decimal,
    signed_decimal_string,
};
use crate::urlencode::{
    encode_pairs, form_pairs, law_form_pairs_are_injective, law_percent_encoding_is_injective, lemma_first_separator,
    lemma_percent_has_no_separator, pairs_view, percent_encode, percent_encoded, unreserved,
};
use reqwest::Error as HttpFault;
use serde_bencode::Error as BencodeFault;
use serde_urlencoded::ser::Error as FormFault;
use vstd::prelude::*;
use vstd::std_specs::convert::FromSpecImpl;

verus! {

/// Declares `reqwest::Error`.
#[verifier::external_type_specification]
#[verifier::external_body]
pub struct ExHttpError(HttpFault);

/// What an announce reports, other than that the download goes on.
#[derive(Debug, Clone, Copy, PartialEq, Eq, Structural)]
pub enum Event {
    Started,
    Completed,
    Stopped,
}

/// What the client tells the tracker.
#[derive(Debug)]
pub struct Params {
    pub info_hash: [u8; 20],
    pub peer_id: String,
    pub ip: Option<String>,
    pub port: u16,
    pub uploaded: usize,
    pub downloaded: usize,
    pub left: usize,
    pub event: Option<Event>,
    pub compact: i32,
}

/// What the tracker tells the client.
#[derive(Debug)]
pub struct Response {
    pub failure_reason: Option<String>,
    pub interval: Option<u64>,
    pub peers: Vec<SocketAddr>,
}

/// A peer in a reply that lists peers as dictionaries.
#[derive(Debug)]
pub struct PeerDict {
    pub peer_id: [u8; 20],
    pub ip: IpAddr,
    pub port: u16,
}

/// Why an announce failed.
#[derive(Debug)]
pub enum Error {
    QueryError(String),
    HTTPError(HttpFault),
    BencodeError(BencodeFault),
    URLEncodeError(FormFault),
}

impl From<HttpFault> for Error {
    fn from(e: HttpFault) -> (error: Error) {
        Error::HTTPError(e)
    }
}

impl FromSpecImpl<HttpFault> for Error {
    open spec fn obeys_from_spec() -> bool {
        true
    }

    open spec fn from_spec(e: HttpFault) -> Error {
        Error::HTTPError(e)
    }
}

impl From<BencodeFault> for Error {
    fn from(e: BencodeFault) -> (error: Error) {
        Error::BencodeError(e)
    }
}

impl FromSpecImpl<BencodeFault> for Error {
    open spec fn obeys_from_spec() -> bool {
        true
    }

    open spec fn from_spec(e: BencodeFault) -> Error {
        Error::BencodeError(e)
    }
}

impl From<FormFault> for Error {
    fn from(e: FormFault) -> (error: Error) {
        Error::URLEncodeError(e)
    }
}

impl FromSpecImpl<FormFault> for Error {
    open spec fn obeys_from_spec() -> bool {
        true
    }

    open spec fn from_spec(e: FormFault) -> Error {
        Error::URLEncodeError(e)
    }
}

/// The address that six bytes spell: the four of an IP version 4 address, then
/// the port.
pub open spec fn compact_peer(six: Seq<u8>) -> SocketAddr {
    SocketAddr {
        ip: IpAddr::V4(six[0], six[1], six[2], six[3]),
        port: be_value(six.subrange(4, 6)) as u16,
    }
}

/// The peers of a compact reply, six bytes for each.
pub fn deserialize_peers(v: &[u8]) -> (peers: Vec<SocketAddr>)
    requires
        v@.len() % 6 == 0,
    ensures
        peers@.len() == v@.len() / 6,
        forall|i: int|
            0 <= i < peers@.len() ==> #[trigger] peers@[i] == compact_peer(
                v@.subrange(6 * i, 6 * i + 6),
            ),
        joined_peers(peers@) == v@,
{
    let mut peers: Vec<SocketAddr> = Vec::new();
    let mut at: usize = 0;
    while at < v.len()
        invariant
            at <= v@.len(),
            v@.len() % 6 == 0,
            at == 6 * peers@.len(),
            forall|i: int|
                0 <= i < peers@.len() ==> #[trigger] peers@[i] == compact_peer(
                    v@.subrange(6 * i, 6 * i + 6),
                ),
        decreases v@.len() - at,
    {
        let port: u16 = read_be_u16(v, at + 4);
        let peer = SocketAddr { ip: IpAddr::V4(v[at], v[at + 1], v[at + 2], v[at + 3]), port };
        proof {
            let six = v@.subrange(at as int, at + 6);
            assert(six.subrange(4, 6) =~= v@.subrange(at + 4, at + 6));
            assert(peer == compact_peer(six));
        }
        peers.push(peer);
        at = at + 6;
    }
    proof {
        law_peers_join(v@, peers@);
    }
    peers
}

/// The peers of a reply that lists them as dictionaries, in order.
pub fn peers_from_dicts(dicts: &Vec<PeerDict>) -> (peers: Vec<SocketAddr>)
    ensures
        peers@ == dicts@.map_values(|d: PeerDict| SocketAddr { ip: d.ip, port: d.port }),
{
    let mut peers: Vec<SocketAddr> = Vec::new();
    let mut i: usize = 0;
    while i < dicts.len()
        invariant
            i <= dicts@.len(),
            peers@ == dicts@.take(i as int).map_values(
                |d: PeerDict| SocketAddr { ip: d.ip, port: d.port },
            ),
        decreases dicts@.len() - i,
    {
        peers.push(SocketAddr { ip: dicts[i].ip, port: dicts[i].port });
        i = i + 1;
        assert(peers@ =~= dicts@.take(i as int).map_values(
            |d: PeerDict| SocketAddr { ip: d.ip, port: d.port },
        ));
    }
    assert(dicts@.take(i as int) =~= dicts@);
    peers
}

/// The six bytes of an IP version 4 address and its port.
pub open spec fn compact_bytes(peer: SocketAddr) -> Seq<u8> {
    match peer.ip {
        IpAddr::V4(a, b, c, d) => seq![a, b, c, d] + be_bytes(peer.port as nat, 2),
        IpAddr::V6(_) => Seq::empty(),
    }
}

/// Nothing is lost of a peer: its address written out again is the six bytes
/// that it was read from.
pub proof fn law_compact_peer_bytes(six: Seq<u8>)
    requires
        six.len() == 6,
    ensures
        compact_bytes(compact_peer(six)) == six,
{
    crate::bytes::lemma_u32_range();
    crate::bytes::law_be_bytes_of_be_value(six.subrange(4, 6));
    assert(compact_bytes(compact_peer(six)) =~= six);
}

/// The name of an event in a request.
pub open spec fn event_name(event: Event) -> Seq<char> {
    match event {
        Event::Started => "started"@,
        Event::Completed => "completed"@,
        Event::Stopped => "stopped"@,
    }
}

fn event_string(event: Event) -> (s: String)
    ensures
        s@ == event_name(event),
{
    match event {
        Event::Started => "started".to_owned(),
        Event::Completed => "completed".to_owned(),
        Event::Stopped => "stopped".to_owned(),
    }
}

/// An optional name with its value.
pub open spec fn optional_pair(name: Seq<char>, value: Option<Seq<char>>) -> Seq<
    (Seq<char>, Seq<char>),
> {
    match value {
        Some(text) => seq![(name, text)],
        None => Seq::empty(),
    }
}

impl Params {
    /// The names and values of a request, in order. The digest is not among
    /// them, nor is what is not known.
    pub open spec fn spec_pairs(self) -> Seq<(Seq<char>, Seq<char>)> {
        seq![("peer_id"@, self.peer_id@)]
            + optional_pair("ip"@, match self.ip { Some(ip) => Some(ip@), None => None })
            + seq![
                ("port"@, decimal(self.port as nat)),
                ("uploaded"@, decimal(self.uploaded as nat)),
                ("downloaded"@, decimal(self.downloaded as nat)),
                ("left"@, decimal(self.left as nat)),
            ]
            + optional_pair("event"@, match self.event { Some(event) => Some(event_name(event)), None => None })
            + seq![("compact"@, signed_decimal(self.compact as int))]
    }

    /// The names and values of a request.
    pub fn pairs(&self) -> (pairs: Vec<(String, String)>)
        ensures
            pairs_view(pairs@) == self.spec_pairs(),
    {
        let mut pairs: Vec<(String, String)> = Vec::new();
        pairs.push(("peer_id".to_owned(), self.peer_id.clone()));
        if let Some(ip) = &self.ip {
            pairs.push(("ip".to_owned(), ip.clone()));
        }
        pairs.push(("port".to_owned(), decimal_string(self.port as u64)));
        pairs.push(("uploaded".to_owned(), decimal_string(self.uploaded as u64)));
        pairs.push(("downloaded".to_owned(), decimal_string(self.downloaded as u64)));
        pairs.push(("left".to_owned(), decimal_string(self.left as u64)));
        if let Some(event) = self.event {
            pairs.push(("event".to_owned(), event_string(event)));
        }
        pairs.push(("compact".to_owned(), signed_decimal_string(self.compact)));
        assert(pairs_view(pairs@) =~= self.spec_pairs());
        pairs
    }
}

/// The URL of an announce: the address of the tracker, then the digest of the
/// torrent and the rest of the request as its query.
pub open spec fn announce_url(metainfo: Metainfo, params: Params) -> Seq<char> {
    metainfo.announce@ + "?info_hash="@ + percent_encoded(metainfo.info_hash@, unreserved()) + "&"@
        + form_pairs(params.spec_pairs())
}

/// The URL to fetch for an announce.
pub fn announce(metainfo: &Metainfo, params: &Params) -> (url: Result<String, Error>)
    ensures
        url is Ok,
        url->Ok_0@ == announce_url(*metainfo, *params),
{
    let query: String = match encode_pairs(&params.pairs()) {
        Ok(query) => query,
        Err(e) => {
            return Err(Error::from(e));
        },
    };
    let encoded: String = percent_encode(metainfo.info_hash.as_slice());
    let mut url: String = metainfo.announce.clone();
    url.append("?info_hash=");
    url.append(encoded.as_str());
    url.append("&");
    url.append(query.as_str());
    Ok(url)
}

/// What comes of the reply to an announce.
pub open spec fn answer(reply: Result<Response, BencodeFault>) -> Result<Response, Error> {
    match reply {
        Err(e) => Err(Error::BencodeError(e)),
        Ok(response) => match response.failure_reason {
            Some(reason) => Err(Error::QueryError(reason)),
            None => Ok(response),
        },
    }
}

/// An announce succeeded exactly where the reply could be read and gives no
/// reason for a failure; then the reply comes out as it came in. The reason and
/// the fault of a reading come out as they came in, too.
pub proof fn law_answer(reply: Result<Response, BencodeFault>)
    ensures
        answer(reply) is Ok <==> reply is Ok && reply->Ok_0.failure_reason is None,
        answer(reply) is Ok ==> answer(reply)->Ok_0 == reply->Ok_0,
        reply is Ok && answer(reply) is Err ==> answer(reply)->Err_0 is QueryError && Some(
            answer(reply)->Err_0->QueryError_0,
        ) == reply->Ok_0.failure_reason,
        reply is Err ==> answer(reply) is Err && answer(reply)->Err_0 is BencodeError
            && answer(reply)->Err_0->BencodeError_0 == reply->Err_0,
{
}

/// What comes of the reply to an announce: a reply that could not be read is an
/// error, and so is one that gives a reason for a failure.
pub fn announce_reply(reply: Result<Response, BencodeFault>) -> (outcome: Result<Response, Error>)
    ensures
        outcome == (match reply {
            Err(e) => Err(Error::BencodeError(e)),
            Ok(response) => match response.failure_reason {
                Some(reason) => Err(Error::QueryError(reason)),
                None => Ok(response),
            },
        }),
        outcome == answer(reply),
{
    match reply {
        Ok(response) => {
            if response.failure_reason.is_some() {
                match response.failure_reason {
                    Some(reason) => Err(Error::QueryError(reason)),
                    None => Ok(Response { failure_reason: None, ..response }),
                }
            } else {
                Ok(response)
            }
        },
        Err(e) => Err(Error::from(e)),
    }
}

/// The peer that six bytes spell: an IP version 4 address of the first four, and
/// the port of the last two, the first of them counting 256.
pub proof fn law_compact_peer(six: Seq<u8>)
    requires
        six.len() == 6,
    ensures
        compact_peer(six).ip == IpAddr::V4(six[0], six[1], six[2], six[3]),
        compact_peer(six).port == six[4] * 256 + six[5],
{
    let two = six.subrange(4, 6);
    crate::bytes::law_be_value_of_fields(two);
    assert(two[0] == six[4] && two[1] == six[5]);
}

/// The names of the events.
pub proof fn law_event_names()
    ensures
        event_name(Event::Started) == seq!['s', 't', 'a', 'r', 't', 'e', 'd'],
        event_name(Event::Completed) == seq!['c', 'o', 'm', 'p', 'l', 'e', 't', 'e', 'd'],
        event_name(Event::Stopped) == seq!['s', 't', 'o', 'p', 'p', 'e', 'd'],
{
    reveal_strlit("started");
    reveal_strlit("completed");
    reveal_strlit("stopped");
    assert(event_name(Event::Started) =~= seq!['s', 't', 'a', 'r', 't', 'e', 'd']);
    assert(event_name(Event::Completed) =~= seq!['c', 'o', 'm', 'p', 'l', 'e', 't', 'e', 'd']);
    assert(event_name(Event::Stopped) =~= seq!['s', 't', 'o', 'p', 'p', 'e', 'd']);
}

/// What a request tells: under each name the value of the field of that name,
/// numbers as their numerals, and under no name anything else. The address and
/// the event are told only where there are such.
pub proof fn law_request_tells_the_fields(params: Params)
    ensures
        ({
            let pairs = params.spec_pairs();
            let ip: int = if params.ip is Some {
                1
            } else {
                0
            };
            let event: int = if params.event is Some {
                1
            } else {
                0
            };
            &&& pairs.len() == 6 + ip + event
            &&& pairs[0] == ("peer_id"@, params.peer_id@)
            &&& params.ip is Some ==> pairs[1] == ("ip"@, params.ip->0@)
            &&& pairs[1 + ip].0 == "port"@ && is_numeral(pairs[1 + ip].1, params.port as nat)
            &&& pairs[2 + ip].0 == "uploaded"@ && is_numeral(pairs[2 + ip].1, params.uploaded as nat)
            &&& pairs[3 + ip].0 == "downloaded"@ && is_numeral(
                pairs[3 + ip].1,
                params.downloaded as nat,
            )
            &&& pairs[4 + ip].0 == "left"@ && is_numeral(pairs[4 + ip].1, params.left as nat)
            &&& params.event is Some ==> pairs[5 + ip].0 == "event"@ && pairs[5 + ip].1
                == event_name(params.event->0)
            &&& pairs[5 + ip + event].0 == "compact"@
            &&& params.compact >= 0 ==> is_numeral(pairs[5 + ip + event].1, params.compact as nat)
            &&& params.compact < 0 ==> pairs[5 + ip + event].1[0] == '-' && is_numeral(
                pairs[5 + ip + event].1.skip(1),
                (-params.compact) as nat,
            )
        }),
{
    law_decimal(params.port as nat);
    law_decimal(params.uploaded as nat);
    law_decimal(params.downloaded as nat);
    law_decimal(params.left as nat);
    law_signed_decimal(params.compact as int);
}

/// The URL of an announce: the address of the tracker, a question mark, the
/// digest, an ampersand, and the request as a form.
pub proof fn law_announce_url(metainfo: Metainfo, params: Params)
    ensures
        announce_url(metainfo, params) == metainfo.announce@ + seq![
            '?', 'i', 'n', 'f', 'o', '_', 'h', 'a', 's', 'h', '=',
        ] + percent_encoded(metainfo.info_hash@, unreserved()) + seq!['&'] + form_pairs(
            params.spec_pairs(),
        ),
{
    reveal_strlit("?info_hash=");
    reveal_strlit("&");
    assert("?info_hash="@ =~= seq!['?', 'i', 'n', 'f', 'o', '_', 'h', 'a', 's', 'h', '=']);
    assert("&"@ =~= seq!['&']);
}

/// The tracker can tell announces apart: where two of them at the same tracker
/// have the same URL, they are for the same torrent and tell the same.
pub proof fn law_announces_differ(m: Metainfo, p: Params, n: Metainfo, q: Params)
    requires
        m.announce@ == n.announce@,
        announce_url(m, p) == announce_url(n, q),
    ensures
        m.info_hash@ == n.info_hash@,
        p.peer_id@ == q.peer_id@,
        p.ip is Some <==> q.ip is Some,
        p.ip is Some ==> p.ip->0@ == q.ip->0@,
        p.port == q.port,
        p.uploaded == q.uploaded,
        p.downloaded == q.downloaded,
        p.left == q.left,
        p.event == q.event,
        p.compact == q.compact,
{
    law_announce_url(m, p);
    law_announce_url(n, q);
    let head = m.announce@ + seq!['?', 'i', 'n', 'f', 'o', '_', 'h', 'a', 's', 'h', '='];
    let hm = percent_encoded(m.info_hash@, unreserved());
    let hn = percent_encoded(n.info_hash@, unreserved());
    let fp = form_pairs(p.spec_pairs());
    let fq = form_pairs(q.spec_pairs());
    assert((hm + seq!['&'] + fp) =~= announce_url(m, p).skip(head.len() as int));
    assert((hn + seq!['&'] + fq) =~= announce_url(n, q).skip(head.len() as int));
    lemma_percent_has_no_separator(m.info_hash@);
    lemma_percent_has_no_separator(n.info_hash@);
    lemma_first_separator(hm, fp, hn, fq, '&');
    law_percent_encoding_is_injective(m.info_hash@, n.info_hash@);
    law_form_pairs_are_injective(p.spec_pairs(), q.spec_pairs());
    let a = p.spec_pairs();
    let b = q.spec_pairs();
    law_request_tells_the_fields(p);
    law_request_tells_the_fields(q);
    reveal_strlit("ip");
    reveal_strlit("port");
    reveal_strlit("event");
    reveal_strlit("compact");
    assert("ip"@.len() != "port"@.len());
    assert("event"@.len() != "compact"@.len());
    assert(a[1].0 == b[1].0);
    let ip: int = if p.ip is Some {
        1
    } else {
        0
    };
    law_numeral_is_unique(a[1 + ip].1, p.port as nat, q.port as nat);
    law_numeral_is_unique(a[2 + ip].1, p.uploaded as nat, q.uploaded as nat);
    law_numeral_is_unique(a[3 + ip].1, p.downloaded as nat, q.downloaded as nat);
    law_numeral_is_unique(a[4 + ip].1, p.left as nat, q.left as nat);
    let event: int = if p.event is Some {
        1
    } else {
        0
    };
    assert(a[5 + ip].0 == b[5 + ip].0);
    if p.event is Some {
        law_event_names();
        assert(a[5 + ip].1 == event_name(p.event->0));
        assert(b[5 + ip].1 == event_name(q.event->0));
        let s = event_name(Event::Started);
        let c = event_name(Event::Completed);
        let t = event_name(Event::Stopped);
        assert(s.len() == 7 && c.len() == 9 && t.len() == 7 && s[2] == 'a' && t[2] == 'o');
    }
    let value = a[5 + ip + event].1;
    if p.compact >= 0 && q.compact >= 0 {
        law_numeral_is_unique(value, p.compact as nat, q.compact as nat);
    } else if p.compact < 0 && q.compact < 0 {
        law_numeral_is_unique(value.skip(1), (-p.compact) as nat, (-q.compact) as nat);
    } else {
        assert(value[0] == '-');
        let n: nat = if p.compact >= 0 {
            p.compact as nat
        } else {
            q.compact as nat
        };
        assert(is_numeral(value, n));
        assert(value[0] as int >= 48);
    }
}

/// The bytes of all of `peers`, one after the other.
pub open spec fn joined_peers(peers: Seq<SocketAddr>) -> Seq<u8>
    decreases peers.len(),
{
    if peers.len() == 0 {
        Seq::empty()
    } else {
        joined_peers(peers.drop_last()) + compact_bytes(peers.last())
    }
}

/// Nothing is lost of the peers: written out again they are the bytes that they
/// were read from.
pub proof fn law_peers_join(v: Seq<u8>, peers: Seq<SocketAddr>)
    requires
        v.len() == 6 * peers.len(),
        forall|i: int|
            0 <= i < peers.len() ==> #[trigger] peers[i] == compact_peer(v.subrange(6 * i, 6 * i + 6)),
    ensures
        joined_peers(peers) == v,
    decreases peers.len(),
{
    if peers.len() > 0 {
        let n = peers.len() - 1;
        let front = v.take(6 * n);
        assert forall|i: int| 0 <= i < n implies #[trigger] peers.drop_last()[i] == compact_peer(
            front.subrange(6 * i, 6 * i + 6),
        ) by {
            assert(peers[i] == compact_peer(v.subrange(6 * i, 6 * i + 6)));
            assert(v.subrange(6 * i, 6 * i + 6) =~= front.subrange(6 * i, 6 * i + 6));
        }
        law_peers_join(front, peers.drop_last());
        law_compact_peer_bytes(v.subrange(6 * n, 6 * n + 6));
        assert(peers[n] == compact_peer(v.subrange(6 * n, 6 * n + 6)));
        assert(front + v.subrange(6 * n, 6 * n + 6) =~= v);
    } else {
        assert(joined_peers(peers) =~= v);
    }
}

} // verus!
