//! The torrent file.
use crate::bencode::{bencode_dict, bencoding, decode_dict, encode_value, find_key, has_key, lists};
use crate::digest::{sha1_digest, sha1_of};
use serde_bencode::value::Value;
use vstd::pervasive::unreached;
use vstd::prelude::*;

verus! {

/// What is shared: one file, or several under a common name.
#[derive(Debug)]
pub struct Info {
    pub name: String,
    pub piece_length: usize,
    pub pieces: Vec<[u8; 20]>,
    pub length: Option<usize>,
    pub files: Option<Vec<File>>,
}

/// One of several files.
#[derive(Debug)]
pub struct File {
    pub length: usize,
    pub path: Vec<String>,
}

/// A torrent file, and the digest by which trackers and peers know it.
#[derive(Debug)]
pub struct Metainfo {
    pub announce: String,
    pub info: Info,
    pub info_hash: [u8; 20],
}

/// The digests of the pieces, which a torrent file holds one after the other.
pub fn deserialize_pieces(v: &[u8]) -> (pieces: Vec<[u8; 20]>)
    requires
        v@.len() % 20 == 0,
    ensures
        pieces@.len() == v@.len() / 20,
        forall|i: int|
            0 <= i < pieces@.len() ==> (#[trigger] pieces@[i])@ == v@.subrange(20 * i, 20 * i + 20),
        joined(pieces@) == v@,
{
    let mut pieces: Vec<[u8; 20]> = Vec::new();
    let mut at: usize = 0;
    while at < v.len()
        invariant
            at <= v@.len(),
            v@.len() % 20 == 0,
            at == 20 * pieces@.len(),
            forall|i: int|
                0 <= i < pieces@.len() ==> (#[trigger] pieces@[i])@ == v@.subrange(
                    20 * i,
                    20 * i + 20,
                ),
        decreases v@.len() - at,
    {
        pieces.push(twenty_bytes(v, at));
        at = at + 20;
    }
    proof {
        law_pieces_join(v@, pieces@);
    }
    pieces
}

/// The twenty bytes of `v` from `at` on.
fn twenty_bytes(v: &[u8], at: usize) -> (piece: [u8; 20])
    requires
        at + 20 <= v@.len(),
    ensures
        piece@ == v@.subrange(at as int, at + 20),
{
    let len: usize = v.len();
    let mut piece: [u8; 20] = [0u8; 20];
    let mut i: usize = 0;
    while i < 20
        invariant
            i <= 20,
            at + 20 <= len,
            len == v@.len(),
            piece@.len() == 20,
            forall|j: int| 0 <= j < i ==> #[trigger] piece@[j] == v@[at + j],
        decreases 20 - i,
    {
        piece[i] = v[at + i];
        i = i + 1;
    }
    assert(piece@ =~= v@.subrange(at as int, at + 20));
    piece
}

/// The bytes of all of `pieces`, one after the other.
pub open spec fn joined(pieces: Seq<[u8; 20]>) -> Seq<u8>
    decreases pieces.len(),
{
    if pieces.len() == 0 {
        Seq::empty()
    } else {
        joined(pieces.drop_last()) + pieces.last()@
    }
}

/// Nothing is lost of the digests: put together again they are the bytes that
/// they were read from.
pub proof fn law_pieces_join(v: Seq<u8>, pieces: Seq<[u8; 20]>)
    requires
        v.len() == 20 * pieces.len(),
        forall|i: int|
            0 <= i < pieces.len() ==> (#[trigger] pieces[i])@ == v.subrange(20 * i, 20 * i + 20),
    ensures
        joined(pieces) == v,
    decreases pieces.len(),
{
    if pieces.len() > 0 {
        let n = pieces.len() - 1;
        let front = v.take(20 * n);
        assert forall|i: int| 0 <= i < n implies (#[trigger] pieces.drop_last()[i])@
            == front.subrange(20 * i, 20 * i + 20) by {
            assert(pieces[i]@ == v.subrange(20 * i, 20 * i + 20));
            assert(v.subrange(20 * i, 20 * i + 20) =~= front.subrange(20 * i, 20 * i + 20));
        }
        law_pieces_join(front, pieces.drop_last());
        assert(pieces[n]@ == v.subrange(20 * n, 20 * n + 20));
        assert(front + v.subrange(20 * n, 20 * n + 20) =~= v);
    } else {
        assert(joined(pieces) =~= v);
    }
}

/// Whether `buf` holds a bencoded dictionary with an entry `info`.
pub open spec fn has_info(buf: Seq<u8>) -> bool {
    bencode_dict(buf) is Some && bencode_dict(buf)->0.contains_key("info"@)
}

/// The digest of the bencoding of the entry `info` of the dictionary in `buf`.
pub open spec fn info_hash_of(buf: Seq<u8>) -> Seq<u8> {
    sha1_of(bencoding(bencode_dict(buf)->0["info"@]))
}

/// The digest of the bencoding of the first entry `info` of a dictionary.
pub fn hash_info(entries: &Vec<(String, Value)>) -> (hash: Option<[u8; 20]>)
    ensures
        hash is Some <==> has_key(entries@, "info"@),
        hash matches Some(h) ==> exists|i: int|
            {
                &&& 0 <= i < entries@.len()
                &&& (#[trigger] entries@[i]).0@ == "info"@
                &&& forall|j: int| 0 <= j < i ==> (#[trigger] entries@[j]).0@ != "info"@
                &&& h@ == sha1_of(bencoding(entries@[i].1))
            },
{
    match find_key(entries, "info") {
        Some(place) => match encode_value(&entries[place].1) {
            Ok(bytes) => {
                let hash: [u8; 20] = sha1_digest(bytes.as_slice());
                assert(entries@[place as int].0@ == "info"@);
                Some(hash)
            },
            Err(_) => None,
        },
        None => None,
    }
}

impl Metainfo {
    /// The digest that identifies the torrent file in `buf`.
    pub fn create_info_hash(buf: &[u8]) -> (hash: [u8; 20])
        requires
            has_info(buf@),
        ensures
            hash@ == info_hash_of(buf@),
    {
        match decode_dict(buf) {
            Ok(entries) => match hash_info(&entries) {
                Some(hash) => hash,
                None => unreached(),
            },
            Err(_) => unreached(),
        }
    }

    /// The torrent file in `buf`, of which `announce` and `info` were read. The
    /// digest is that of `buf` as it stands.
    pub fn from_bytes(announce: String, info: Info, buf: &[u8]) -> (metainfo: Metainfo)
        requires
            has_info(buf@),
        ensures
            metainfo.announce == announce,
            metainfo.info == info,
            metainfo.info_hash@ == info_hash_of(buf@),
    {
        let info_hash: [u8; 20] = Metainfo::create_info_hash(buf);
        Metainfo { announce, info, info_hash }
    }

    /// The same for any `buf`: nothing where it holds no dictionary with an
    /// entry `info`.
    pub fn try_from_bytes(announce: String, info: Info, buf: &[u8]) -> (metainfo: Option<Metainfo>)
        ensures
            metainfo is Some <==> has_info(buf@),
            metainfo matches Some(m) ==> {
                &&& m.announce == announce
                &&& m.info == info
                &&& m.info_hash@ == info_hash_of(buf@)
            },
    {
        match decode_dict(buf) {
            Ok(entries) => match find_key(&entries, "info") {
                Some(_) => Some(Metainfo::from_bytes(announce, info, buf)),
                None => None,
            },
            Err(_) => None,
        }
    }
}

/// A torrent file can be used exactly where it holds a dictionary with an entry
/// under the key `info`.
pub proof fn law_has_info(buf: Seq<u8>)
    ensures
        has_info(buf) <==> bencode_dict(buf) is Some && bencode_dict(buf)->0.contains_key(
            seq!['i', 'n', 'f', 'o'],
        ),
{
    reveal_strlit("info");
    assert("info"@ =~= seq!['i', 'n', 'f', 'o']);
}

/// The digest is that of the bencoding of what stands under the key `info`, and
/// of nothing else in the file.
pub proof fn law_info_hash(buf: Seq<u8>, dict: Map<Seq<char>, Value>, value: Value)
    requires
        bencode_dict(buf) == Some(dict),
        dict.contains_pair(seq!['i', 'n', 'f', 'o'], value),
    ensures
        has_info(buf),
        info_hash_of(buf) == sha1_of(bencoding(value)),
{
    reveal_strlit("info");
    assert("info"@ =~= seq!['i', 'n', 'f', 'o']);
}

} // verus!
