//! A BitTorrent client whose rules are proved.
//!
//! The library holds everything the client decides: the peer wire messages
//! ([`message`]), the torrent file ([`metainfo`]), the announce request and its
//! reply ([`tracker`]), the bookkeeping of downloaded blocks ([`piece`]), and
//! the three tasks of a download as state machines: the torrent
//! ([`torrent`]), one connection to a peer ([`peer`]) and the file writer
//! ([`writer`]). A caller performs the actions that the machines return
//! (sockets, files, clock) and reports back what came of them. What holds of
//! the tasks together is stated in [`download`].

pub mod address;
pub mod bencode;
pub mod bits;
pub mod bytes;
pub mod digest;
pub mod download;
pub mod handshake;
pub mod manager;
pub mod message;
pub mod metainfo;
pub mod peer;
pub mod piece;
pub mod queue;
pub mod request;
pub mod text;
pub mod torrent;
pub mod tracker;
pub mod urlencode;
pub mod writer;
