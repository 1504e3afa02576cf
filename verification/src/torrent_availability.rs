//! Asking trackers and peers how well a torrent is served: the messages, and
//! what is made of the answers.

use vstd::prelude::*;

use crate::keyed::Keyed;
use crate::order::{key_seqs, positions, rank, ranked};
use crate::store::{Store, Stored, StoredView};
use crate::text::{chars_of, concat2, lower, same_text, texts, to_lower};
use crate::urls::{parse_url, url_parts};

verus! {

pub const UDP_TRACKER_CONNECT_MAGIC: u64 = 0x417_2710_1980;

pub const ACTION_CONNECT: u32 = 0;

pub const ACTION_ANNOUNCE: u32 = 1;

pub const ACTION_ERROR: u32 = 3;

/// The most torrents that one tracker is asked about.
pub const MAX_HASHES_PER_TRACKER: usize = 50;

/// The number of peers that a tracker is asked for.
pub const ANNOUNCE_NUM_WANT: u32 = 100;

/// The most peers that are kept for one torrent.
pub const MAX_PEERS_PER_SWARM: usize = 100;

/// The most trackers that are asked.
pub const MAX_TRACKERS: usize = 3;

/// The most peers that are asked.
pub const MAX_ACTIVE_PEER_PROBES: usize = 12;

/// The longest message that is read from a peer.
pub const MAX_PEER_MESSAGE_BYTES: usize = 262_144;

/// How long an answer is remembered, in milliseconds.
pub const CACHE_TTL_MS: u64 = 45_000;

/// How long it is remembered that no tracker answered.
pub const FAILURE_CACHE_TTL_MS: u64 = 10_000;

/// How long the answers of peers are remembered.
pub const PEER_PROBE_CACHE_TTL_MS: u64 = 20_000;

// ---------------------------------------------------------------------------
// Numbers in messages
// ---------------------------------------------------------------------------

/// The number `n` in `width` bytes, the greatest first.
pub open spec fn be(n: nat, width: nat) -> Seq<u8>
    decreases width,
{
    if width == 0 {
        Seq::empty()
    } else {
        be(n / 256, (width - 1) as nat).push((n % 256) as u8)
    }
}

/// The number that some bytes stand for.
pub open spec fn be_value(bytes: Seq<u8>) -> nat
    decreases bytes.len(),
{
    if bytes.len() == 0 {
        0
    } else {
        be_value(bytes.drop_last()) * 256 + bytes.last() as nat
    }
}

pub open spec fn power256(n: nat) -> nat
    decreases n,
{
    if n == 0 {
        1
    } else {
        256 * power256((n - 1) as nat)
    }
}

/// A number that fits is read back from its bytes.
pub proof fn law_numbers_read_back(n: nat, width: nat)
    requires
        n < power256(width),
    ensures
        be(n, width).len() == width,
        be_value(be(n, width)) == n,
    decreases width,
{
    if width > 0 {
        law_numbers_read_back(n / 256, (width - 1) as nat);
        assert(be(n, width).drop_last() =~= be(n / 256, (width - 1) as nat));
    }
}

proof fn lemma_be_len(n: nat, width: nat)
    ensures
        be(n, width).len() == width,
    decreases width,
{
    if width > 0 {
        lemma_be_len(n / 256, (width - 1) as nat);
    }
}

/// Appends `n` in `width` bytes.
fn push_be(bytes: &mut Vec<u8>, n: u64, width: u32)
    ensures
        final(bytes)@ == old(bytes)@ + be(n as nat, width as nat),
    decreases width,
{
    if width == 0 {
        assert(bytes@ =~= old(bytes)@ + be(n as nat, 0));
    } else {
        push_be(bytes, n / 256, width - 1);
        bytes.push((n % 256) as u8);
        assert(bytes@ =~= old(bytes)@ + be(n as nat, width as nat));
    }
}

/// The number in the bytes from `from` up to `to`.
fn read_be(bytes: &Vec<u8>, from: usize, to: usize) -> (n: u64)
    requires
        from <= to <= bytes.len(),
        to - from <= 8,
    ensures
        n == be_value(bytes@.subrange(from as int, to as int)),
{
    let mut n: u64 = 0;
    let mut i: usize = from;
    proof {
        reveal_with_fuel(power256, 9);
    }
    while i < to
        invariant
            from <= i <= to <= bytes.len(),
            to - from <= 8,
            n == be_value(bytes@.subrange(from as int, i as int)),
            n < power256((i - from) as nat),
            power256(8) == 0x1_0000_0000_0000_0000,
        decreases to - i,
    {
        proof {
            let s = bytes@.subrange(from as int, i + 1);
            assert(s.drop_last() =~= bytes@.subrange(from as int, i as int));
            assert(power256((i + 1 - from) as nat) == 256 * power256((i - from) as nat));
            lemma_power256_grows((i + 1 - from) as nat, 8);
        }
        n = n * 256 + bytes[i] as u64;
        i = i + 1;
    }
    n
}

proof fn lemma_power256_grows(a: nat, b: nat)
    requires
        a <= b,
    ensures
        0 < power256(a) <= power256(b),
    decreases b,
{
    if a < b {
        lemma_power256_grows(a, (b - 1) as nat);
    } else if b > 0 {
        lemma_power256_grows((a - 1) as nat, (b - 1) as nat);
    }
}

/// Appends all of `more`.
fn push_bytes(bytes: &mut Vec<u8>, more: &Vec<u8>)
    ensures
        final(bytes)@ == old(bytes)@ + more@,
{
    let mut i: usize = 0;
    assert(bytes@ + more@.take(0) =~= bytes@);
    while i < more.len()
        invariant
            i <= more.len(),
            bytes@ == old(bytes)@ + more@.take(i as int),
        decreases more.len() - i,
    {
        bytes.push(more[i]);
        i = i + 1;
        assert(bytes@ =~= old(bytes)@ + more@.take(i as int));
    }
    assert(more@.take(more@.len() as int) =~= more@);
}

/// The ASCII characters of `s` as bytes.
pub open spec fn ascii(s: Seq<char>) -> Seq<u8> {
    s.map_values(|c: char| c as u8)
}

fn push_ascii(bytes: &mut Vec<u8>, s: &str)
    ensures
        final(bytes)@ == old(bytes)@ + ascii(s@),
{
    let chars = chars_of(s);
    let mut i: usize = 0;
    assert(bytes@ + ascii(s@).take(0) =~= bytes@);
    while i < chars.len()
        invariant
            i <= chars.len(),
            chars@ == s@,
            bytes@ == old(bytes)@ + ascii(s@).take(i as int),
        decreases chars.len() - i,
    {
        let c = chars[i];
        bytes.push(#[verifier::truncate] (c as u8));
        i = i + 1;
        assert(bytes@ =~= old(bytes)@ + ascii(s@).take(i as int));
    }
    assert(ascii(s@).take(s@.len() as int) =~= ascii(s@));
}

// ---------------------------------------------------------------------------
// Peers
// ---------------------------------------------------------------------------

/// An address, as the number that its bytes stand for.
#[derive(Debug, Clone, Copy, PartialEq, Eq, Structural)]
pub enum Ip {
    V4(u32),
    V6(u128),
}

#[derive(Debug, Clone, Copy, PartialEq, Eq, Structural)]
pub struct Peer {
    pub ip: Ip,
    pub port: u16,
}

/// The first two bytes of a version 4 address decide whether it is public: not
/// this network, private, carrier, loopback, link-local, documentation,
/// benchmark, multicast or reserved.
pub open spec fn public_v4(ip: u32) -> bool {
    let a = ip / 0x100_0000;
    let b = ip / 0x1_0000 % 0x100;
    !(a == 0 || a == 10 || a == 127 || (a == 100 && 64 <= b <= 127) || (a == 169 && b == 254) || (a
        == 172 && 16 <= b <= 31) || (a == 192 && (b == 0 || b == 168)) || (a == 198 && (b == 18 || b
        == 19 || b == 51)) || (a == 203 && b == 0) || a >= 224)
}

/// A version 6 address is public where it is not unspecified, loopback,
/// multicast, unique-local, link-local or documentation; one that maps a
/// version 4 address goes by that.
pub open spec fn public_v6(ip: u128) -> bool {
    if ip / 0x1_0000_0000 == 0xffff {
        public_v4((ip % 0x1_0000_0000) as u32)
    } else {
        let first = ip / 0x1_0000_0000_0000_0000_0000_0000_0000;
        let second = ip / 0x1_0000_0000_0000_0000_0000_0000 % 0x1_0000;
        &&& ip != 0
        &&& ip != 1
        &&& first / 0x100 != 0xff
        &&& first / 0x200 != 0x7e
        &&& first / 0x40 != 0x3fa
        &&& !(first == 0x2001 && second == 0xdb8)
    }
}

pub open spec fn public_peer(peer: Peer) -> bool {
    peer.port != 0 && match peer.ip {
        Ip::V4(ip) => public_v4(ip),
        Ip::V6(ip) => public_v6(ip),
    }
}

fn is_public_v4(ip: u32) -> (r: bool)
    ensures
        r == public_v4(ip),
{
    let a: u32 = ip / 0x100_0000;
    let b: u32 = ip / 0x1_0000 % 0x100;
    !(a == 0 || a == 10 || a == 127 || (a == 100 && 64 <= b && b <= 127) || (a == 169 && b == 254)
        || (a == 172 && 16 <= b && b <= 31) || (a == 192 && (b == 0 || b == 168)) || (a == 198 && (b
        == 18 || b == 19 || b == 51)) || (a == 203 && b == 0) || a >= 224)
}

/// Whether a peer can be asked: it has a port, and its address is public.
pub fn is_public_peer(peer: &Peer) -> (r: bool)
    ensures
        r == public_peer(*peer),
{
    if peer.port == 0 {
        return false;
    }
    match peer.ip {
        Ip::V4(ip) => is_public_v4(ip),
        Ip::V6(ip) => {
            if ip / 0x1_0000_0000 == 0xffff {
                return is_public_v4((ip % 0x1_0000_0000) as u32);
            }
            let first: u128 = ip / 0x1_0000_0000_0000_0000_0000_0000_0000;
            let second: u128 = ip / 0x1_0000_0000_0000_0000_0000_0000 % 0x1_0000;
            ip != 0 && ip != 1 && first / 0x100 != 0xff && first / 0x200 != 0x7e && first / 0x40
                != 0x3fa && !(first == 0x2001 && second == 0xdb8)
        },
    }
}

/// Whether the list holds the peer.
pub fn has_peer(peers: &Vec<Peer>, peer: Peer) -> (r: bool)
    ensures
        r == peers@.contains(peer),
{
    let mut i: usize = 0;
    while i < peers.len()
        invariant
            i <= peers.len(),
            forall|j: int| 0 <= j < i ==> peers@[j] != peer,
        decreases peers.len() - i,
    {
        if peers[i] == peer {
            assert(peers@[i as int] == peer);
            return true;
        }
        i = i + 1;
    }
    false
}

/// The public ones of some peers, in their order.
pub fn public_peers(peers: &Vec<Peer>) -> (r: Vec<Peer>)
    ensures
        r@ == peers@.filter(|p: Peer| public_peer(p)),
{
    let mut r: Vec<Peer> = Vec::new();
    let mut i: usize = 0;
    let ghost kept = |p: Peer| public_peer(p);
    while i < peers.len()
        invariant
            i <= peers.len(),
            kept == (|p: Peer| public_peer(p)),
            r@ == peers@.take(i as int).filter(kept),
        decreases peers.len() - i,
    {
        proof {
            assert(peers@.take(i + 1).drop_last() =~= peers@.take(i as int));
            reveal(Seq::filter);
        }
        if is_public_peer(&peers[i]) {
            r.push(peers[i]);
        }
        i = i + 1;
    }
    assert(peers@.take(peers@.len() as int) =~= peers@);
    r
}

/// The place of the `i`-th of `limit` samples among `n` peers.
pub open spec fn sample_place(i: int, n: int, limit: int) -> int {
    (if i * (n - 1) <= usize::MAX {
        i * (n - 1)
    } else {
        usize::MAX as int
    }) / (limit - 1)
}

/// At most `limit` of the peers, spread evenly over all of them.
pub open spec fn sampled(peers: Seq<Peer>, limit: nat) -> Seq<Peer> {
    if peers.len() <= limit {
        peers
    } else if limit <= 1 {
        peers.take(limit as int)
    } else {
        Seq::new(limit, |i: int| peers[sample_place(i, peers.len() as int, limit as int)])
    }
}

proof fn lemma_sample_place(i: int, n: int, limit: int)
    requires
        0 <= i < limit,
        limit >= 2,
        n > limit,
    ensures
        0 <= sample_place(i, n, limit) < n,
{
    let product = i * (n - 1);
    assert(0 <= product <= (limit - 1) * (n - 1)) by (nonlinear_arith)
        requires
            product == i * (n - 1),
            0 <= i < limit,
            n > 2,
    ;
    let held = if product <= usize::MAX {
        product
    } else {
        usize::MAX as int
    };
    assert(0 <= held / (limit - 1) <= n - 1) by (nonlinear_arith)
        requires
            0 <= held <= (limit - 1) * (n - 1),
            limit >= 2,
    ;
}

pub fn sample_peers(peers: &Vec<Peer>, limit: usize) -> (r: Vec<Peer>)
    ensures
        r@ == sampled(peers@, limit as nat),
{
    let mut r: Vec<Peer> = Vec::new();
    let n: usize = peers.len();
    let mut i: usize = 0;
    if n <= limit || limit <= 1 {
        let count: usize = if n <= limit {
            n
        } else {
            limit
        };
        while i < count
            invariant
                i <= count <= peers.len(),
                r@ == peers@.take(i as int),
            decreases count - i,
        {
            r.push(peers[i]);
            i = i + 1;
            assert(r@ =~= peers@.take(i as int));
        }
        assert(peers@.take(peers@.len() as int) =~= peers@);
        return r;
    }
    while i < limit
        invariant
            n == peers.len(),
            n > limit >= 2,
            i <= limit,
            r@ == sampled(peers@, limit as nat).take(i as int),
        decreases limit - i,
    {
        proof {
            lemma_sample_place(i as int, n as int, limit as int);
        }
        let product: usize = match i.checked_mul(n - 1) {
            Some(p) => p,
            None => usize::MAX,
        };
        let place: usize = product / (limit - 1);
        r.push(peers[place]);
        i = i + 1;
        assert(r@ =~= sampled(peers@, limit as nat).take(i as int));
    }
    assert(r@ =~= sampled(peers@, limit as nat));
    r
}

/// A sample of more than one reaches from the first peer to the last, has the
/// size that is asked for, and holds nothing but peers.
pub proof fn law_sample_spans_all_peers(peers: Seq<Peer>, limit: nat)
    requires
        limit >= 2,
        (limit - 1) * (peers.len() - 1) <= usize::MAX,
    ensures
        sampled(peers, limit).len() == if peers.len() <= limit {
            peers.len()
        } else {
            limit
        },
        peers.len() > 0 ==> sampled(peers, limit).first() == peers.first()
            && sampled(peers, limit).last() == peers.last(),
        forall|i: int|
            0 <= i < sampled(peers, limit).len() ==> peers.contains(
                #[trigger] sampled(peers, limit)[i],
            ),
{
    let n = peers.len() as int;
    if n > limit {
        assert(0 * (n - 1) == 0);
        assert(((limit - 1) * (n - 1)) / (limit - 1) == n - 1) by (nonlinear_arith)
            requires
                limit >= 2,
        ;
        assert forall|i: int| 0 <= i < sampled(peers, limit).len() implies peers.contains(
            #[trigger] sampled(peers, limit)[i],
        ) by {
            lemma_sample_place(i, n, limit as int);
        }
        lemma_sample_place(0, n, limit as int);
        assert(sample_place(0, n, limit as int) == 0);
    }
}

// ---------------------------------------------------------------------------
// Chance
// ---------------------------------------------------------------------------

/// `rand::random::<u32>`: any number.
#[verifier::external_body]
fn random_number() -> (n: u32) {
    rand::random::<u32>()
}

/// `rand::random::<[u8; 12]>`: any twelve bytes.
#[verifier::external_body]
fn random_suffix() -> (r: Vec<u8>)
    ensures
        r@.len() == 12,
{
    rand::random::<[u8; 12]>().to_vec()
}

// ---------------------------------------------------------------------------
// Hashes
// ---------------------------------------------------------------------------

pub open spec fn hex_value(c: char) -> Option<nat> {
    if '0' <= c && c <= '9' {
        Some((c as nat - 48) as nat)
    } else if 'a' <= c && c <= 'f' {
        Some((c as nat - 87) as nat)
    } else if 'A' <= c && c <= 'F' {
        Some((c as nat - 55) as nat)
    } else {
        None
    }
}

/// The byte that two characters stand for: two hexadecimal digits, or a plus
/// sign and one.
pub open spec fn hex_pair(a: char, b: char) -> Option<nat> {
    match (hex_value(a), hex_value(b)) {
        (Some(x), Some(y)) => Some(16 * x + y),
        (None, Some(y)) => if a == '+' {
            Some(y)
        } else {
            None
        },
        _ => None,
    }
}

/// The twenty bytes that forty characters stand for.
pub open spec fn decoded_hash(s: Seq<char>) -> Option<Seq<u8>> {
    if s.len() == 40 && (forall|k: int|
        0 <= k < 20 ==> #[trigger] hex_pair(s[2 * k], s[2 * k + 1]) is Some) {
        Some(Seq::new(20, |k: int| hex_pair(s[2 * k], s[2 * k + 1])->0 as u8))
    } else {
        None
    }
}

fn hex_digit_value(c: char) -> (r: Option<u8>)
    ensures
        match r {
            Some(v) => hex_value(c) == Some(v as nat) && v < 16,
            None => hex_value(c) is None,
        },
{
    if '0' <= c && c <= '9' {
        Some((c as u32 - 48) as u8)
    } else if 'a' <= c && c <= 'f' {
        Some((c as u32 - 87) as u8)
    } else if 'A' <= c && c <= 'F' {
        Some((c as u32 - 55) as u8)
    } else {
        None
    }
}

/// Decodes an info hash.
pub fn decode_info_hash(hash: &str) -> (r: Option<Vec<u8>>)
    ensures
        match r {
            Some(bytes) => decoded_hash(hash@) == Some(bytes@) && bytes@.len() == 20,
            None => decoded_hash(hash@) is None,
        },
{
    let chars = chars_of(hash);
    if chars.len() != 40 {
        return None;
    }
    let mut bytes: Vec<u8> = Vec::new();
    let mut k: usize = 0;
    while k < 20
        invariant
            k <= 20,
            chars@ == hash@,
            chars.len() == 40,
            bytes@.len() == k,
            forall|j: int|
                0 <= j < k ==> #[trigger] hex_pair(chars@[2 * j], chars@[2 * j + 1]) == Some(
                    bytes@[j] as nat,
                ),
        decreases 20 - k,
    {
        let ghost pair = hex_pair(hash@[2 * (k as int)], hash@[2 * (k as int) + 1]);
        let byte: u8 = match (hex_digit_value(chars[2 * k]), hex_digit_value(chars[2 * k + 1])) {
            (Some(x), Some(y)) => 16 * x + y,
            (None, Some(y)) => {
                if chars[2 * k] == '+' {
                    y
                } else {
                    assert(pair is None);
                    return None;
                }
            },
            _ => {
                assert(pair is None);
                return None;
            },
        };
        bytes.push(byte);
        k = k + 1;
    }
    assert(bytes@ =~= decoded_hash(hash@)->0);
    Some(bytes)
}

pub open spec fn scrape_key(hash: Seq<char>) -> Seq<char> {
    "torrent-scrape:"@ + hash
}

pub fn cache_key(info_hash: &str) -> (key: String)
    ensures
        key@ == scrape_key(info_hash@),
{
    concat2("torrent-scrape:", info_hash)
}

pub open spec fn peers_key(hash: Seq<char>) -> Seq<char> {
    "torrent-active-peers:"@ + hash
}

// ---------------------------------------------------------------------------
// Peers' messages
// ---------------------------------------------------------------------------

/// Whether a piece map is complete: every byte is full but the last, which is
/// full from its first bit on for one bit at least.
pub open spec fn complete_bitfield(bits: Seq<u8>) -> bool {
    bits.len() > 0 && (forall|i: int| 0 <= i < bits.len() - 1 ==> bits[i] == 0xff) && (bits.last()
        == 0xff || bits.last() == 0xfe || bits.last() == 0xfc || bits.last() == 0xf8 || bits.last()
        == 0xf0 || bits.last() == 0xe0 || bits.last() == 0xc0 || bits.last() == 0x80)
}

pub fn is_complete_bitfield(bitfield: &[u8]) -> (r: bool)
    ensures
        r == complete_bitfield(bitfield@),
{
    let n: usize = bitfield.len();
    if n == 0 {
        return false;
    }
    let mut i: usize = 0;
    while i < n - 1
        invariant
            n == bitfield.len(),
            0 < n,
            i <= n - 1,
            forall|j: int| 0 <= j < i ==> bitfield@[j] == 0xff,
        decreases n - i,
    {
        if bitfield[i] != 0xff {
            return false;
        }
        i = i + 1;
    }
    let last: u8 = bitfield[n - 1];
    if last == 0 {
        return false;
    }
    let below: u8 = last - 1;
    assert((last | below) == 0xff <==> (last == 0xff || last == 0xfe || last == 0xfc || last == 0xf8
        || last == 0xf0 || last == 0xe0 || last == 0xc0 || last == 0x80)) by (bit_vector)
        requires
            last > 0,
            below == (last - 1) as u8,
    ;
    (last | below) == 0xff
}

pub open spec fn protocol_name() -> Seq<u8> {
    ascii("BitTorrent protocol"@)
}

/// The name under which the server shows itself, with a random end.
pub open spec fn peer_id(suffix: Seq<u8>) -> Seq<u8> {
    ascii("-RM0001-"@) + suffix
}

/// The first message to a peer.
pub open spec fn handshake_spec(info_hash: Seq<u8>, suffix: Seq<u8>) -> Seq<u8> {
    seq![19u8] + protocol_name() + be(0, 8) + info_hash + peer_id(suffix)
}

/// The handshake for a torrent, with the given end of the server's name.
pub fn handshake(info_hash: &Vec<u8>, suffix: &Vec<u8>) -> (r: Vec<u8>)
    ensures
        r@ == handshake_spec(info_hash@, suffix@),
{
    let mut r: Vec<u8> = Vec::new();
    r.push(19);
    push_ascii(&mut r, "BitTorrent protocol");
    push_be(&mut r, 0, 8);
    push_bytes(&mut r, info_hash);
    push_ascii(&mut r, "-RM0001-");
    push_bytes(&mut r, suffix);
    assert(r@ =~= handshake_spec(info_hash@, suffix@));
    r
}

/// A handshake under a random name.
pub fn new_handshake(info_hash: &Vec<u8>) -> (r: Vec<u8>)
    ensures
        exists|suffix: Seq<u8>|
            suffix.len() == 12 && r@ == #[trigger] handshake_spec(info_hash@, suffix),
{
    let suffix = random_suffix();
    handshake(info_hash, &suffix)
}

/// Whether an answer is a handshake for the torrent.
pub open spec fn answers_handshake(response: Seq<u8>, info_hash: Seq<u8>) -> bool {
    &&& response.len() == 68
    &&& response[0] == 19
    &&& response.subrange(1, 20) == protocol_name()
    &&& response.subrange(28, 48) == info_hash
}

fn bytes_match(bytes: &Vec<u8>, from: usize, wanted: &Vec<u8>) -> (r: bool)
    requires
        from + wanted.len() <= bytes.len(),
    ensures
        r == (bytes@.subrange(from as int, from + wanted@.len()) == wanted@),
{
    let mut i: usize = 0;
    let ghost window = bytes@.subrange(from as int, from + wanted@.len());
    while i < wanted.len()
        invariant
            from + wanted.len() <= bytes.len(),
            i <= wanted.len(),
            window == bytes@.subrange(from as int, from + wanted@.len()),
            forall|j: int| 0 <= j < i ==> window[j] == wanted@[j],
        decreases wanted.len() - i,
    {
        if bytes[from + i] != wanted[i] {
            assert(window[i as int] != wanted@[i as int]);
            return false;
        }
        i = i + 1;
    }
    assert(window =~= wanted@);
    true
}

proof fn lemma_protocol_name()
    ensures
        protocol_name().len() == 19,
        ascii("-RM0001-"@).len() == 8,
{
    reveal_strlit("BitTorrent protocol");
    reveal_strlit("-RM0001-");
}

pub fn is_handshake_answer(response: &Vec<u8>, info_hash: &Vec<u8>) -> (r: bool)
    requires
        info_hash@.len() == 20,
    ensures
        r == answers_handshake(response@, info_hash@),
{
    if response.len() != 68 {
        return false;
    }
    let mut name: Vec<u8> = Vec::new();
    push_ascii(&mut name, "BitTorrent protocol");
    proof {
        assert(name@ =~= protocol_name());
        lemma_protocol_name();
    }
    response[0] == 19 && bytes_match(response, 1, &name) && bytes_match(response, 28, info_hash)
}

/// A peer that sends the handshake for the same torrent back is understood,
/// whatever the end of its name.
pub proof fn law_handshakes_are_understood(info_hash: Seq<u8>, suffix: Seq<u8>)
    requires
        info_hash.len() == 20,
        suffix.len() == 12,
    ensures
        answers_handshake(handshake_spec(info_hash, suffix), info_hash),
{
    lemma_protocol_name();
    lemma_be_len(0, 8);
    let m = handshake_spec(info_hash, suffix);
    assert(m.subrange(1, 20) =~= protocol_name());
    assert(m.subrange(28, 48) =~= info_hash);
}

/// What follows from the length of a peer's message.
#[derive(Debug, Clone, Copy, PartialEq, Eq, Structural)]
pub enum PeerLength {
    /// A keep-alive: wait for the next message.
    Skip,
    /// The message is too long: the peer does not count as a seeder.
    TooLong,
    /// Read so many bytes.
    Read(usize),
}

/// Decides on the four bytes before a message.
pub fn message_length(prefix: &Vec<u8>) -> (r: PeerLength)
    requires
        prefix@.len() == 4,
    ensures
        ({
            let n = be_value(prefix@);
            match r {
                PeerLength::Skip => n == 0,
                PeerLength::TooLong => n > MAX_PEER_MESSAGE_BYTES,
                PeerLength::Read(k) => 0 < n <= MAX_PEER_MESSAGE_BYTES && k == n,
            }
        }),
        r is TooLong <==> be_value(prefix@) > 256 * 1024,
{
    let n = read_be(prefix, 0, 4);
    assert(prefix@.subrange(0, 4) =~= prefix@);
    if n == 0 {
        PeerLength::Skip
    } else if n > MAX_PEER_MESSAGE_BYTES as u64 {
        PeerLength::TooLong
    } else {
        PeerLength::Read(n as usize)
    }
}

/// Whether a message tells that the peer has everything: a complete piece map
/// or "have all" says so, another map or "have none" denies it.
pub open spec fn seeder_message(message: Seq<u8>) -> Option<bool> {
    if message[0] == 5 {
        Some(complete_bitfield(message.skip(1)))
    } else if message[0] == 14 {
        Some(true)
    } else if message[0] == 15 {
        Some(false)
    } else {
        None
    }
}

/// Decides on a peer's message; `None` asks for the next one.
pub fn peer_message(message: &Vec<u8>) -> (r: Option<bool>)
    requires
        message@.len() > 0,
    ensures
        r == seeder_message(message@),
{
    let kind: u8 = message[0];
    if kind == 5 {
        let mut bits: Vec<u8> = Vec::new();
        let mut i: usize = 1;
        while i < message.len()
            invariant
                1 <= i <= message.len(),
                bits@ == message@.subrange(1, i as int),
            decreases message.len() - i,
        {
            bits.push(message[i]);
            i = i + 1;
            assert(bits@ =~= message@.subrange(1, i as int));
        }
        assert(bits@ =~= message@.skip(1));
        Some(is_complete_bitfield(bits.as_slice()))
    } else if kind == 14 {
        Some(true)
    } else if kind == 15 {
        Some(false)
    } else {
        None
    }
}

// ---------------------------------------------------------------------------
// Trackers' messages
// ---------------------------------------------------------------------------

/// The message that opens a connection to a tracker.
pub open spec fn connect_request_spec(transaction_id: u32) -> Seq<u8> {
    be(UDP_TRACKER_CONNECT_MAGIC as nat, 8) + be(ACTION_CONNECT as nat, 4) + be(
        transaction_id as nat,
        4,
    )
}

pub fn connect_request(transaction_id: u32) -> (r: Vec<u8>)
    ensures
        r@ == connect_request_spec(transaction_id),
{
    let mut r: Vec<u8> = Vec::new();
    push_be(&mut r, UDP_TRACKER_CONNECT_MAGIC, 8);
    push_be(&mut r, ACTION_CONNECT as u64, 4);
    push_be(&mut r, transaction_id as u64, 4);
    assert(r@ =~= connect_request_spec(transaction_id));
    r
}

/// A connection request with a random transaction number.
pub fn new_connect_request() -> (r: (u32, Vec<u8>))
    ensures
        r.1@ == connect_request_spec(r.0),
{
    let id = random_number();
    (id, connect_request(id))
}

/// Why a tracker's answer to a connection request is of no use.
#[derive(Debug)]
pub enum ConnectError {
    Short,
    TransactionMismatch,
    /// The tracker refused, with this message.
    Refused(Vec<u8>),
    Unexpected,
}

pub ghost enum ConnectAnswer {
    Connection(nat),
    Short,
    TransactionMismatch,
    Refused(Seq<u8>),
    Unexpected,
}

pub open spec fn connect_answer(response: Seq<u8>, transaction_id: u32) -> ConnectAnswer {
    if response.len() < 8 {
        ConnectAnswer::Short
    } else if be_value(response.subrange(4, 8)) != transaction_id {
        ConnectAnswer::TransactionMismatch
    } else if be_value(response.subrange(0, 4)) == ACTION_ERROR {
        ConnectAnswer::Refused(response.skip(8))
    } else if be_value(response.subrange(0, 4)) != ACTION_CONNECT || response.len() < 16 {
        ConnectAnswer::Unexpected
    } else {
        ConnectAnswer::Connection(be_value(response.subrange(8, 16)))
    }
}

/// The connection number in a tracker's answer.
pub fn read_connect_response(response: &Vec<u8>, transaction_id: u32) -> (r: Result<
    u64,
    ConnectError,
>)
    ensures
        match r {
            Ok(id) => connect_answer(response@, transaction_id) == ConnectAnswer::Connection(
                id as nat,
            ),
            Err(ConnectError::Short) => connect_answer(response@, transaction_id) is Short,
            Err(ConnectError::TransactionMismatch) => connect_answer(
                response@,
                transaction_id,
            ) is TransactionMismatch,
            Err(ConnectError::Refused(m)) => connect_answer(response@, transaction_id)
                == ConnectAnswer::Refused(m@),
            Err(ConnectError::Unexpected) => connect_answer(
                response@,
                transaction_id,
            ) is Unexpected,
        },
{
    if response.len() < 8 {
        return Err(ConnectError::Short);
    }
    let action = read_be(response, 0, 4);
    let transaction = read_be(response, 4, 8);
    if transaction != transaction_id as u64 {
        return Err(ConnectError::TransactionMismatch);
    }
    if action == ACTION_ERROR as u64 {
        let mut message: Vec<u8> = Vec::new();
        let mut i: usize = 8;
        while i < response.len()
            invariant
                8 <= i <= response.len(),
                message@ == response@.subrange(8, i as int),
            decreases response.len() - i,
        {
            message.push(response[i]);
            i = i + 1;
            assert(message@ =~= response@.subrange(8, i as int));
        }
        assert(message@ =~= response@.skip(8));
        return Err(ConnectError::Refused(message));
    }
    if action != ACTION_CONNECT as u64 || response.len() < 16 {
        return Err(ConnectError::Unexpected);
    }
    Ok(read_be(response, 8, 16))
}

/// The message that asks a tracker about a torrent.
pub open spec fn announce_request_spec(
    connection_id: u64,
    transaction_id: u32,
    info_hash: Seq<u8>,
    suffix: Seq<u8>,
    key: u32,
) -> Seq<u8> {
    be(connection_id as nat, 8) + be(ACTION_ANNOUNCE as nat, 4) + be(transaction_id as nat, 4)
        + info_hash + peer_id(suffix) + be(0, 8) + be(1, 8) + be(0, 8) + be(0, 4) + be(0, 4) + be(
        key as nat,
        4,
    ) + be(ANNOUNCE_NUM_WANT as nat, 4) + be(6881, 2)
}

pub fn announce_request(
    connection_id: u64,
    transaction_id: u32,
    info_hash: &Vec<u8>,
    suffix: &Vec<u8>,
    key: u32,
) -> (r: Vec<u8>)
    ensures
        r@ == announce_request_spec(connection_id, transaction_id, info_hash@, suffix@, key),
{
    let mut r: Vec<u8> = Vec::new();
    push_be(&mut r, connection_id, 8);
    push_be(&mut r, ACTION_ANNOUNCE as u64, 4);
    push_be(&mut r, transaction_id as u64, 4);
    push_bytes(&mut r, info_hash);
    push_ascii(&mut r, "-RM0001-");
    push_bytes(&mut r, suffix);
    push_be(&mut r, 0, 8);
    push_be(&mut r, 1, 8);
    push_be(&mut r, 0, 8);
    push_be(&mut r, 0, 4);
    push_be(&mut r, 0, 4);
    push_be(&mut r, key as u64, 4);
    push_be(&mut r, ANNOUNCE_NUM_WANT as u64, 4);
    push_be(&mut r, 6881, 2);
    assert(r@ =~= announce_request_spec(
        connection_id,
        transaction_id,
        info_hash@,
        suffix@,
        key,
    ));
    r
}

/// An announce request has the length that trackers expect, and the hash and
/// the transaction number stand where they read them.
pub proof fn law_announce_layout(
    connection_id: u64,
    transaction_id: u32,
    info_hash: Seq<u8>,
    suffix: Seq<u8>,
    key: u32,
)
    requires
        info_hash.len() == 20,
        suffix.len() == 12,
    ensures
        ({
            let m = announce_request_spec(connection_id, transaction_id, info_hash, suffix, key);
            &&& m.len() == 98
            &&& be_value(m.subrange(0, 8)) == connection_id
            &&& be_value(m.subrange(8, 12)) == ACTION_ANNOUNCE
            &&& be_value(m.subrange(12, 16)) == transaction_id
            &&& m.subrange(16, 36) == info_hash
        }),
{
    reveal_with_fuel(power256, 9);
    lemma_protocol_name();
    law_numbers_read_back(connection_id as nat, 8);
    law_numbers_read_back(ACTION_ANNOUNCE as nat, 4);
    law_numbers_read_back(transaction_id as nat, 4);
    lemma_be_len(0, 8);
    lemma_be_len(1, 8);
    lemma_be_len(0, 4);
    lemma_be_len(key as nat, 4);
    lemma_be_len(ANNOUNCE_NUM_WANT as nat, 4);
    lemma_be_len(6881, 2);
    let m = announce_request_spec(connection_id, transaction_id, info_hash, suffix, key);
    assert(m.subrange(0, 8) =~= be(connection_id as nat, 8));
    assert(m.subrange(8, 12) =~= be(ACTION_ANNOUNCE as nat, 4));
    assert(m.subrange(12, 16) =~= be(transaction_id as nat, 4));
    assert(m.subrange(16, 36) =~= info_hash);
}

// ---------------------------------------------------------------------------
// What trackers say
// ---------------------------------------------------------------------------

/// What trackers say of a torrent.
#[derive(Debug)]
pub struct TrackerAvailability {
    pub seeders: u32,
    pub leechers: u32,
    pub completed: u32,
    /// The number of trackers that answered.
    pub responses: u16,
    pub peers: Vec<Peer>,
}

pub ghost struct TrackerView {
    pub seeders: u32,
    pub leechers: u32,
    pub completed: u32,
    pub responses: u16,
    pub peers: Seq<Peer>,
}

impl View for TrackerAvailability {
    type V = TrackerView;

    open spec fn view(&self) -> TrackerView {
        TrackerView {
            seeders: self.seeders,
            leechers: self.leechers,
            completed: self.completed,
            responses: self.responses,
            peers: self.peers@,
        }
    }
}

impl Default for TrackerAvailability {
    fn default() -> (r: Self)
        ensures
            r@ == no_answer(),
    {
        TrackerAvailability {
            seeders: 0,
            leechers: 0,
            completed: 0,
            responses: 0,
            peers: Vec::new(),
        }
    }
}

/// What is known before any tracker has answered.
pub open spec fn no_answer() -> TrackerView {
    TrackerView { seeders: 0, leechers: 0, completed: 0, responses: 0, peers: Seq::empty() }
}

/// `base` followed by those of `more` that have not come before, as long as
/// there are fewer than `cap`.
pub open spec fn capped_extended(base: Seq<Peer>, more: Seq<Peer>, cap: nat) -> Seq<Peer>
    decreases more.len(),
{
    if more.len() == 0 {
        base
    } else {
        let before = capped_extended(base, more.drop_last(), cap);
        if before.len() >= cap || before.contains(more.last()) {
            before
        } else {
            before.push(more.last())
        }
    }
}

pub open spec fn max32(a: u32, b: u32) -> u32 {
    if a >= b {
        a
    } else {
        b
    }
}

/// What two trackers say together. They mostly know the same peers, so that the
/// greater count holds, and no peer is kept twice.
pub open spec fn merged(a: TrackerView, b: TrackerView) -> TrackerView {
    TrackerView {
        seeders: max32(a.seeders, b.seeders),
        leechers: max32(a.leechers, b.leechers),
        completed: max32(a.completed, b.completed),
        responses: if a.responses + b.responses <= u16::MAX {
            (a.responses + b.responses) as u16
        } else {
            u16::MAX
        },
        peers: capped_extended(a.peers, b.peers, MAX_PEERS_PER_SWARM as nat),
    }
}

fn greater(a: u32, b: u32) -> (r: u32)
    ensures
        r == max32(a, b),
{
    if a >= b {
        a
    } else {
        b
    }
}

impl TrackerAvailability {
    /// Adds what another tracker says.
    pub fn merge(&mut self, other: &TrackerAvailability)
        ensures
            final(self)@ == merged(old(self)@, other@),
    {
        self.seeders = greater(self.seeders, other.seeders);
        self.leechers = greater(self.leechers, other.leechers);
        self.completed = greater(self.completed, other.completed);
        self.responses = self.responses.saturating_add(other.responses);
        let ghost base = old(self).peers@;
        let ghost start = *self;
        let mut i: usize = 0;
        assert(capped_extended(base, other.peers@.take(0), MAX_PEERS_PER_SWARM as nat) == base);
        while i < other.peers.len()
            invariant
                i <= other.peers.len(),
                self.peers@ == capped_extended(
                    base,
                    other.peers@.take(i as int),
                    MAX_PEERS_PER_SWARM as nat,
                ),
                self.seeders == start.seeders,
                self.leechers == start.leechers,
                self.completed == start.completed,
                self.responses == start.responses,
            decreases other.peers.len() - i,
        {
            proof {
                assert(other.peers@.take(i + 1).drop_last() =~= other.peers@.take(i as int));
            }
            let peer = other.peers[i];
            if self.peers.len() < MAX_PEERS_PER_SWARM && !has_peer(&self.peers, peer) {
                self.peers.push(peer);
            }
            i = i + 1;
        }
        assert(other.peers@.take(other.peers@.len() as int) =~= other.peers@);
    }

    /// A copy.
    pub fn duplicate(&self) -> (r: TrackerAvailability)
        ensures
            r@ == self@,
    {
        TrackerAvailability {
            seeders: self.seeders,
            leechers: self.leechers,
            completed: self.completed,
            responses: self.responses,
            peers: copy_peers(&self.peers),
        }
    }
}

/// A copy of a list of peers.
pub fn copy_peers(peers: &Vec<Peer>) -> (r: Vec<Peer>)
    ensures
        r@ == peers@,
{
    let mut r: Vec<Peer> = Vec::new();
    let mut i: usize = 0;
    while i < peers.len()
        invariant
            i <= peers.len(),
            r@ == peers@.take(i as int),
        decreases peers.len() - i,
    {
        r.push(peers[i]);
        i = i + 1;
        assert(r@ =~= peers@.take(i as int));
    }
    assert(peers@.take(peers@.len() as int) =~= peers@);
    r
}

proof fn lemma_capped_extended(base: Seq<Peer>, more: Seq<Peer>, cap: nat)
    ensures
        capped_extended(base, more, cap).len() >= base.len(),
        capped_extended(base, more, cap).take(base.len() as int) == base,
        base.len() <= cap ==> capped_extended(base, more, cap).len() <= cap,
        base.no_duplicates() ==> capped_extended(base, more, cap).no_duplicates(),
        forall|p: Peer|
            #[trigger] capped_extended(base, more, cap).contains(p) ==> base.contains(p)
                || more.contains(p),
    decreases more.len(),
{
    if more.len() > 0 {
        lemma_capped_extended(base, more.drop_last(), cap);
        let before = capped_extended(base, more.drop_last(), cap);
        let after = capped_extended(base, more, cap);
        assert(after.take(base.len() as int) =~= before.take(base.len() as int));
        assert forall|p: Peer| #[trigger] after.contains(p) implies base.contains(p)
            || more.contains(p) by {
            let k = choose|k: int| 0 <= k < after.len() && after[k] == p;
            if k < before.len() {
                assert(before[k] == p);
                assert(before.contains(p));
                if more.drop_last().contains(p) {
                    let j = choose|j: int| 0 <= j < more.len() - 1 && more.drop_last()[j] == p;
                    assert(more[j] == p);
                }
            } else {
                assert(more[more.len() - 1] == p);
            }
        }
    } else {
        assert(base.take(base.len() as int) =~= base);
    }
}

/// Merging never lowers a count, never drops or repeats a peer, never invents
/// one and never keeps more than a hundred.
pub proof fn law_merge(a: TrackerView, b: TrackerView)
    requires
        a.peers.no_duplicates(),
        a.peers.len() <= MAX_PEERS_PER_SWARM,
    ensures
        ({
            let m = merged(a, b);
            &&& m.seeders >= a.seeders && m.seeders >= b.seeders
            &&& m.seeders == a.seeders || m.seeders == b.seeders
            &&& m.responses >= a.responses
            &&& m.peers.take(a.peers.len() as int) == a.peers
            &&& m.peers.no_duplicates()
            &&& m.peers.len() <= MAX_PEERS_PER_SWARM
            &&& forall|p: Peer|
                #[trigger] m.peers.contains(p) ==> a.peers.contains(p) || b.peers.contains(p)
        }),
{
    lemma_capped_extended(a.peers, b.peers, MAX_PEERS_PER_SWARM as nat);
}

/// Extending a list by what has been offered to it before changes nothing: each
/// is in the list, or the list is full.
proof fn lemma_capped_again(base: Seq<Peer>, more: Seq<Peer>, cap: nat, again: Seq<Peer>)
    requires
        forall|p: Peer| #[trigger] again.contains(p) ==> more.contains(p),
    ensures
        capped_extended(capped_extended(base, more, cap), again, cap) == capped_extended(
            base,
            more,
            cap,
        ),
    decreases again.len(),
{
    if again.len() > 0 {
        let last = again.last();
        assert forall|p: Peer| #[trigger] again.drop_last().contains(p) implies more.contains(p) by {
            let k = choose|k: int| 0 <= k < again.drop_last().len() && again.drop_last()[k] == p;
            assert(again[k] == p);
            assert(again.contains(p));
        }
        lemma_capped_again(base, more, cap, again.drop_last());
        assert(again[again.len() - 1] == last);
        assert(again.contains(last));
        lemma_offered_or_full(base, more, cap, last);
    }
}

proof fn lemma_offered_or_full(base: Seq<Peer>, more: Seq<Peer>, cap: nat, p: Peer)
    requires
        more.contains(p),
    ensures
        capped_extended(base, more, cap).contains(p) || capped_extended(base, more, cap).len()
            >= cap,
    decreases more.len(),
{
    let before = capped_extended(base, more.drop_last(), cap);
    let after = capped_extended(base, more, cap);
    if more.last() == p {
        if before.len() < cap && !before.contains(p) {
            assert(after[after.len() - 1] == p);
        }
    } else {
        let k = choose|k: int| 0 <= k < more.len() && more[k] == p;
        assert(more.drop_last()[k] == p);
        lemma_offered_or_full(base, more.drop_last(), cap, p);
        if before.contains(p) {
            let j = choose|j: int| 0 <= j < before.len() && before[j] == p;
            assert(after[j] == p);
        }
    }
}

/// An answer that is merged a second time changes nothing but the number of
/// answers.
pub proof fn law_merge_again(a: TrackerView, b: TrackerView)
    ensures
        merged(merged(a, b), b) == (TrackerView {
            responses: merged(merged(a, b), b).responses,
            ..merged(a, b)
        }),
        merged(merged(a, b), b).responses == if merged(a, b).responses + b.responses <= u16::MAX {
            (merged(a, b).responses + b.responses) as u16
        } else {
            u16::MAX
        },
{
    lemma_capped_again(a.peers, b.peers, MAX_PEERS_PER_SWARM as nat, b.peers);
}

// ---------------------------------------------------------------------------
// A batch of announce requests
// ---------------------------------------------------------------------------

/// The peer in the six bytes from `from` on.
pub open spec fn compact_peer(bytes: Seq<u8>, from: int) -> Peer {
    Peer {
        ip: Ip::V4(be_value(bytes.subrange(from, from + 4)) as u32),
        port: be_value(bytes.subrange(from + 4, from + 6)) as u16,
    }
}

/// The public peers in the first `n` groups of six bytes behind the head of an
/// announce response, each once and no more than a hundred.
pub open spec fn compact_peers(bytes: Seq<u8>, n: nat) -> Seq<Peer>
    decreases n,
{
    if n == 0 {
        Seq::empty()
    } else {
        let before = compact_peers(bytes, (n - 1) as nat);
        let peer = compact_peer(bytes, 20 + 6 * (n - 1));
        if before.len() >= MAX_PEERS_PER_SWARM || !public_peer(peer) || before.contains(peer) {
            before
        } else {
            before.push(peer)
        }
    }
}

/// What an announce response says: its leechers, its seeders, its peers.
pub open spec fn announce_answer(response: Seq<u8>) -> TrackerView {
    TrackerView {
        seeders: be_value(response.subrange(16, 20)) as u32,
        leechers: be_value(response.subrange(12, 16)) as u32,
        completed: 0,
        responses: 1,
        peers: compact_peers(response, ((response.len() - 20) / 6) as nat),
    }
}

proof fn lemma_be_value_bound(bytes: Seq<u8>)
    ensures
        be_value(bytes) < power256(bytes.len()),
    decreases bytes.len(),
{
    if bytes.len() > 0 {
        lemma_be_value_bound(bytes.drop_last());
    }
}

fn read_compact_peers(response: &Vec<u8>) -> (peers: Vec<Peer>)
    requires
        response@.len() >= 20,
    ensures
        peers@ == compact_peers(response@, ((response@.len() - 20) / 6) as nat),
{
    let groups: usize = (response.len() - 20) / 6;
    let mut peers: Vec<Peer> = Vec::new();
    let mut i: usize = 0;
    while i < groups
        invariant
            response.len() >= 20,
            groups == (response.len() - 20) / 6,
            i <= groups,
            peers@ == compact_peers(response@, i as nat),
        decreases groups - i,
    {
        let from: usize = 20 + 6 * i;
        let ip = read_be(response, from, from + 4);
        let port = read_be(response, from + 4, from + 6);
        proof {
            reveal_with_fuel(power256, 5);
            lemma_be_value_bound(response@.subrange(from as int, from + 4));
            lemma_be_value_bound(response@.subrange(from + 4, from + 6));
        }
        let peer = Peer { ip: Ip::V4(ip as u32), port: port as u16 };
        assert(peer == compact_peer(response@, 20 + 6 * i));
        if peers.len() < MAX_PEERS_PER_SWARM && is_public_peer(&peer) && !has_peer(&peers, peer) {
            peers.push(peer);
        }
        i = i + 1;
    }
    peers
}

/// The requests to one tracker that have not been answered, and the answers.
pub struct AnnounceBatch {
    pub pending: std::collections::HashMap<u32, String>,
    pub output: Keyed<TrackerAvailability>,
}

/// The transaction number of a message.
pub open spec fn transaction_of(response: Seq<u8>) -> u32 {
    be_value(response.subrange(4, 8)) as u32
}

/// Whether a message is a usable answer to an announce request.
pub open spec fn is_announce_answer(response: Seq<u8>) -> bool {
    response.len() >= 20 && be_value(response.subrange(0, 4)) == ACTION_ANNOUNCE
}

impl AnnounceBatch {
    pub open spec fn wf(&self) -> bool {
        self.output.wf()
    }

    /// What the tracker said of a torrent.
    pub open spec fn answer(&self, hash: Seq<char>) -> Option<TrackerView> {
        if self.output.view().contains_key(hash) {
            Some(self.output.view()[hash]@)
        } else {
            None
        }
    }

    pub fn new() -> (r: AnnounceBatch)
        ensures
            r.wf(),
            r.pending@ == Map::<u32, String>::empty(),
            forall|h: Seq<char>| r.answer(h) is None,
    {
        AnnounceBatch { pending: std::collections::HashMap::new(), output: Keyed::new() }
    }

    /// Notes that a request for `hash` was sent under a transaction number.
    pub fn sent(&mut self, transaction_id: u32, hash: String)
        requires
            old(self).wf(),
        ensures
            final(self).wf(),
            final(self).pending@ == old(self).pending@.insert(transaction_id, hash),
            final(self).output == old(self).output,
    {
        broadcast use vstd::std_specs::hash::group_hash_axioms;

        self.pending.insert(transaction_id, hash);
    }

    pub fn is_done(&self) -> (r: bool)
        ensures
            r == (self.pending@.len() == 0),
    {
        broadcast use vstd::std_specs::hash::group_hash_axioms;

        self.pending.is_empty()
    }

    /// Takes a message from the tracker. One that is too short or answers no
    /// open request changes nothing; any other closes its request, and a usable
    /// one is kept as the answer.
    pub fn receive(&mut self, response: &Vec<u8>)
        requires
            old(self).wf(),
        ensures
            final(self).wf(),
            ({
                let id = transaction_of(response@);
                let known = response@.len() >= 8 && old(self).pending@.contains_key(id);
                &&& !known ==> final(self).pending@ == old(self).pending@ && final(self).output
                    == old(self).output
                &&& known ==> final(self).pending@ == old(self).pending@.remove(id)
                &&& known ==> forall|h: Seq<char>|
                    #[trigger] final(self).answer(h) == if is_announce_answer(response@) && h
                        == old(self).pending@[id]@ {
                        Some(announce_answer(response@))
                    } else {
                        old(self).answer(h)
                    }
            }),
    {
        broadcast use vstd::std_specs::hash::group_hash_axioms;

        if response.len() < 8 {
            return;
        }
        let action = read_be(response, 0, 4);
        let id64 = read_be(response, 4, 8);
        proof {
            reveal_with_fuel(power256, 5);
            lemma_be_value_bound(response@.subrange(4, 8));
        }
        let id: u32 = id64 as u32;
        let hash = match self.pending.remove(&id) {
            Some(hash) => hash,
            None => {
                assert(self.pending@ =~= old(self).pending@);
                return;
            },
        };
        if action != ACTION_ANNOUNCE as u64 || response.len() < 20 {
            return;
        }
        let peers = read_compact_peers(response);
        let seeders = read_be(response, 16, 20);
        let leechers = read_be(response, 12, 16);
        proof {
            lemma_be_value_bound(response@.subrange(16, 20));
            lemma_be_value_bound(response@.subrange(12, 16));
        }
        let availability = TrackerAvailability {
            seeders: seeders as u32,
            leechers: leechers as u32,
            completed: 0,
            responses: 1,
            peers,
        };
        assert(availability@ == announce_answer(response@));
        self.output.insert(hash, availability);
    }
}

/// A hash of a batch is not an info hash.
#[derive(Debug, Clone, Copy, PartialEq, Eq, Structural)]
pub struct InvalidInfoHash;

/// One request of a batch.
pub struct AnnounceRequest {
    pub transaction_id: u32,
    pub hash: String,
    pub bytes: Vec<u8>,
}

impl AnnounceRequest {
    /// The request asks about its hash, under its number and some name.
    pub open spec fn asks(&self, connection_id: u64, suffix: Seq<u8>) -> bool {
        exists|key: u32|
            self.bytes@ == #[trigger] announce_request_spec(
                connection_id,
                self.transaction_id,
                decoded_hash(self.hash@)->0,
                suffix,
                key,
            )
    }
}

/// The hashes that one tracker is asked about.
pub open spec fn asked_hashes(hashes: Seq<Seq<char>>) -> Seq<Seq<char>> {
    if hashes.len() <= MAX_HASHES_PER_TRACKER {
        hashes
    } else {
        hashes.take(MAX_HASHES_PER_TRACKER as int)
    }
}

/// The requests about the first fifty hashes, with random numbers and one
/// random name.
pub fn announce_requests(connection_id: u64, hashes: &Vec<String>) -> (r: Result<
    Vec<AnnounceRequest>,
    InvalidInfoHash,
>)
    ensures
        ({
            let asked = asked_hashes(texts(hashes@));
            match r {
                Ok(requests) => {
                    &&& requests@.len() == asked.len()
                    &&& exists|suffix: Seq<u8>|
                        suffix.len() == 12 && forall|i: int|
                            0 <= i < asked.len() ==> (#[trigger] requests@[i]).hash@ == asked[i]
                                && decoded_hash(asked[i]) is Some && requests@[i].asks(
                                connection_id,
                                suffix,
                            )
                },
                Err(_) => exists|i: int|
                    0 <= i < asked.len() && decoded_hash(#[trigger] asked[i]) is None,
            }
        }),
{
    let suffix = random_suffix();
    let count: usize = if hashes.len() <= MAX_HASHES_PER_TRACKER {
        hashes.len()
    } else {
        MAX_HASHES_PER_TRACKER
    };
    let ghost asked = asked_hashes(texts(hashes@));
    let mut requests: Vec<AnnounceRequest> = Vec::new();
    let mut i: usize = 0;
    while i < count
        invariant
            i <= count <= hashes.len(),
            asked == asked_hashes(texts(hashes@)),
            count == asked.len(),
            requests@.len() == i,
            forall|k: int|
                0 <= k < i ==> (#[trigger] requests@[k]).hash@ == asked[k] && decoded_hash(
                    asked[k],
                ) is Some && requests@[k].asks(connection_id, suffix@),
        decreases count - i,
    {
        assert(asked[i as int] == hashes@[i as int]@);
        let info_hash = match decode_info_hash(hashes[i].as_str()) {
            Some(h) => h,
            None => {
                return Err(InvalidInfoHash);
            },
        };
        let transaction_id = random_number();
        let key = random_number();
        let bytes = announce_request(connection_id, transaction_id, &info_hash, &suffix, key);
        let request = AnnounceRequest { transaction_id, hash: hashes[i].clone(), bytes };
        assert(request.bytes@ == announce_request_spec(
            connection_id,
            request.transaction_id,
            decoded_hash(request.hash@)->0,
            suffix@,
            key,
        ));
        assert(request.asks(connection_id, suffix@));
        requests.push(request);
        i = i + 1;
    }
    Ok(requests)
}

// ---------------------------------------------------------------------------
// What peers say
// ---------------------------------------------------------------------------

/// What the peers of a torrent say now.
#[derive(Debug)]
pub struct PeerAvailability {
    /// The peers that answered a handshake.
    pub responsive: usize,
    /// Those of them that have every piece.
    pub seeders: usize,
    /// The peers that answered, those with every piece first.
    pub peers: Vec<Peer>,
}

pub ghost struct PeersView {
    pub responsive: nat,
    pub seeders: nat,
    pub peers: Seq<Peer>,
}

impl View for PeerAvailability {
    type V = PeersView;

    open spec fn view(&self) -> PeersView {
        PeersView {
            responsive: self.responsive as nat,
            seeders: self.seeders as nat,
            peers: self.peers@,
        }
    }
}

impl Default for PeerAvailability {
    fn default() -> (r: Self)
        ensures
            r@ == (PeersView { responsive: 0, seeders: 0, peers: Seq::empty() }),
    {
        PeerAvailability { responsive: 0, seeders: 0, peers: Vec::new() }
    }
}

impl PeerAvailability {
    /// A copy.
    pub fn duplicate(&self) -> (r: PeerAvailability)
        ensures
            r@ == self@,
    {
        PeerAvailability {
            responsive: self.responsive,
            seeders: self.seeders,
            peers: copy_peers(&self.peers),
        }
    }
}

/// The key of a peer that answered: seeders before others, then version 4
/// before version 6, then the lower address and the lower port.
pub open spec fn peer_key(peer: Peer, seeder: bool) -> Seq<u64> {
    let (four, high, low) = match peer.ip {
        Ip::V4(ip) => (1u64, 0u64, ip as u64),
        Ip::V6(ip) => (
            0u64,
            (ip / 0x1_0000_0000_0000_0000) as u64,
            (ip % 0x1_0000_0000_0000_0000) as u64,
        ),
    };
    seq![
        if seeder {
            1u64
        } else {
            0u64
        },
        four,
        (u64::MAX - high) as u64,
        (u64::MAX - low) as u64,
        (u64::MAX - peer.port) as u64,
    ]
}

fn peer_key_of(peer: &Peer, seeder: bool) -> (r: Vec<u64>)
    ensures
        r@ == peer_key(*peer, seeder),
{
    let mut r: Vec<u64> = Vec::new();
    r.push(
        if seeder {
            1
        } else {
            0
        },
    );
    match peer.ip {
        Ip::V4(ip) => {
            r.push(1);
            r.push(u64::MAX);
            r.push(u64::MAX - ip as u64);
        },
        Ip::V6(ip) => {
            r.push(0);
            r.push(u64::MAX - (ip / 0x1_0000_0000_0000_0000) as u64);
            r.push(u64::MAX - (ip % 0x1_0000_0000_0000_0000) as u64);
        },
    }
    r.push(u64::MAX - peer.port as u64);
    assert(r@ =~= peer_key(*peer, seeder));
    r
}

/// The peers that answered, each with whether it is a seeder.
pub open spec fn answered(probes: Seq<(Peer, Option<bool>)>) -> Seq<(Peer, bool)>
    decreases probes.len(),
{
    if probes.len() == 0 {
        Seq::empty()
    } else {
        let before = answered(probes.drop_last());
        match probes.last().1 {
            Some(seeder) => before.push((probes.last().0, seeder)),
            None => before,
        }
    }
}

pub open spec fn answer_keys(answers: Seq<(Peer, bool)>) -> Seq<Seq<u64>> {
    answers.map_values(|a: (Peer, bool)| peer_key(a.0, a.1))
}

pub open spec fn seeder_count(answers: Seq<(Peer, bool)>) -> nat
    decreases answers.len(),
{
    if answers.len() == 0 {
        0
    } else {
        seeder_count(answers.drop_last()) + if answers.last().1 {
            1nat
        } else {
            0
        }
    }
}

/// What some probes of peers come to.
pub open spec fn peers_summary(probes: Seq<(Peer, Option<bool>)>) -> PeersView {
    let answers = answered(probes);
    PeersView {
        responsive: answers.len(),
        seeders: seeder_count(answers),
        peers: ranked(answer_keys(answers)).map_values(|i: int| answers[i].0),
    }
}

/// Sums up the probes of some peers: a probe gives whether the peer is a
/// seeder, or nothing where it did not answer.
pub fn summarize_peers(probes: &Vec<(Peer, Option<bool>)>) -> (r: PeerAvailability)
    ensures
        r@ == peers_summary(probes@),
{
    let mut answers: Vec<(Peer, bool)> = Vec::new();
    let mut keys: Vec<Vec<u64>> = Vec::new();
    let mut seeders: usize = 0;
    let mut i: usize = 0;
    while i < probes.len()
        invariant
            i <= probes.len(),
            answers@ == answered(probes@.take(i as int)),
            key_seqs(keys@) =~= answer_keys(answers@),
            seeders == seeder_count(answers@),
            seeders <= answers@.len() <= i,
        decreases probes.len() - i,
    {
        proof {
            assert(probes@.take(i + 1).drop_last() =~= probes@.take(i as int));
        }
        let (peer, result) = probes[i];
        if let Some(seeder) = result {
            let ghost before = answers@;
            let ghost keys_before = key_seqs(keys@);
            answers.push((peer, seeder));
            keys.push(peer_key_of(&peer, seeder));
            assert(answers@.drop_last() =~= before);
            assert(key_seqs(keys@) =~= keys_before.push(peer_key(peer, seeder)));
            assert(answer_keys(answers@) =~= answer_keys(before).push(peer_key(peer, seeder)));
            if seeder {
                seeders = seeders + 1;
            }
        }
        i = i + 1;
    }
    assert(probes@.take(probes@.len() as int) =~= probes@);
    let order = rank(&keys);
    assert(keys@.len() == key_seqs(keys@).len());
    let mut peers: Vec<Peer> = Vec::new();
    let mut k: usize = 0;
    while k < order.len()
        invariant
            k <= order.len(),
            order.len() == answers.len(),
            forall|j: int| 0 <= j < order.len() ==> (#[trigger] order@[j]) < answers.len(),
            peers@.len() == k,
            forall|j: int| 0 <= j < k ==> peers@[j] == answers@[order@[j] as int].0,
        decreases order.len() - k,
    {
        peers.push(answers[order[k]].0);
        k = k + 1;
    }
    let responsive = answers.len();
    proof {
        let want = peers_summary(probes@).peers;
        assert(positions(order@).len() == order@.len());
        assert forall|j: int| 0 <= j < peers@.len() implies peers@[j] == want[j] by {
            assert(positions(order@)[j] == order@[j]);
        }
        assert(peers@ =~= want);
    }
    PeerAvailability { responsive, seeders, peers }
}

/// In a summary no peer without all pieces comes before one with all.
pub proof fn law_seeders_come_first(probes: Seq<(Peer, Option<bool>)>)
    ensures
        ({
            let answers = answered(probes);
            let order = ranked(answer_keys(answers));
            &&& order.len() == answers.len()
            &&& forall|i: int, j: int|
                0 <= i < j < order.len() ==> (answers[#[trigger] order[j]].1 ==> answers[
                #[trigger] order[i]].1)
        }),
{
    let answers = answered(probes);
    let keys = answer_keys(answers);
    crate::order::law_ranking(keys);
    let order = ranked(keys);
    assert forall|i: int, j: int|
        0 <= i < j < order.len() && answers[#[trigger] order[j]].1 implies answers[#[trigger] order[i]].1 by {
        let a = order[i];
        let b = order[j];
        assert(crate::order::key_ge(keys[a], keys[b]));
        assert(keys[a][0] >= keys[b][0]);
    }
}

// ---------------------------------------------------------------------------
// Asking about many torrents
// ---------------------------------------------------------------------------

/// What the store remembers of a torrent.
pub open spec fn remembered(store: Store, hash: Seq<char>, now: u64) -> Option<TrackerView> {
    match store.at(scrape_key(hash), now) {
        Some(StoredView::Tracker(t)) => Some(t),
        _ => None,
    }
}

/// The hashes of a query in lower case, each once and only where it is an info
/// hash.
pub open spec fn query_hashes(hashes: Seq<Seq<char>>) -> Seq<Seq<char>> {
    crate::order::distinct(hashes.map_values(|h: Seq<char>| lower(h))).filter(
        |h: Seq<char>| decoded_hash(h) is Some,
    )
}

/// What a query knows before it asks a tracker, and what it has to ask about.
pub struct ScrapePlan {
    /// What is remembered.
    pub results: Keyed<TrackerAvailability>,
    /// The hashes to ask about.
    pub unique: Vec<String>,
}

/// The values of a map of availabilities.
pub open spec fn tracker_views(m: Keyed<TrackerAvailability>) -> Map<Seq<char>, TrackerView> {
    Map::new(|k: Seq<char>| m.view().contains_key(k), |k: Seq<char>| m.view()[k]@)
}

/// Splits the hashes of a query into those that are remembered and the others.
pub fn plan_scrape(store: &Store, info_hashes: &Vec<String>, now: u64) -> (plan: ScrapePlan)
    requires
        store.wf(),
    ensures
        plan.results.wf(),
        texts(plan.unique@) == query_hashes(texts(info_hashes@)).filter(
            |h: Seq<char>| remembered(*store, h, now) is None,
        ),
        forall|h: Seq<char>|
            #[trigger] tracker_views(plan.results).contains_key(h) <==> query_hashes(
                texts(info_hashes@),
            ).contains(h) && remembered(*store, h, now) is Some,
        forall|h: Seq<char>|
            tracker_views(plan.results).contains_key(h) ==> Some(
                #[trigger] tracker_views(plan.results)[h],
            ) == remembered(*store, h, now),
{
    let mut seen: Vec<String> = Vec::new();
    let mut results: Keyed<TrackerAvailability> = Keyed::new();
    let mut unique: Vec<String> = Vec::new();
    let ghost low = texts(info_hashes@).map_values(|h: Seq<char>| lower(h));
    let ghost valid = |h: Seq<char>| decoded_hash(h) is Some;
    let ghost fresh = |h: Seq<char>| remembered(*store, h, now) is None;
    let mut i: usize = 0;
    proof {
        assert(low.take(0) =~= Seq::<Seq<char>>::empty());
        assert(texts(seen@) =~= Seq::<Seq<char>>::empty());
        reveal(Seq::filter);
        assert(texts(unique@) =~= Seq::<Seq<char>>::empty());
    }
    while i < info_hashes.len()
        invariant
            i <= info_hashes.len(),
            store.wf(),
            results.wf(),
            low == texts(info_hashes@).map_values(|h: Seq<char>| lower(h)),
            valid == (|h: Seq<char>| decoded_hash(h) is Some),
            fresh == (|h: Seq<char>| remembered(*store, h, now) is None),
            texts(seen@) == crate::order::distinct(low.take(i as int)),
            texts(unique@) == texts(seen@).filter(valid).filter(fresh),
            forall|h: Seq<char>|
                #[trigger] tracker_views(results).contains_key(h) <==> texts(seen@).filter(
                    valid,
                ).contains(h) && remembered(*store, h, now) is Some,
            forall|h: Seq<char>|
                tracker_views(results).contains_key(h) ==> Some(#[trigger] tracker_views(results)[h])
                    == remembered(*store, h, now),
        decreases info_hashes.len() - i,
    {
        let hash = to_lower(info_hashes[i].as_str());
        let ghost seen_before = texts(seen@);
        let ghost good_before = seen_before.filter(valid);
        let ghost results_before = results;
        proof {
            assert(low.take(i + 1).drop_last() =~= low.take(i as int));
            assert(low.take(i + 1).last() == hash@);
        }
        let added = crate::order::push_distinct(&mut seen, hash.as_str());
        proof {
            reveal_with_fuel(crate::order::extended, 2);
            assert(seq![hash@].drop_last() =~= Seq::<Seq<char>>::empty());
            if added {
                assert(texts(seen@) == seen_before.push(hash@));
                assert(seen_before.push(hash@).drop_last() =~= seen_before);
                reveal(Seq::filter);
            }
        }
        if added && decode_info_hash(hash.as_str()).is_some() {
            proof {
                assert(texts(seen@).filter(valid) == good_before.push(hash@));
                assert(good_before.push(hash@).drop_last() =~= good_before);
                assert forall|h: Seq<char>| good_before.push(hash@).contains(h) <==> (
                good_before.contains(h) || h == hash@) by {
                    let g = good_before.push(hash@);
                    if good_before.contains(h) {
                        let k = choose|k: int| 0 <= k < good_before.len() && good_before[k] == h;
                        assert(g[k] == h);
                    }
                    if h == hash@ {
                        assert(g[good_before.len() as int] == h);
                    }
                }
            }
            let cached = match store.get(cache_key(hash.as_str()).as_str(), now) {
                Some(Stored::Tracker(t)) => Some(t.duplicate()),
                _ => None,
            };
            match cached {
                Some(t) => {
                    let ghost k0 = hash@;
                    results.insert(hash, t);
                    proof {
                        assert(tracker_views(results) =~= tracker_views(results_before).insert(
                            k0,
                            t@,
                        ));
                        assert forall|h: Seq<char>|
                            tracker_views(results).contains_key(h) implies Some(
                            #[trigger] tracker_views(results)[h],
                        ) == remembered(*store, h, now) by {
                            if h != k0 {
                                assert(tracker_views(results_before).contains_key(h));
                            }
                        }
                    }
                },
                None => {
                    let ghost before = texts(unique@);
                    crate::text::push_arg(&mut unique, hash.as_str());
                },
            }
        }
        i = i + 1;
    }
    assert(low.take(low.len() as int) =~= low);
    ScrapePlan { results, unique }
}

/// The trackers of a query: the first three that speak UDP.
pub open spec fn udp_trackers_spec(trackers: Seq<Seq<char>>) -> Seq<Seq<char>> {
    let udp = trackers.filter(
        |t: Seq<char>| url_parts(t) matches Some(u) && u.scheme == "udp"@,
    );
    if udp.len() <= MAX_TRACKERS {
        udp
    } else {
        udp.take(MAX_TRACKERS as int)
    }
}

pub fn udp_trackers(trackers: &Vec<String>) -> (r: Vec<String>)
    ensures
        texts(r@) == udp_trackers_spec(texts(trackers@)),
{
    let mut r: Vec<String> = Vec::new();
    let ghost all = texts(trackers@);
    let ghost kept = |t: Seq<char>| url_parts(t) matches Some(u) && u.scheme == "udp"@;
    let mut i: usize = 0;
    while i < trackers.len()
        invariant
            i <= trackers.len(),
            all == texts(trackers@),
            kept == (|t: Seq<char>| url_parts(t) matches Some(u) && u.scheme == "udp"@),
            ({
                let udp = all.take(i as int).filter(kept);
                texts(r@) == if udp.len() <= MAX_TRACKERS {
                    udp
                } else {
                    udp.take(MAX_TRACKERS as int)
                }
            }),
        decreases trackers.len() - i,
    {
        let ghost before = texts(r@);
        let ghost udp = all.take(i as int).filter(kept);
        proof {
            assert(all.take(i + 1).drop_last() =~= all.take(i as int));
            assert(all.take(i + 1).last() == trackers@[i as int]@);
            reveal(Seq::filter);
        }
        let is_udp = match parse_url(trackers[i].as_str()) {
            Some(u) => same_text(u.scheme.as_str(), "udp"),
            None => false,
        };
        assert(texts(r@).len() == r@.len());
        if is_udp && r.len() < MAX_TRACKERS {
            crate::text::push_arg(&mut r, trackers[i].as_str());
        }
        proof {
            let after = all.take(i + 1).filter(kept);
            if is_udp {
                assert(after == udp.push(trackers@[i as int]@));
                if udp.len() >= MAX_TRACKERS {
                    assert(after.take(MAX_TRACKERS as int) =~= udp.take(MAX_TRACKERS as int));
                    assert(udp.take(MAX_TRACKERS as int).len() == MAX_TRACKERS);
                }
            }
        }
        i = i + 1;
    }
    assert(all.take(all.len() as int) =~= all);
    r
}

/// How long what is known of a torrent is remembered.
pub open spec fn answer_ttl(responses: u16) -> u64 {
    if responses > 0 {
        CACHE_TTL_MS
    } else {
        FAILURE_CACHE_TTL_MS
    }
}

/// What all trackers together say of a torrent: the answers of one after the
/// other, merged.
pub open spec fn merged_answers(
    responses: Seq<Keyed<TrackerAvailability>>,
    hash: Seq<char>,
) -> TrackerView
    decreases responses.len(),
{
    if responses.len() == 0 {
        no_answer()
    } else {
        let before = merged_answers(responses.drop_last(), hash);
        let last = tracker_views(responses.last());
        if last.contains_key(hash) {
            merged(before, last[hash])
        } else {
            before
        }
    }
}

/// Merges the answers of the trackers for one hash that was asked about.
pub fn merge_answers(responses: &Vec<Keyed<TrackerAvailability>>, hash: &str) -> (r:
    TrackerAvailability)
    requires
        forall|i: int| 0 <= i < responses@.len() ==> (#[trigger] responses@[i]).wf(),
    ensures
        r@ == merged_answers(responses@, hash@),
{
    let mut r = TrackerAvailability::default();
    let mut i: usize = 0;
    while i < responses.len()
        invariant
            i <= responses.len(),
            forall|k: int| 0 <= k < responses@.len() ==> (#[trigger] responses@[k]).wf(),
            r@ == merged_answers(responses@.take(i as int), hash@),
        decreases responses.len() - i,
    {
        proof {
            assert(responses@.take(i + 1).drop_last() =~= responses@.take(i as int));
            assert(responses@[i as int].wf());
        }
        if let Some(t) = responses[i].get(hash) {
            r.merge(t);
        }
        i = i + 1;
    }
    assert(responses@.take(responses@.len() as int) =~= responses@);
    r
}

/// Whether something on one of the hashes is remembered under the text.
pub open spec fn key_of_some(key: Seq<char>, hashes: Seq<Seq<char>>) -> bool {
    exists|h: Seq<char>| #[trigger] hashes.contains(h) && key == scrape_key(h)
}

/// Ends a query: what the trackers say of each hash is remembered and added to
/// the results.
pub fn finish_scrape(
    store: &mut Store,
    plan: ScrapePlan,
    responses: &Vec<Keyed<TrackerAvailability>>,
    now: u64,
) -> (results: Keyed<TrackerAvailability>)
    requires
        old(store).wf(),
        plan.results.wf(),
        forall|i: int| 0 <= i < responses@.len() ==> (#[trigger] responses@[i]).wf(),
    ensures
        final(store).wf(),
        results.wf(),
        tracker_views(results) == tracker_views(plan.results).union_prefer_right(
            Map::new(
                |h: Seq<char>| texts(plan.unique@).contains(h),
                |h: Seq<char>| merged_answers(responses@, h),
            ),
        ),
        forall|k: Seq<char>|
            !key_of_some(k, texts(plan.unique@))
                ==> #[trigger] final(store).view().contains_key(k) == old(store).view().contains_key(
                k,
            ) && (old(store).view().contains_key(k) ==> final(store).view()[k]
                == old(store).view()[k]),
        forall|h: Seq<char>| #[trigger]
            texts(plan.unique@).contains(h) ==> final(store).view().contains_key(scrape_key(h))
                && final(store).view()[scrape_key(h)] == (
                StoredView::Tracker(merged_answers(responses@, h)),
                crate::store::expiry(now, answer_ttl(merged_answers(responses@, h).responses)),
            ),
{
    let ghost start = *store;
    let mut results = plan.results;
    let unique = plan.unique;
    let ghost hashes = texts(unique@);
    let ghost fresh = |upto: int|
        Map::new(
            |h: Seq<char>| hashes.take(upto).contains(h),
            |h: Seq<char>| merged_answers(responses@, h),
        );
    let mut i: usize = 0;
    assert(tracker_views(results) =~= tracker_views(plan.results).union_prefer_right(fresh(0)));
    while i < unique.len()
        invariant
            i <= unique.len(),
            store.wf(),
            results.wf(),
            hashes == texts(unique@),
            forall|k: int| 0 <= k < responses@.len() ==> (#[trigger] responses@[k]).wf(),
            fresh == (|upto: int|
                Map::new(
                    |h: Seq<char>| hashes.take(upto).contains(h),
                    |h: Seq<char>| merged_answers(responses@, h),
                )),
            tracker_views(results) == tracker_views(plan.results).union_prefer_right(
                fresh(i as int),
            ),
            forall|k: Seq<char>|
                !key_of_some(k, hashes.take(i as int))
                    ==> #[trigger] store.view().contains_key(k) == start.view().contains_key(k) && (
                start.view().contains_key(k) ==> store.view()[k] == start.view()[k]),
            forall|h: Seq<char>| #[trigger]
                hashes.take(i as int).contains(h) ==> store.view().contains_key(scrape_key(h))
                    && store.view()[scrape_key(h)] == (
                    StoredView::Tracker(merged_answers(responses@, h)),
                    crate::store::expiry(
                        now,
                        answer_ttl(merged_answers(responses@, h).responses),
                    ),
                ),
        decreases unique.len() - i,
    {
        let hash = unique[i].as_str();
        let availability = merge_answers(responses, hash);
        let ttl: u64 = if availability.responses > 0 {
            CACHE_TTL_MS
        } else {
            FAILURE_CACHE_TTL_MS
        };
        let ghost results_before = results;
        let ghost store_before = *store;
        store.save(cache_key(hash), Stored::Tracker(availability.duplicate()), ttl, now);
        results.insert(hash.to_owned(), availability);
        proof {
            let key = scrape_key(hash@);
            assert(hashes.take(i + 1) =~= hashes.take(i as int).push(hash@));
            assert forall|h: Seq<char>| #[trigger] hashes.take(i + 1).contains(h) <==> (hashes.take(
                i as int,
            ).contains(h) || h == hash@) by {
                let a = hashes.take(i as int);
                let b = hashes.take(i + 1);
                if a.contains(h) {
                    let k = choose|k: int| 0 <= k < a.len() && a[k] == h;
                    assert(b[k] == h);
                }
                if h == hash@ {
                    assert(b[i as int] == h);
                }
            }
            assert(tracker_views(results) =~= tracker_views(results_before).insert(
                hash@,
                merged_answers(responses@, hash@),
            ));
            assert(tracker_views(results) =~= tracker_views(plan.results).union_prefer_right(
                fresh(i + 1),
            ));
            assert forall|h: Seq<char>| scrape_key(h) == key implies h == hash@ by {
                lemma_scrape_key(h, hash@);
            }
            assert forall|k: Seq<char>| !key_of_some(k, hashes.take(i + 1)) implies (
            #[trigger] store.view().contains_key(k) == start.view().contains_key(k)) && (
            start.view().contains_key(k) ==> store.view()[k] == start.view()[k]) by {
                assert(hashes.take(i + 1).contains(hash@));
                assert(k != key);
                if key_of_some(k, hashes.take(i as int)) {
                    let h = choose|h: Seq<char>| #[trigger]
                        hashes.take(i as int).contains(h) && k == scrape_key(h);
                    assert(hashes.take(i + 1).contains(h));
                }
                assert(store_before.view().contains_key(k) == start.view().contains_key(k));
            }
        }
        i = i + 1;
    }
    assert(hashes.take(hashes.len() as int) =~= hashes);
    results
}

/// Different hashes are remembered under different texts.
proof fn lemma_scrape_key(a: Seq<char>, b: Seq<char>)
    requires
        scrape_key(a) == scrape_key(b),
    ensures
        a == b,
{
    let n = "torrent-scrape:"@.len() as int;
    assert(scrape_key(a).skip(n) =~= a);
    assert(scrape_key(b).skip(n) =~= b);
}

/// Why a tracker cannot be asked.
#[derive(Debug, Clone, Copy, PartialEq, Eq, Structural)]
pub enum TrackerAddressError {
    InvalidUrl,
    MissingHost,
    MissingPort,
}

/// The host and the port of a tracker.
pub fn tracker_address(tracker: &str) -> (r: Result<(String, u16), TrackerAddressError>)
    ensures
        match url_parts(tracker@) {
            None => r == Err::<(String, u16), TrackerAddressError>(TrackerAddressError::InvalidUrl),
            Some(u) => match (u.host, u.port) {
                (None, _) => r == Err::<(String, u16), TrackerAddressError>(
                    TrackerAddressError::MissingHost,
                ),
                (Some(_), None) => r == Err::<(String, u16), TrackerAddressError>(
                    TrackerAddressError::MissingPort,
                ),
                (Some(h), Some(p)) => r matches Ok((host, port)) && host@ == h && port == p,
            },
        },
{
    match parse_url(tracker) {
        None => Err(TrackerAddressError::InvalidUrl),
        Some(u) => match u.host {
            None => Err(TrackerAddressError::MissingHost),
            Some(host) => match u.port {
                None => Err(TrackerAddressError::MissingPort),
                Some(port) => Ok((host, port)),
            },
        },
    }
}

/// What to do to learn what the peers of a torrent say.
pub enum PeerProbePlan {
    /// It is known.
    Known(PeerAvailability),
    /// Ask these peers about this torrent.
    Ask { info_hash: Vec<u8>, peers: Vec<Peer> },
}

/// What the store remembers of the peers of a torrent.
pub open spec fn remembered_peers(store: Store, hash: Seq<char>, now: u64) -> Option<PeersView> {
    match store.at(peers_key(lower(hash)), now) {
        Some(StoredView::Peers(p)) => Some(p),
        _ => None,
    }
}

/// Decides whether to ask peers: not where their answers are remembered, not
/// where the hash is no info hash, and never more than twelve public ones.
pub fn plan_peer_probe(store: &Store, info_hash: &str, peers: &Vec<Peer>, now: u64) -> (plan:
    PeerProbePlan)
    requires
        store.wf(),
    ensures
        match remembered_peers(*store, info_hash@, now) {
            Some(p) => plan matches PeerProbePlan::Known(k) && k@ == p,
            None => match decoded_hash(lower(info_hash@)) {
                None => plan matches PeerProbePlan::Known(k) && k@ == (PeersView {
                    responsive: 0,
                    seeders: 0,
                    peers: Seq::empty(),
                }),
                Some(h) => plan matches PeerProbePlan::Ask { info_hash: i, peers: p } && i@ == h
                    && p@ == sampled(
                    peers@.filter(|p: Peer| public_peer(p)),
                    MAX_ACTIVE_PEER_PROBES as nat,
                ),
            },
        },
        plan matches PeerProbePlan::Ask { peers: p, .. } ==> p@.len() <= 12,
{
    let normalized = to_lower(info_hash);
    let key = concat2("torrent-active-peers:", normalized.as_str());
    if let Some(Stored::Peers(p)) = store.get(key.as_str(), now) {
        return PeerProbePlan::Known(p.duplicate());
    }
    match decode_info_hash(normalized.as_str()) {
        None => PeerProbePlan::Known(PeerAvailability::default()),
        Some(hash) => {
            let public = public_peers(peers);
            PeerProbePlan::Ask {
                info_hash: hash,
                peers: sample_peers(&public, MAX_ACTIVE_PEER_PROBES),
            }
        },
    }
}

/// Sums up the answers of peers and remembers them.
pub fn finish_peer_probe(
    store: &mut Store,
    info_hash: &str,
    probes: &Vec<(Peer, Option<bool>)>,
    now: u64,
) -> (r: PeerAvailability)
    requires
        old(store).wf(),
    ensures
        final(store).wf(),
        r@ == peers_summary(probes@),
        final(store).view() == old(store).view().insert(
            peers_key(lower(info_hash@)),
            (
                StoredView::Peers(peers_summary(probes@)),
                crate::store::expiry(now, PEER_PROBE_CACHE_TTL_MS),
            ),
        ),
        now < 0xffff_ffff_0000_0000 ==> final(store).view()[peers_key(lower(info_hash@))].1 == now
            + 20_000,
{
    let normalized = to_lower(info_hash);
    let key = concat2("torrent-active-peers:", normalized.as_str());
    let availability = summarize_peers(probes);
    store.save(key, Stored::Peers(availability.duplicate()), PEER_PROBE_CACHE_TTL_MS, now);
    availability
}

// ---------------------------------------------------------------------------
// Laws of the messages
// ---------------------------------------------------------------------------

/// Numbers in messages have their greatest byte first.
pub proof fn law_bytes_are_in_network_order(b: Seq<u8>)
    ensures
        b.len() == 2 ==> be_value(b) == b[0] * 256 + b[1],
        b.len() == 4 ==> be_value(b) == b[0] * 0x100_0000 + b[1] * 0x1_0000 + b[2] * 256 + b[3],
{
    reveal_with_fuel(be_value, 5);
}

/// An address is that of the public network but for those that are set apart, by their
/// first byte and their second.
pub proof fn law_private_addresses_are_left_out(a: u8, b: u8, rest: u16, port: u16)
    ensures
        ({
            let ip = (a * 0x100_0000 + b * 0x1_0000 + rest) as u32;
            let public = public_peer(Peer { ip: Ip::V4(ip), port });
            &&& public ==> port != 0 && a != 0 && a != 10 && a != 127 && a < 224
            &&& public && a == 100 ==> b < 64 || b > 127
            &&& public && a == 169 ==> b != 254
            &&& public && a == 172 ==> b < 16 || b > 31
            &&& public && a == 192 ==> b != 0 && b != 168
            &&& public && a == 198 ==> b != 18 && b != 19 && b != 51
            &&& public && a == 203 ==> b != 0
            &&& port != 0 && 0 < a < 224 && a != 10 && a != 127 && (a != 100 || b < 64 || b > 127)
                && (a != 169 || b != 254) && (a != 172 || b < 16 || b > 31) && (a != 192 || (b != 0
                && b != 168)) && (a != 198 || (b != 18 && b != 19 && b != 51)) && (a != 203 || b
                != 0) ==> public
        }),
{
    let ip = (a * 0x100_0000 + b * 0x1_0000 + rest) as u32;
    assert(ip / 0x100_0000 == a);
    assert(ip / 0x1_0000 % 0x100 == b);
}

/// A long address is that of the public network but for those that are set apart, and
/// one that stands for a short address is judged as that.
pub proof fn law_private_long_addresses_are_left_out(ip: u128, short: u32, port: u16)
    requires
        port != 0,
    ensures
        ({
            let public = public_peer(Peer { ip: Ip::V6(ip), port });
            &&& ip == 0 || ip == 1 ==> !public
            &&& ip >= 0xff00_0000_0000_0000_0000_0000_0000_0000 ==> !public
            &&& 0xfc00_0000_0000_0000_0000_0000_0000_0000 <= ip
                < 0xfe00_0000_0000_0000_0000_0000_0000_0000 ==> !public
            &&& 0xfe80_0000_0000_0000_0000_0000_0000_0000 <= ip
                < 0xfec0_0000_0000_0000_0000_0000_0000_0000 ==> !public
            &&& 0x2001_0db8_0000_0000_0000_0000_0000_0000 <= ip
                < 0x2001_0db9_0000_0000_0000_0000_0000_0000 ==> !public
            &&& 0x2001_0db9_0000_0000_0000_0000_0000_0000 <= ip
                < 0xfc00_0000_0000_0000_0000_0000_0000_0000 ==> public
            &&& 0x1_0000_0000_0000_0000_0000_0000_0000 <= ip
                < 0x2001_0db8_0000_0000_0000_0000_0000_0000 ==> public
        }),
        public_peer(Peer { ip: Ip::V6((0xffff_0000_0000 + short) as u128), port }) == public_peer(
            Peer { ip: Ip::V4(short), port },
        ),
{
    let mapped = (0xffff_0000_0000 + short) as u128;
    assert(mapped / 0x1_0000_0000 == 0xffff);
    assert(mapped % 0x1_0000_0000 == short);
    let first = ip / 0x1_0000_0000_0000_0000_0000_0000_0000;
    let second = ip / 0x1_0000_0000_0000_0000_0000_0000 % 0x1_0000;
    assert(ip / 0x1_0000_0000_0000_0000_0000_0000 == first * 0x1_0000 + second);
}

/// The samples lie as evenly as whole places can: each at its share of the way from the
/// first peer to the last.
pub proof fn law_samples_are_spread(peers: Seq<Peer>, limit: nat, i: int)
    requires
        2 <= limit < peers.len(),
        (limit - 1) * (peers.len() - 1) <= usize::MAX,
        0 <= i < limit,
    ensures
        exists|place: int|
            0 <= place < peers.len() && sampled(peers, limit)[i] == #[trigger] peers[place] && place
                * (limit - 1) <= i * (peers.len() - 1) < (place + 1) * (limit - 1),
{
    let n = peers.len() as int;
    let place = sample_place(i, n, limit as int);
    lemma_sample_place(i, n, limit as int);
    let product = i * (n - 1);
    assert(product <= (limit - 1) * (n - 1)) by (nonlinear_arith)
        requires
            product == i * (n - 1),
            0 <= i < limit,
            n > 2,
    ;
    assert(place == product / (limit - 1));
    assert(place * (limit - 1) <= product < (place + 1) * (limit - 1)) by (nonlinear_arith)
        requires
            place == product / (limit - 1),
            limit >= 2,
    ;
    assert(sampled(peers, limit)[i] == peers[place]);
}

/// Two digits stand for sixteen times the first and the second, in whatever case they
/// are written; a text of another length than forty is no hash.
pub proof fn law_hashes_are_hexadecimal(s: Seq<char>, k: int, x: nat, y: nat)
    requires
        0 <= k < 20,
        x < 16 && y < 16,
    ensures
        s.len() != 40 ==> decoded_hash(s) is None,
        (decoded_hash(s) is Some && digit_of(s[2 * k], x) && digit_of(s[2 * k + 1], y)) ==> (
        decoded_hash(s)->Some_0)[k] == 16 * x + y,
        s.len() == 40 && (forall|i: int| 0 <= i < 40 ==> some_digit(#[trigger] s[i]))
            ==> decoded_hash(s) is Some,
        decoded_hash(s) is Some ==> (decoded_hash(s)->Some_0).len() == 20,
{
    if decoded_hash(s) is Some && digit_of(s[2 * k], x) && digit_of(s[2 * k + 1], y) {
        assert(hex_pair(s[2 * k], s[2 * k + 1]) == Some(16 * x + y));
    }
    if s.len() == 40 && (forall|i: int| 0 <= i < 40 ==> some_digit(#[trigger] s[i])) {
        assert forall|j: int| 0 <= j < 20 implies #[trigger] hex_pair(s[2 * j], s[2 * j + 1])
            is Some by {
            assert(some_digit(s[2 * j]) && some_digit(s[2 * j + 1]));
            lemma_some_digit(s[2 * j]);
            lemma_some_digit(s[2 * j + 1]);
        }
    }
}

/// Whether a character is the hexadecimal digit for a number.
pub open spec fn digit_of(c: char, v: nat) -> bool {
    v < 10 && c as nat == '0' as nat + v || v >= 10 && (c as nat == 'a' as nat + v - 10 || c as nat
        == 'A' as nat + v - 10)
}

/// Whether a character is a hexadecimal digit.
pub open spec fn some_digit(c: char) -> bool {
    exists|v: nat| v < 16 && #[trigger] digit_of(c, v)
}

proof fn lemma_some_digit(c: char)
    requires
        some_digit(c),
    ensures
        hex_value(c) is Some,
{
    let v = choose|v: nat| v < 16 && #[trigger] digit_of(c, v);
    assert(digit_of(c, v) && v < 16);
}

/// A piece map is complete where the bits are set from the first on without a gap, into
/// its last byte.
pub proof fn law_complete_maps_have_no_gap(bits: Seq<u8>, i: int)
    ensures
        ({
            let b = bits.last();
            &&& bits.len() == 0 ==> !complete_bitfield(bits)
            &&& complete_bitfield(bits) && 0 <= i < bits.len() - 1 ==> bits[i] == 255
            &&& complete_bitfield(bits) ==> b >= 128 && b / 64 % 2 >= b / 32 % 2 && b / 32 % 2 >= b
                / 16 % 2 && b / 16 % 2 >= b / 8 % 2 && b / 8 % 2 >= b / 4 % 2 && b / 4 % 2 >= b / 2
                % 2 && b / 2 % 2 >= b % 2
            &&& bits.len() > 0 && (forall|j: int|
                0 <= j < bits.len() - 1 ==> #[trigger] bits[j] == 255) && b >= 128
                    && b / 64 % 2 >= b
                / 32 % 2 && b / 32 % 2 >= b / 16 % 2 && b / 16 % 2 >= b / 8 % 2
                    && b / 8 % 2 >= b / 4
                % 2 && b / 4 % 2 >= b / 2 % 2 && b / 2 % 2 >= b % 2 ==> complete_bitfield(bits)
        }),
{
    if bits.len() > 0 {
        lemma_whole_or_leading(bits.last());
    }
}

/// The bytes whose bits are set from the first on without a gap.
proof fn lemma_whole_or_leading(b: u8)
    ensures
        (b == 0xff || b == 0xfe || b == 0xfc || b == 0xf8 || b == 0xf0 || b == 0xe0 || b == 0xc0
            || b
            == 0x80) <==> (b >= 128 && b / 64 % 2 >= b / 32 % 2 && b / 32 % 2 >= b / 16 % 2
                && b / 16
            % 2 >= b / 8 % 2 && b / 8 % 2 >= b / 4 % 2 && b / 4 % 2 >= b / 2 % 2 && b / 2 % 2 >= b
            % 2),
{
    assert((b == 0xff || b == 0xfe || b == 0xfc || b == 0xf8 || b == 0xf0 || b == 0xe0 || b == 0xc0
        || b == 0x80) <==> (b >= 128 && b / 64 % 2 >= b / 32 % 2 && b / 32 % 2 >= b / 16 % 2 && b
        / 16 % 2 >= b / 8 % 2 && b / 8 % 2 >= b / 4 % 2 && b / 4 % 2 >= b / 2 % 2 && b / 2 % 2 >= b
        % 2)) by (bit_vector);
}

/// A peer with all pieces says so by a whole map or by "have all", one without by any
/// other map or by "have none"; other messages tell nothing.
pub proof fn law_peers_tell_what_they_have(message: Seq<u8>, n: nat)
    requires
        message.len() > 0,
    ensures
        message[0] == 14 ==> seeder_message(message) == Some(true),
        message[0] == 15 ==> seeder_message(message) == Some(false),
        message[0] == 5 && message.len() == n + 1 && n > 0 && (forall|i: int|
            1 <= i <= n ==> #[trigger] message[i] == 255) ==> seeder_message(message) == Some(true),
        message[0] == 5 && (exists|i: int| 1 <= i < message.len() - 1
            && #[trigger] message[i] != 255)
            ==> seeder_message(message) == Some(false),
        message[0] == 5 && message.last() < 128 ==> seeder_message(message) == Some(false),
        message[0] != 5 && message[0] != 14 && message[0] != 15 ==> seeder_message(message) is None,
{
    let bits = message.skip(1);
    assert forall|i: int| 0 <= i < bits.len() implies #[trigger] bits[i] == message[i + 1] by {}
    if exists|i: int| 1 <= i < message.len() - 1 && #[trigger] message[i] != 255 {
        let i = choose|i: int| 1 <= i < message.len() - 1 && #[trigger] message[i] != 255;
        assert(bits[i - 1] != 255);
    }
    if bits.len() > 0 {
        assert(bits.last() == message.last());
    }
}

/// A handshake is nineteen, the name of the protocol, eight empty bytes, the hash, and
/// the name of the server.
pub proof fn law_handshake_layout(info_hash: Seq<u8>, suffix: Seq<u8>, response: Seq<u8>)
    requires
        info_hash.len() == 20,
        suffix.len() == 12,
    ensures
        ({
            let m = handshake_spec(info_hash, suffix);
            &&& m.len() == 68
            &&& m[0] == 19
            &&& m.subrange(1, 20) == ascii("BitTorrent protocol"@)
            &&& be_value(m.subrange(20, 28)) == 0
            &&& m.subrange(28, 48) == info_hash
            &&& m.subrange(48, 56) == ascii("-RM0001-"@)
            &&& m.subrange(56, 68) == suffix
        }),
        answers_handshake(response, info_hash) ==> response.len() == 68 && response.take(20)
            == handshake_spec(info_hash, suffix).take(20) && response.subrange(28, 48) == info_hash,
        response.len() == 68 && response.take(20) == handshake_spec(info_hash, suffix).take(20)
            && response.subrange(28, 48) == info_hash ==> answers_handshake(response, info_hash),
{
    reveal_with_fuel(power256, 9);
    lemma_protocol_name();
    law_numbers_read_back(0, 8);
    let m = handshake_spec(info_hash, suffix);
    assert(m.subrange(1, 20) =~= protocol_name());
    assert(m.subrange(20, 28) =~= be(0, 8));
    assert(m.subrange(28, 48) =~= info_hash);
    assert(m.subrange(48, 56) =~= ascii("-RM0001-"@));
    assert(m.subrange(56, 68) =~= suffix);
    assert(m.take(20) =~= seq![19u8] + protocol_name());
    if answers_handshake(response, info_hash) {
        assert(response.take(20) =~= seq![19u8] + response.subrange(1, 20));
    }
    if response.len() == 68 && response.take(20) == m.take(20) {
        assert(response.take(20)[0] == response[0]);
        assert(response.subrange(1, 20) =~= response.take(20).skip(1));
        assert(m.take(20).skip(1) =~= protocol_name());
    }
}

/// A connection is asked for by the number that trackers know, the action zero and the
/// transaction's number.
pub proof fn law_connect_layout(transaction_id: u32)
    ensures
        ({
            let m = connect_request_spec(transaction_id);
            &&& m.len() == 16
            &&& be_value(m.subrange(0, 8)) == 0x417_2710_1980
            &&& be_value(m.subrange(8, 12)) == 0
            &&& be_value(m.subrange(12, 16)) == transaction_id
        }),
{
    reveal_with_fuel(power256, 9);
    law_numbers_read_back(0x417_2710_1980, 8);
    law_numbers_read_back(0, 4);
    law_numbers_read_back(transaction_id as nat, 4);
    let m = connect_request_spec(transaction_id);
    assert(m.subrange(0, 8) =~= be(0x417_2710_1980, 8));
    assert(m.subrange(8, 12) =~= be(0, 4));
    assert(m.subrange(12, 16) =~= be(transaction_id as nat, 4));
}

/// What a tracker answers under the number of the request is understood: the number of
/// the connection, or why there is none. An answer to another request never is.
pub proof fn law_connections_are_understood(
    transaction_id: u32,
    other_id: u32,
    connection_id: u64,
    message: Seq<u8>,
)
    ensures
        connect_answer(
            be(0, 4) + be(transaction_id as nat, 4) + be(connection_id as nat, 8) + message,
            transaction_id,
        ) == ConnectAnswer::Connection(connection_id as nat),
        connect_answer(be(3, 4) + be(transaction_id as nat, 4) + message, transaction_id)
            == ConnectAnswer::Refused(message),
        other_id != transaction_id ==> connect_answer(
            be(0, 4) + be(other_id as nat, 4) + message,
            transaction_id,
        ) is TransactionMismatch,
        message.len() < 8 ==> connect_answer(message, transaction_id) is Short,
        message.len() < 8 ==> connect_answer(
            be(0, 4) + be(transaction_id as nat, 4) + message,
            transaction_id,
        ) is Unexpected,
        connect_answer(be(1, 4) + be(transaction_id as nat, 4) + message, transaction_id)
            is Unexpected,
{
    reveal_with_fuel(power256, 9);
    law_numbers_read_back(0, 4);
    law_numbers_read_back(1, 4);
    law_numbers_read_back(3, 4);
    law_numbers_read_back(transaction_id as nat, 4);
    law_numbers_read_back(other_id as nat, 4);
    law_numbers_read_back(connection_id as nat, 8);
    let id = be(transaction_id as nat, 4);
    let a = be(0, 4) + id + be(connection_id as nat, 8) + message;
    assert(a.subrange(0, 4) =~= be(0, 4));
    assert(a.subrange(4, 8) =~= id);
    assert(a.subrange(8, 16) =~= be(connection_id as nat, 8));
    let b = be(3, 4) + id + message;
    assert(b.subrange(0, 4) =~= be(3, 4));
    assert(b.subrange(4, 8) =~= id);
    assert(b.skip(8) =~= message);
    let c = be(0, 4) + be(other_id as nat, 4) + message;
    assert(c.subrange(4, 8) =~= be(other_id as nat, 4));
    let d = be(0, 4) + id + message;
    assert(d.subrange(0, 4) =~= be(0, 4));
    assert(d.subrange(4, 8) =~= id);
    let e = be(1, 4) + id + message;
    assert(e.subrange(0, 4) =~= be(1, 4));
    assert(e.subrange(4, 8) =~= id);
}

/// An announcement is made under the server's name by one that has nothing and still
/// wants all, and asks for a hundred peers.
pub proof fn law_announcements_ask_for_peers(
    connection_id: u64,
    transaction_id: u32,
    info_hash: Seq<u8>,
    suffix: Seq<u8>,
    key: u32,
)
    requires
        info_hash.len() == 20,
        suffix.len() == 12,
    ensures
        ({
            let m = announce_request_spec(connection_id, transaction_id, info_hash, suffix, key);
            &&& m.len() == 98
            &&& be_value(m.subrange(8, 12)) == 1
            &&& m.subrange(36, 44) == ascii("-RM0001-"@)
            &&& m.subrange(44, 56) == suffix
            &&& be_value(m.subrange(56, 64)) == 0
            &&& be_value(m.subrange(64, 72)) == 1
            &&& be_value(m.subrange(72, 80)) == 0
            &&& be_value(m.subrange(80, 84)) == 0
            &&& be_value(m.subrange(84, 88)) == 0
            &&& be_value(m.subrange(88, 92)) == key
            &&& be_value(m.subrange(92, 96)) == 100
            &&& be_value(m.subrange(96, 98)) == 6881
        }),
{
    reveal_with_fuel(power256, 9);
    lemma_protocol_name();
    lemma_be_len(connection_id as nat, 8);
    lemma_be_len(transaction_id as nat, 4);
    law_numbers_read_back(0, 8);
    law_numbers_read_back(1, 8);
    law_numbers_read_back(0, 4);
    law_numbers_read_back(1, 4);
    law_numbers_read_back(key as nat, 4);
    law_numbers_read_back(100, 4);
    law_numbers_read_back(6881, 2);
    let m = announce_request_spec(connection_id, transaction_id, info_hash, suffix, key);
    assert(m.subrange(8, 12) =~= be(1, 4));
    assert(m.subrange(36, 44) =~= ascii("-RM0001-"@));
    assert(m.subrange(44, 56) =~= suffix);
    assert(m.subrange(56, 64) =~= be(0, 8));
    assert(m.subrange(64, 72) =~= be(1, 8));
    assert(m.subrange(72, 80) =~= be(0, 8));
    assert(m.subrange(80, 84) =~= be(0, 4));
    assert(m.subrange(84, 88) =~= be(0, 4));
    assert(m.subrange(88, 92) =~= be(key as nat, 4));
    assert(m.subrange(92, 96) =~= be(100, 4));
    assert(m.subrange(96, 98) =~= be(6881, 2));
}

proof fn lemma_compact_peers(bytes: Seq<u8>, n: nat, k: int)
    requires
        0 <= k < n,
    ensures
        compact_peers(bytes, n).len() <= 100,
        public_peer(compact_peer(bytes, 20 + 6 * k)) ==> compact_peers(bytes, n).contains(
            compact_peer(bytes, 20 + 6 * k),
        ) || compact_peers(bytes, n).len() == 100,
    decreases n,
{
    let before = compact_peers(bytes, (n - 1) as nat);
    let all = compact_peers(bytes, n);
    let peer = compact_peer(bytes, 20 + 6 * k);
    if n > 1 {
        lemma_compact_peers(
            bytes,
            (n - 1) as nat,
            if k < n - 1 {
                k
            } else {
                0
            },
        );
    }
    if k == n - 1 {
        if all.len() > before.len() {
            assert(all[all.len() - 1] == peer);
        }
    } else if before.contains(peer) {
        let i = choose|i: int| 0 <= i < before.len() && before[i] == peer;
        assert(all[i] == peer);
    }
}

proof fn lemma_compact_peers_are_public(bytes: Seq<u8>, n: nat)
    ensures
        compact_peers(bytes, n).no_duplicates(),
        forall|i: int|
            0 <= i < compact_peers(bytes, n).len() ==> public_peer(
                #[trigger] compact_peers(bytes, n)[i],
            ),
    decreases n,
{
    if n > 0 {
        lemma_compact_peers_are_public(bytes, (n - 1) as nat);
    }
}

/// An answer tells how many leech and how many seed, and each public peer in it by four
/// bytes of address and two of port; a hundred are kept at most, each once.
pub proof fn law_announcements_are_read(response: Seq<u8>, k: int, i: int)
    requires
        response.len() >= 20,
        0 <= k,
        20 + 6 * k + 6 <= response.len(),
    ensures
        ({
            let t = announce_answer(response);
            let at = 20 + 6 * k;
            let peer = Peer {
                ip: Ip::V4(
                    (response[at] * 0x100_0000 + response[at + 1] * 0x1_0000 + response[at + 2] * 256
                        + response[at + 3]) as u32,
                ),
                port: (response[at + 4] * 256 + response[at + 5]) as u16,
            };
            &&& t.leechers == response[12] * 0x100_0000 + response[13] * 0x1_0000 + response[14]
                * 256 + response[15]
            &&& t.seeders == response[16] * 0x100_0000 + response[17] * 0x1_0000 + response[18] * 256
                + response[19]
            &&& t.completed == 0 && t.responses == 1
            &&& t.peers.len() <= 100 && t.peers.no_duplicates()
            &&& public_peer(peer) ==> t.peers.contains(peer) || t.peers.len() == 100
            &&& 0 <= i < t.peers.len() ==> public_peer(t.peers[i])
        }),
{
    let n = ((response.len() - 20) / 6) as nat;
    let at = 20 + 6 * k;
    assert(k < n);
    lemma_compact_peers(response, n, k);
    lemma_compact_peers_are_public(response, n);
    law_bytes_are_in_network_order(response.subrange(at, at + 4));
    law_bytes_are_in_network_order(response.subrange(at + 4, at + 6));
    law_bytes_are_in_network_order(response.subrange(12, 16));
    law_bytes_are_in_network_order(response.subrange(16, 20));
}

/// Of each count the greatest holds, the answers add up, and every peer is kept unless
/// there are a hundred.
pub proof fn law_merge_keeps_the_most(a: TrackerView, b: TrackerView, p: Peer)
    ensures
        ({
            let m = merged(a, b);
            &&& m.seeders == a.seeders || m.seeders == b.seeders
            &&& m.seeders >= a.seeders && m.seeders >= b.seeders
            &&& m.leechers == a.leechers || m.leechers == b.leechers
            &&& m.leechers >= a.leechers && m.leechers >= b.leechers
            &&& m.completed == a.completed || m.completed == b.completed
            &&& m.completed >= a.completed && m.completed >= b.completed
            &&& a.responses + b.responses <= 0xffff ==> m.responses == a.responses + b.responses
            &&& a.responses + b.responses > 0xffff ==> m.responses == 0xffff
            &&& b.peers.contains(p) ==> m.peers.contains(p) || m.peers.len() >= 100
            &&& a.peers.contains(p) ==> m.peers.contains(p)
            &&& a.peers.len() <= 100 ==> m.peers.len() <= 100
        }),
{
    lemma_capped_extended(a.peers, b.peers, MAX_PEERS_PER_SWARM as nat);
    let m = merged(a, b);
    if b.peers.contains(p) {
        lemma_offered_or_full(a.peers, b.peers, MAX_PEERS_PER_SWARM as nat, p);
    }
    if a.peers.contains(p) {
        let i = choose|i: int| 0 <= i < a.peers.len() && a.peers[i] == p;
        assert(m.peers.take(a.peers.len() as int)[i] == m.peers[i]);
    }
}

/// No tracker knows more of a torrent than all together, and where none answered nothing
/// is known.
pub proof fn law_all_trackers_count(
    responses: Seq<Keyed<TrackerAvailability>>,
    hash: Seq<char>,
    k: int,
)
    requires
        0 <= k < responses.len(),
    ensures
        tracker_views(responses[k]).contains_key(hash) ==> {
            let one = tracker_views(responses[k])[hash];
            let all = merged_answers(responses, hash);
            all.seeders >= one.seeders && all.leechers >= one.leechers && all.completed
                >= one.completed && all.responses >= one.responses
        },
        (forall|i: int|
            0 <= i < responses.len() ==> !tracker_views(#[trigger] responses[i]).contains_key(hash))
            ==> merged_answers(responses, hash).responses == 0 && merged_answers(
            responses,
            hash,
        ).seeders == 0 && merged_answers(responses, hash).leechers == 0 && merged_answers(
            responses,
            hash,
        ).peers.len() == 0,
    decreases responses.len(),
{
    let short = responses.drop_last();
    assert(responses[responses.len() - 1] == responses.last());
    assert forall|i: int| 0 <= i < short.len() implies #[trigger] short[i] == responses[i] by {}
    if k < short.len() {
        law_all_trackers_count(short, hash, k);
    } else if short.len() > 0 {
        law_all_trackers_count(short, hash, 0);
    }
}

/// One tracker is asked about fifty torrents at most, and those are the first.
pub proof fn law_batches_are_bounded(hashes: Seq<Seq<char>>, i: int)
    ensures
        hashes.len() <= 50 ==> asked_hashes(hashes).len() == hashes.len(),
        hashes.len() > 50 ==> asked_hashes(hashes).len() == 50,
        0 <= i < asked_hashes(hashes).len() ==> asked_hashes(hashes)[i] == hashes[i],
{
}

/// An answer is remembered for three quarters of a minute, and that there was none for
/// ten seconds.
pub proof fn law_answers_are_remembered_longer(responses: u16)
    ensures
        responses > 0 ==> answer_ttl(responses) == 45_000,
        responses == 0 ==> answer_ttl(responses) == 10_000,
{
}

/// A query asks about every hash once, in lower case, and about nothing else.
pub proof fn law_every_hash_is_asked_about(hashes: Seq<Seq<char>>, k: int, h: Seq<char>)
    ensures
        query_hashes(hashes).no_duplicates(),
        0 <= k < hashes.len() && decoded_hash(lower(hashes[k])) is Some ==> query_hashes(
            hashes,
        ).contains(lower(hashes[k])),
        query_hashes(hashes).contains(h) ==> decoded_hash(h) is Some && exists|i: int|
            0 <= i < hashes.len() && lower(#[trigger] hashes[i]) == h,
{
    let lowered = hashes.map_values(|h: Seq<char>| lower(h));
    let unique = crate::order::distinct(lowered);
    let valid = |h: Seq<char>| decoded_hash(h) is Some;
    crate::order::law_distinct(lowered);
    lemma_filter_of_distinct(unique, valid);
    if 0 <= k < hashes.len() && decoded_hash(lower(hashes[k])) is Some {
        assert(lowered[k] == lower(hashes[k]));
        assert(lowered.contains(lower(hashes[k])));
        assert(unique.contains(lower(hashes[k])));
        let j = choose|j: int| 0 <= j < unique.len() && unique[j] == lower(hashes[k]);
        unique.lemma_filter_contains(valid, j);
    }
    if query_hashes(hashes).contains(h) {
        let j = choose|j: int|
            0 <= j < query_hashes(hashes).len() && query_hashes(hashes)[j] == h;
        assert(unique.contains(h) && valid(h));
        assert(lowered.contains(h));
        let i = choose|i: int| 0 <= i < lowered.len() && lowered[i] == h;
        assert(lower(hashes[i]) == h);
    }
}

proof fn lemma_filter_of_distinct(s: Seq<Seq<char>>, f: spec_fn(Seq<char>) -> bool)
    ensures
        s.no_duplicates() ==> s.filter(f).no_duplicates(),
        forall|k: int| 0 <= k < s.filter(f).len() ==> s.contains(#[trigger] s.filter(f)[k]) && f(
            s.filter(f)[k],
        ),
    decreases s.len(),
{
    reveal(Seq::filter);
    if s.len() > 0 {
        let short = s.drop_last();
        lemma_filter_of_distinct(short, f);
        let before = short.filter(f);
        assert forall|k: int| 0 <= k < s.filter(f).len() implies s.contains(
            #[trigger] s.filter(f)[k],
        ) && f(s.filter(f)[k]) by {
            if k < before.len() {
                assert(short.contains(before[k]));
                let i = choose|i: int| 0 <= i < short.len() && short[i] == before[k];
                assert(s[i] == before[k]);
            } else {
                assert(s[s.len() - 1] == s.filter(f)[k]);
            }
        }
        if s.no_duplicates() {
            assert(short.no_duplicates());
            if before.contains(s.last()) {
                let k = choose|k: int| 0 <= k < before.len() && before[k] == s.last();
                assert(short.contains(before[k]));
                let i = choose|i: int| 0 <= i < short.len() && short[i] == before[k];
                assert(s[i] == s[s.len() - 1]);
            }
        }
    }
}

/// The trackers that are asked speak UDP, and are three at most; of those that do, one is
/// left out only where there are three.
pub proof fn law_three_trackers_are_asked(trackers: Seq<Seq<char>>, k: int, i: int)
    ensures
        udp_trackers_spec(trackers).len() <= 3,
        0 <= i < udp_trackers_spec(trackers).len() ==> trackers.contains(
            udp_trackers_spec(trackers)[i],
        ) && (url_parts(udp_trackers_spec(trackers)[i]) matches Some(u) && u.scheme == "udp"@),
        0 <= k < trackers.len() && (url_parts(trackers[k]) matches Some(u) && u.scheme == "udp"@)
            ==> udp_trackers_spec(trackers).contains(trackers[k]) || udp_trackers_spec(
            trackers,
        ).len() == 3,
{
    let f = |t: Seq<char>| url_parts(t) matches Some(u) && u.scheme == "udp"@;
    let udp = trackers.filter(f);
    lemma_filter_of_distinct(trackers, f);
    if 0 <= i < udp_trackers_spec(trackers).len() {
        assert(udp_trackers_spec(trackers)[i] == udp[i]);
    }
    if 0 <= k < trackers.len() && f(trackers[k]) {
        trackers.lemma_filter_contains(f, k);
    }
}

proof fn lemma_answered(probes: Seq<(Peer, Option<bool>)>, k: int)
    ensures
        0 <= k < probes.len() && probes[k].1 is Some ==> answered(probes).contains(
            (probes[k].0, probes[k].1->Some_0),
        ),
        forall|i: int|
            0 <= i < answered(probes).len() ==> exists|j: int|
                0 <= j < probes.len() && #[trigger] probes[j] == (
                    (#[trigger] answered(probes)[i]).0,
                    Some(answered(probes)[i].1),
                ),
    decreases probes.len(),
{
    if probes.len() > 0 {
        let short = probes.drop_last();
        lemma_answered(short, k);
        let before = answered(short);
        let all = answered(probes);
        if 0 <= k < short.len() && probes[k].1 is Some {
            assert(short[k] == probes[k]);
            let want = (probes[k].0, probes[k].1->Some_0);
            let i = choose|i: int| 0 <= i < before.len() && before[i] == want;
            assert(all[i] == want);
        } else if k == short.len() && probes[k].1 is Some {
            assert(all[all.len() - 1] == (probes[k].0, probes[k].1->Some_0));
        }
        assert forall|i: int| 0 <= i < all.len() implies exists|j: int|
            0 <= j < probes.len() && #[trigger] probes[j] == (
                (#[trigger] all[i]).0,
                Some(all[i].1),
            ) by {
            if i < before.len() {
                assert(before[i] == all[i]);
                let j = choose|j: int|
                    0 <= j < short.len() && #[trigger] short[j] == (before[i].0, Some(before[i].1));
                assert(probes[j] == (all[i].0, Some(all[i].1)));
            } else {
                assert(probes[probes.len() - 1] == (all[i].0, Some(all[i].1)));
            }
        }
    }
}

/// Every peer that answered is listed, and none that did not; as many answered as are
/// listed.
pub proof fn law_answers_are_listed(probes: Seq<(Peer, Option<bool>)>, k: int, i: int)
    ensures
        ({
            let s = peers_summary(probes);
            &&& s.peers.len() == s.responsive
            &&& s.responsive <= probes.len() && s.seeders <= s.responsive
            &&& 0 <= k < probes.len() && probes[k].1 is Some ==> s.peers.contains(probes[k].0)
            &&& 0 <= i < s.peers.len() ==> exists|j: int|
                0 <= j < probes.len() && (#[trigger] probes[j]).0 == s.peers[i] && probes[j].1
                    is Some
        }),
{
    let answers = answered(probes);
    let keys = answer_keys(answers);
    let order = ranked(keys);
    let peers = peers_summary(probes).peers;
    crate::order::law_ranking(keys);
    lemma_answered(probes, k);
    law_answers_add_up(probes, Seq::empty());
    if 0 <= k < probes.len() && probes[k].1 is Some {
        let want = (probes[k].0, probes[k].1->Some_0);
        let a = choose|a: int| 0 <= a < answers.len() && answers[a] == want;
        assert(order.contains(a));
        let b = choose|b: int| 0 <= b < order.len() && order[b] == a;
        assert(peers[b] == probes[k].0);
    }
    if 0 <= i < peers.len() {
        let a = order[i];
        assert(peers[i] == answers[a].0);
        let j = choose|j: int|
            0 <= j < probes.len() && #[trigger] probes[j] == (answers[a].0, Some(answers[a].1));
        assert(probes[j].0 == peers[i]);
    }
}

/// The answers and the seeders of two rounds add up; one peer that answers counts once,
/// and as a seeder where it has every piece.
pub proof fn law_answers_add_up(a: Seq<(Peer, Option<bool>)>, b: Seq<(Peer, Option<bool>)>)
    ensures
        peers_summary(a + b).responsive == peers_summary(a).responsive + peers_summary(b).responsive,
        peers_summary(a + b).seeders == peers_summary(a).seeders + peers_summary(b).seeders,
        peers_summary(a).seeders <= peers_summary(a).responsive <= a.len(),
        a.len() == 1 ==> peers_summary(a).responsive == (if a[0].1 is Some {
            1nat
        } else {
            0
        }) && peers_summary(a).seeders == (if a[0].1 == Some(true) {
            1nat
        } else {
            0
        }),
    decreases a.len() + b.len(),
{
    if b.len() > 0 {
        law_answers_add_up(a, b.drop_last());
        assert((a + b).drop_last() =~= a + b.drop_last());
        lemma_seeder_push(answered((a + b).drop_last()), (a + b).last());
        lemma_seeder_push(answered(b.drop_last()), b.last());
    } else {
        assert(a + b =~= a);
        if a.len() > 0 {
            law_answers_add_up(a.drop_last(), Seq::empty());
            lemma_seeder_push(answered(a.drop_last()), a.last());
            if a.len() == 1 {
                assert(answered(a.drop_last()).len() == 0);
            }
        }
    }
}

proof fn lemma_seeder_push(answers: Seq<(Peer, bool)>, probe: (Peer, Option<bool>))
    ensures
        probe.1 matches Some(seeder) ==> seeder_count(answers.push((probe.0, seeder)))
            == seeder_count(answers) + if seeder {
            1nat
        } else {
            0
        },
{
    if let Some(seeder) = probe.1 {
        assert(answers.push((probe.0, seeder)).drop_last() =~= answers);
    }
}

/// Of two peers that have as much, the one with a short address comes first, and then
/// the one with the lower address.
pub proof fn law_peers_are_listed_in_order(
    probes: Seq<(Peer, Option<bool>)>,
    i: int,
    j: int,
)
    requires
        0 <= i < j < answered(probes).len(),
    ensures
        ({
            let answers = answered(probes);
            let order = ranked(answer_keys(answers));
            let peers = peers_summary(probes).peers;
            &&& peers[i] == answers[order[i]].0 && peers[j] == answers[order[j]].0
            &&& answers[order[i]].1 == answers[order[j]].1 ==> match (peers[i].ip, peers[j].ip) {
                (Ip::V4(x), Ip::V4(y)) => x < y || x == y && peers[i].port <= peers[j].port,
                (Ip::V4(_), Ip::V6(_)) => true,
                (Ip::V6(_), Ip::V4(_)) => false,
                (Ip::V6(x), Ip::V6(y)) => x < y || x == y && peers[i].port <= peers[j].port,
            }
        }),
{
    let answers = answered(probes);
    let keys = answer_keys(answers);
    let order = ranked(keys);
    crate::order::law_ranking(keys);
    let a = order[i];
    let b = order[j];
    assert(crate::order::key_ge(keys[a], keys[b]));
    let x = peer_key(answers[a].0, answers[a].1);
    let y = peer_key(answers[b].0, answers[b].1);
    assert(keys[a] == x && keys[b] == y);
    lemma_key_places(x, y);
}

/// What it means for one key of five numbers to be at least another.
proof fn lemma_key_places(x: Seq<u64>, y: Seq<u64>)
    requires
        x.len() == 5,
        y.len() == 5,
        crate::order::key_ge(x, y),
    ensures
        x[0] >= y[0],
        x[0] == y[0] ==> x[1] >= y[1],
        x[0] == y[0] && x[1] == y[1] ==> x[2] >= y[2],
        x[0] == y[0] && x[1] == y[1] && x[2] == y[2] ==> x[3] >= y[3],
        x[0] == y[0] && x[1] == y[1] && x[2] == y[2] && x[3] == y[3] ==> x[4] >= y[4],
{
    if x[0] < y[0] {
        crate::order::law_keys_are_compared_from_the_front(y, x, 0);
    } else if x[0] == y[0] {
        if x[1] < y[1] {
            crate::order::law_keys_are_compared_from_the_front(y, x, 1);
        } else if x[1] == y[1] {
            if x[2] < y[2] {
                crate::order::law_keys_are_compared_from_the_front(y, x, 2);
            } else if x[2] == y[2] {
                if x[3] < y[3] {
                    crate::order::law_keys_are_compared_from_the_front(y, x, 3);
                } else if x[3] == y[3] && x[4] < y[4] {
                    crate::order::law_keys_are_compared_from_the_front(y, x, 4);
                }
            }
        }
    }
}

/// What trackers say and what peers say are remembered apart, and for each torrent.
pub proof fn law_memories_are_apart(a: Seq<char>, b: Seq<char>)
    ensures
        scrape_key(a) != peers_key(b),
        scrape_key(a) == scrape_key(b) ==> a == b,
        peers_key(a) == peers_key(b) ==> a == b,
{
    reveal_strlit("torrent-scrape:");
    reveal_strlit("torrent-active-peers:");
    assert(scrape_key(a)[8] == 's');
    assert(peers_key(b)[8] == 'a');
    if scrape_key(a) == scrape_key(b) {
        lemma_scrape_key(a, b);
    }
    let n = "torrent-active-peers:"@.len() as int;
    assert(peers_key(a).skip(n) =~= a);
    assert(peers_key(b).skip(n) =~= b);
}

} // verus!
