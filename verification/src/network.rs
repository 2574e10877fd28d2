//! Packet framing and the choice of addresses.
//!
//! A packet is laid out as
//!
//! ```text
//! [0]          msg_id        HANDSHAKE_ID, 0 for a dummy, or 1-253 for data
//! [1]          original_len  plaintext byte count (0 for a handshake)
//! [2..35]      share         one Shamir key share
//! [35..43]     counter       big-endian sequence number
//! [43..]       shard         Reed-Solomon data or parity shard
//! [+shard_len] padding
//! ```

pub mod laws;

use crate::bytes;
use crate::crypto::identity::HANDSHAKE_SHARD_LEN;
use crate::lists;
use crate::text;
use rand::Rng;
use vstd::prelude::*;

verus! {

// ---------- Constants ----------

pub const BASE_SIZE: usize = 512;

pub const JITTER_MAX: usize = 64;

pub const HANDSHAKE_ID: u8 = 255;

pub const MAX_PACKET_SIZE: usize = 2048;

pub const TCP_BULK_PORT: u16 = 9001;

pub const KEEPALIVE_INTERVAL_SECS: u64 = 30;

pub const OFFSET_MSG_ID: usize = 0;

pub const OFFSET_ORIG_LEN: usize = 1;

pub const OFFSET_SHARE_START: usize = 2;

pub const OFFSET_SHARE_END: usize = 35;

pub const OFFSET_COUNTER_START: usize = 35;

pub const OFFSET_COUNTER_END: usize = 43;

pub const OFFSET_SHARD_START: usize = 43;

/// The length of a key share in a packet.
pub const SHARE_LEN: usize = 33;

// ---------- Errors ----------

#[derive(Debug)]
pub enum NetworkError {
    Io(String),
    BindFailed(u16, String),
    SendFailed(String),
    InterfaceNotFound(String),
}

impl NetworkError {
    /// The text of the error.
    pub open spec fn text(&self) -> Seq<char> {
        match *self {
            NetworkError::Io(e) => "IO error: "@ + e@,
            NetworkError::BindFailed(port, e) => "Bind failed on port "@ + text::numeral(
                port as nat,
            ) + ": "@ + e@,
            NetworkError::SendFailed(e) => "Send failed: "@ + e@,
            NetworkError::InterfaceNotFound(e) => "Interface not found: "@ + e@,
        }
    }

    pub fn message(&self) -> (r: String)
        ensures
            r@ == self.text(),
    {
        match self {
            NetworkError::Io(e) => text::concat("IO error: ", e.as_str()),
            NetworkError::BindFailed(port, e) => {
                let mut out = text::concat(
                    "Bind failed on port ",
                    text::decimal(*port as u64).as_str(),
                );
                out.append(": ");
                out.append(e.as_str());
                out
            },
            NetworkError::SendFailed(e) => text::concat("Send failed: ", e.as_str()),
            NetworkError::InterfaceNotFound(e) => text::concat(
                "Interface not found: ",
                e.as_str(),
            ),
        }
    }
}

// ---------- Network Interfaces ----------

/// An address of a network interface, as the system reports it.
pub struct FoundInterface {
    pub name: String,
    /// The address, where it is an IPv4 one.
    pub v4: Option<[u8; 4]>,
    pub is_loopback: bool,
}

#[derive(Debug, Clone)]
pub struct NetInterface {
    pub name: String,
    pub ip: [u8; 4],
    pub is_loopback: bool,
}

impl FoundInterface {
    /// Whether the address is an IPv4 one that other hosts can reach.
    pub open spec fn usable(&self) -> bool {
        self.v4 is Some && !self.is_loopback
    }
}

/// The usable ones of `found`, in their order.
pub open spec fn usable_interfaces(found: Seq<FoundInterface>) -> Seq<FoundInterface> {
    found.filter(|f: FoundInterface| f.usable())
}

/// Whether `n` is the interface `f`.
pub open spec fn is_interface(n: NetInterface, f: FoundInterface) -> bool {
    n.name@ == f.name@ && f.v4 == Some(n.ip) && n.is_loopback == f.is_loopback
}

/// Whether `n` is the loopback interface `lo` with the address 127.0.0.1.
pub open spec fn is_fallback(n: NetInterface) -> bool {
    n.name@ == "lo"@ && n.ip@ == seq![127u8, 0u8, 0u8, 1u8] && n.is_loopback
}

/// Whether `all` lists the usable ones of `found`, or the fallback where there is none.
pub open spec fn are_interfaces(all: Seq<NetInterface>, found: Seq<FoundInterface>) -> bool {
    let usable = usable_interfaces(found);
    if usable.len() == 0 {
        all.len() == 1 && is_fallback(all[0])
    } else {
        all.len() == usable.len() && forall|i: int|
            0 <= i < usable.len() ==> is_interface(#[trigger] all[i], usable[i])
    }
}

/// All non-loopback IPv4 addresses among those found; the loopback address
/// where there is none.
pub fn discover_interfaces(found: &Vec<FoundInterface>) -> (r: Vec<NetInterface>)
    ensures
        are_interfaces(r@, found@),
{
    let ghost keep = |f: FoundInterface| f.usable();
    let mut out: Vec<NetInterface> = Vec::new();
    let mut i: usize = 0;
    proof {
        lists::lemma_filter_ends(found@, keep);
    }
    while i < found.len()
        invariant
            keep == (|f: FoundInterface| f.usable()),
            i <= found@.len(),
            out@.len() == found@.take(i as int).filter(keep).len(),
            forall|j: int|
                0 <= j < out@.len() ==> is_interface(
                    #[trigger] out@[j],
                    found@.take(i as int).filter(keep)[j],
                ),
        decreases found@.len() - i,
    {
        proof {
            lists::lemma_filter_step(found@, keep, i as int);
        }
        if let Some(ip) = found[i].v4 {
            if !found[i].is_loopback {
                out.push(NetInterface { name: found[i].name.clone(), ip, is_loopback: false });
            }
        }
        i += 1;
    }
    proof {
        lists::lemma_filter_ends(found@, keep);
    }
    if out.len() == 0 {
        let ip: [u8; 4] = [127u8, 0u8, 0u8, 1u8];
        assert(ip@ =~= seq![127u8, 0u8, 0u8, 1u8]);
        out.push(NetInterface { name: "lo".to_owned(), ip, is_loopback: true });
    }
    out
}

/// The best interface for peer-to-peer communication: the first that is not
/// loopback, else the fallback.
pub fn best_interface(found: &Vec<FoundInterface>) -> (r: Option<NetInterface>)
    ensures
        ({
            let usable = usable_interfaces(found@);
            if usable.len() == 0 {
                r matches Some(n) && is_fallback(n)
            } else {
                r matches Some(n) && is_interface(n, usable[0])
            }
        }),
{
    let mut all = discover_interfaces(found);
    Some(all.remove(0))
}

/// The address on which to listen at `port` on every interface.
pub fn bind_address(port: u16) -> (r: String)
    ensures
        r@ == "0.0.0.0:"@ + text::numeral(port as nat),
{
    text::concat("0.0.0.0:", text::decimal(port as u64).as_str())
}

// ---------- Packets ----------

/// A packet of `size` bytes; what follows the shard is zero.
pub open spec fn frame(
    msg_id: u8,
    len_byte: u8,
    share: Seq<u8>,
    counter: u64,
    shard: Seq<u8>,
    size: int,
) -> Seq<u8> {
    seq![msg_id, len_byte] + share + bytes::big_endian(counter as nat, 8) + shard
        + bytes::zero_bytes((size - OFFSET_SHARD_START - shard.len()) as nat)
}

fn build_frame(
    msg_id: u8,
    len_byte: u8,
    share: &[u8],
    counter: u64,
    shard: &[u8],
    size: usize,
) -> (r: Vec<u8>)
    requires
        share@.len() == SHARE_LEN,
        OFFSET_SHARD_START + shard@.len() <= size,
    ensures
        r@ == frame(msg_id, len_byte, share@, counter, shard@, size as int),
        r@.len() == size,
{
    let mut p: Vec<u8> = Vec::with_capacity(size);
    p.push(msg_id);
    p.push(len_byte);
    p.extend_from_slice(share);
    p.extend_from_slice(&bytes::u64_to_be(counter));
    p.extend_from_slice(shard);
    proof {
        bytes::lemma_endian_len(counter as nat, 8);
    }
    let fill = bytes::zeroed(size - OFFSET_SHARD_START - shard.len());
    p.extend_from_slice(fill.as_slice());
    assert(p@ =~= frame(msg_id, len_byte, share@, counter, shard@, size as int));
    p
}

/// A handshake packet.
pub open spec fn handshake_frame(share: Seq<u8>, shard: Seq<u8>) -> Seq<u8> {
    frame(HANDSHAKE_ID, 0, share, 0, shard, BASE_SIZE + 64)
}

/// The three handshake packets for three shares and shards.
pub fn handshake_packets(shares: &[Vec<u8>], shards: &[Vec<u8>]) -> (r: Vec<Vec<u8>>)
    requires
        shares@.len() >= 3,
        shards@.len() >= 3,
        forall|i: int| 0 <= i < 3 ==> (#[trigger] shares@[i])@.len() == SHARE_LEN,
        forall|i: int| 0 <= i < 3 ==> (#[trigger] shards@[i])@.len() == HANDSHAKE_SHARD_LEN,
    ensures
        bytes::rows(r@) == Seq::new(3, |i: int| handshake_frame(shares@[i]@, shards@[i]@)),
{
    let mut out: Vec<Vec<u8>> = Vec::new();
    let mut i: usize = 0;
    while i < 3
        invariant
            i <= 3,
            shares@.len() >= 3,
            shards@.len() >= 3,
            forall|j: int| 0 <= j < 3 ==> (#[trigger] shares@[j])@.len() == SHARE_LEN,
            forall|j: int| 0 <= j < 3 ==> (#[trigger] shards@[j])@.len() == HANDSHAKE_SHARD_LEN,
            out@.len() == i,
            forall|j: int|
                0 <= j < i ==> (#[trigger] out@[j])@ == handshake_frame(shares@[j]@, shards@[j]@),
        decreases 3 - i,
    {
        out.push(
            build_frame(
                HANDSHAKE_ID,
                0,
                shares[i].as_slice(),
                0,
                shards[i].as_slice(),
                BASE_SIZE + 64,
            ),
        );
        i += 1;
    }
    assert(bytes::rows(out@) =~= Seq::new(
        3,
        |i: int| handshake_frame(shares@[i]@, shards@[i]@),
    ));
    out
}

/// A number below `bound`, by `Rng::gen_range` of `rand` on the thread's generator.
///
/// Trusted: the number is in range. Which one it is, is left to chance.
#[verifier::external_body]
fn random_below(bound: usize) -> (r: usize)
    requires
        bound > 0,
    ensures
        r < bound,
{
    rand::thread_rng().gen_range(0..bound)
}

/// `n` bytes, by `Rng::fill` of `rand` on the thread's generator.
///
/// Trusted: there are as many as asked for. Which they are, is left to chance.
#[verifier::external_body]
fn noise(n: usize) -> (r: Vec<u8>)
    ensures
        r@.len() == n,
{
    let mut out = vec![0u8; n];
    rand::thread_rng().fill(out.as_mut_slice());
    out
}

/// A data packet with `jitter` bytes of padding.
pub open spec fn data_frame(
    msg_id: u8,
    original_len: usize,
    share: Seq<u8>,
    counter: u64,
    shard: Seq<u8>,
    jitter: int,
) -> Seq<u8> {
    frame(msg_id, original_len as u8, share, counter, shard, BASE_SIZE + jitter)
}

/// A data packet with `jitter` bytes of padding.
pub fn data_packet(
    msg_id: u8,
    original_len: usize,
    share: &[u8],
    shard: &[u8],
    counter: u64,
    jitter: usize,
) -> (r: Vec<u8>)
    requires
        jitter < JITTER_MAX,
        share@.len() == SHARE_LEN,
        OFFSET_SHARD_START + shard@.len() <= BASE_SIZE + jitter,
    ensures
        r@ == data_frame(msg_id, original_len, share@, counter, shard@, jitter as int),
        r@.len() == BASE_SIZE + jitter,
{
    build_frame(msg_id, original_len as u8, share, counter, shard, BASE_SIZE + jitter)
}

/// The three data packets for three shares and shards, each with padding of a
/// random length below `JITTER_MAX`.
pub fn data_packets(
    msg_id: u8,
    original_len: usize,
    shares: &[Vec<u8>],
    shards: &[Vec<u8>],
    shard_len: usize,
    counter: u64,
) -> (r: Vec<Vec<u8>>)
    requires
        OFFSET_SHARD_START + shard_len <= BASE_SIZE,
        shares@.len() >= 3,
        shards@.len() >= 3,
        forall|i: int| 0 <= i < 3 ==> (#[trigger] shares@[i])@.len() == SHARE_LEN,
        forall|i: int| 0 <= i < 3 ==> (#[trigger] shards@[i])@.len() == shard_len,
    ensures
        r@.len() == 3,
        forall|i: int|
            0 <= i < 3 ==> BASE_SIZE <= (#[trigger] r@[i])@.len() < BASE_SIZE + JITTER_MAX && r@[i]@
                == data_frame(
                msg_id,
                original_len,
                shares@[i]@,
                counter,
                shards@[i]@,
                r@[i]@.len() - BASE_SIZE,
            ),
{
    let mut out: Vec<Vec<u8>> = Vec::new();
    let mut i: usize = 0;
    while i < 3
        invariant
            i <= 3,
            OFFSET_SHARD_START + shard_len <= BASE_SIZE,
            shares@.len() >= 3,
            shards@.len() >= 3,
            forall|j: int| 0 <= j < 3 ==> (#[trigger] shares@[j])@.len() == SHARE_LEN,
            forall|j: int| 0 <= j < 3 ==> (#[trigger] shards@[j])@.len() == shard_len,
            out@.len() == i,
            forall|j: int|
                0 <= j < i ==> BASE_SIZE <= (#[trigger] out@[j])@.len() < BASE_SIZE + JITTER_MAX
                    && out@[j]@ == data_frame(
                    msg_id,
                    original_len,
                    shares@[j]@,
                    counter,
                    shards@[j]@,
                    out@[j]@.len() - BASE_SIZE,
                ),
        decreases 3 - i,
    {
        let jitter = random_below(JITTER_MAX);
        out.push(
            data_packet(
                msg_id,
                original_len,
                shares[i].as_slice(),
                shards[i].as_slice(),
                counter,
                jitter,
            ),
        );
        i += 1;
    }
    out
}

/// A dummy packet: a header of zeros, then `tail`.
pub fn dummy_packet(tail: &[u8]) -> (r: Vec<u8>)
    requires
        tail@.len() == BASE_SIZE - OFFSET_SHARD_START,
    ensures
        r@ == bytes::zero_bytes(OFFSET_SHARD_START as nat) + tail@,
{
    let mut p = bytes::zeroed(OFFSET_SHARD_START);
    p.extend_from_slice(tail);
    assert(p@ =~= bytes::zero_bytes(OFFSET_SHARD_START as nat) + tail@);
    p
}

/// A dummy packet with noise behind its header.
pub fn keepalive_packet() -> (r: Vec<u8>)
    ensures
        exists|tail: Seq<u8>|
            tail.len() == BASE_SIZE - OFFSET_SHARD_START && r@ == #[trigger] (bytes::zero_bytes(
                OFFSET_SHARD_START as nat,
            ) + tail),
{
    let tail = noise(BASE_SIZE - OFFSET_SHARD_START);
    dummy_packet(tail.as_slice())
}

/// Whom to send keepalives to: the known targets, and this host's external
/// address where it is not one of them.
pub open spec fn with_external(targets: Seq<Seq<char>>, external: Option<Seq<char>>) -> Seq<
    Seq<char>,
> {
    match external {
        Some(addr) => if targets.contains(addr) {
            targets
        } else {
            targets.push(addr)
        },
        None => targets,
    }
}

/// Whom to send keepalives to.
pub fn keepalive_targets(targets: &Vec<String>, external: &Option<String>) -> (r: Vec<String>)
    ensures
        text::texts(r@) == with_external(
            text::texts(targets@),
            match *external {
                Some(addr) => Some(addr@),
                None => None,
            },
        ),
{
    let mut out = text::copy_list(targets);
    if let Some(addr) = external {
        if !text::listed(targets, addr.as_str()) {
            out.push(addr.clone());
            assert(text::texts(out@) =~= text::texts(targets@).push(addr@));
        }
    }
    out
}

// ---------- Packet Parsing ----------

/// Parse the counter field from a raw packet buffer.
pub fn parse_counter(buf: &[u8]) -> (r: u64)
    requires
        buf@.len() >= OFFSET_COUNTER_END,
    ensures
        r == bytes::big_endian_value(
            buf@.subrange(OFFSET_COUNTER_START as int, OFFSET_COUNTER_END as int),
        ),
{
    bytes::u64_from_be(buf, OFFSET_COUNTER_START)
}

/// The length of the shard in a packet: that of a handshake, or half of what
/// the plaintext and its tag take up, rounded up.
pub open spec fn shard_len_of(msg_id: u8, original_len: int) -> int {
    if msg_id == HANDSHAKE_ID {
        HANDSHAKE_SHARD_LEN as int
    } else {
        (original_len + 17) / 2
    }
}

/// Compute the effective shard length for a received packet.
pub fn shard_len_for(msg_id: u8, original_len: usize) -> (r: usize)
    requires
        msg_id != HANDSHAKE_ID ==> original_len + 17 <= usize::MAX,
    ensures
        r == shard_len_of(msg_id, original_len as int),
{
    if msg_id == HANDSHAKE_ID {
        HANDSHAKE_SHARD_LEN
    } else {
        let effective = ((original_len + 16 + 1) / 2) * 2;
        effective / 2
    }
}

/// A raw packet taken apart.
#[derive(Debug, Clone)]
pub struct ParsedPacket {
    pub msg_id: u8,
    pub original_len: usize,
    pub share: Vec<u8>,
    pub counter: u64,
    pub shard: Vec<u8>,
}

/// The shard length that the header of `buf` calls for.
pub open spec fn announced_len(buf: Seq<u8>) -> int {
    shard_len_of(buf[0], buf[1] as int)
}

/// Whether the `len` bytes received in `buf` hold a whole packet.
pub open spec fn is_whole(buf: Seq<u8>, len: int) -> bool {
    len >= OFFSET_SHARD_START && len >= OFFSET_SHARD_START + announced_len(buf)
}

impl ParsedPacket {
    /// Whether the packet is what stands in `buf`.
    pub open spec fn is_read_from(&self, buf: Seq<u8>) -> bool {
        &&& self.msg_id == buf[0]
        &&& self.original_len == buf[1]
        &&& self.share@ == buf.subrange(OFFSET_SHARE_START as int, OFFSET_SHARE_END as int)
        &&& self.counter == bytes::big_endian_value(
            buf.subrange(OFFSET_COUNTER_START as int, OFFSET_COUNTER_END as int),
        )
        &&& self.shard@ == buf.subrange(
            OFFSET_SHARD_START as int,
            OFFSET_SHARD_START + announced_len(buf),
        )
    }

    /// Takes apart the `len` bytes received in `buf`.
    pub fn parse(buf: &[u8], len: usize) -> (r: Option<Self>)
        requires
            len >= OFFSET_SHARD_START ==> buf@.len() >= OFFSET_SHARD_START,
            is_whole(buf@, len as int) ==> buf@.len() >= OFFSET_SHARD_START + announced_len(buf@),
        ensures
            r is Some == is_whole(buf@, len as int),
            r matches Some(packet) ==> packet.is_read_from(buf@),
    {
        if len < OFFSET_SHARD_START {
            return None;
        }
        let msg_id = buf[OFFSET_MSG_ID];
        let original_len = buf[OFFSET_ORIG_LEN] as usize;
        let share = bytes::copy_range(buf, OFFSET_SHARE_START, OFFSET_SHARE_END);
        let counter = parse_counter(buf);
        let shard_len = shard_len_for(msg_id, original_len);
        if len < OFFSET_SHARD_START + shard_len {
            return None;
        }
        let shard = bytes::copy_range(buf, OFFSET_SHARD_START, OFFSET_SHARD_START + shard_len);
        Some(ParsedPacket { msg_id, original_len, share, counter, shard })
    }
}

/// The parts of a packet stand where they belong.
pub proof fn lemma_frame_parts(
    msg_id: u8,
    len_byte: u8,
    share: Seq<u8>,
    counter: u64,
    shard: Seq<u8>,
    size: int,
)
    requires
        share.len() == SHARE_LEN,
        OFFSET_SHARD_START + shard.len() <= size,
    ensures
        ({
            let buf = frame(msg_id, len_byte, share, counter, shard, size);
            &&& buf.len() == size
            &&& buf[0] == msg_id
            &&& buf[1] == len_byte
            &&& buf.subrange(2, 35) == share
            &&& bytes::big_endian_value(buf.subrange(35, 43)) == counter
            &&& buf.subrange(43, 43int + shard.len()) == shard
        }),
{
    let buf = frame(msg_id, len_byte, share, counter, shard, size);
    bytes::lemma_endian_len(counter as nat, 8);
    bytes::lemma_pow256_8();
    bytes::law_big_endian_reads_back(counter as nat, 8);
    assert(buf.subrange(2, 35) =~= share);
    assert(buf.subrange(35, 43) =~= bytes::big_endian(counter as nat, 8));
    assert(buf.subrange(43, 43int + shard.len()) =~= shard);
}

/// A data packet parses back into what it was built from, whatever its padding.
pub proof fn law_data_packet_parses_back(
    msg_id: u8,
    original_len: usize,
    share: Seq<u8>,
    counter: u64,
    shard: Seq<u8>,
    jitter: int,
    packet: ParsedPacket,
)
    requires
        original_len < 256,
        share.len() == SHARE_LEN,
        shard.len() == shard_len_of(msg_id, original_len as int),
        0 <= jitter < JITTER_MAX,
        OFFSET_SHARD_START + shard.len() <= BASE_SIZE + jitter,
        packet.is_read_from(data_frame(msg_id, original_len, share, counter, shard, jitter)),
    ensures
        is_whole(
            data_frame(msg_id, original_len, share, counter, shard, jitter),
            BASE_SIZE + jitter,
        ),
        packet.msg_id == msg_id,
        packet.original_len == original_len,
        packet.share@ == share,
        packet.counter == counter,
        packet.shard@ == shard,
{
    lemma_frame_parts(
        msg_id,
        original_len as u8,
        share,
        counter,
        shard,
        BASE_SIZE + jitter,
    );
}

/// A handshake packet parses back into what it was built from.
pub proof fn law_handshake_packet_parses_back(
    share: Seq<u8>,
    shard: Seq<u8>,
    packet: ParsedPacket,
)
    requires
        share.len() == SHARE_LEN,
        shard.len() == HANDSHAKE_SHARD_LEN,
        packet.is_read_from(handshake_frame(share, shard)),
    ensures
        is_whole(handshake_frame(share, shard), BASE_SIZE + 64),
        packet.msg_id == HANDSHAKE_ID,
        packet.original_len == 0,
        packet.share@ == share,
        packet.counter == 0,
        packet.shard@ == shard,
{
    lemma_frame_parts(HANDSHAKE_ID, 0, share, 0, shard, BASE_SIZE + 64);
}

// ---------- NAT Traversal ----------

/// What is known of this host's address as others see it.
pub struct NatState {
    pub external_addr: Option<String>,
    /// When the last keepalive went out, in nanoseconds on a monotonic clock.
    pub last_punch: u64,
}

impl NatState {
    pub fn new(now: u64) -> (r: Self)
        ensures
            r.external_addr is None,
            r.last_punch == now,
    {
        NatState { external_addr: None, last_punch: now }
    }
}

/// The shards that a peer serves for a group over a bulk connection: none yet.
pub fn tcp_fetch_shards(_peer_addr: &str, _group_id: &str) -> (r: Result<
    Vec<Vec<u8>>,
    NetworkError,
>)
    ensures
        r matches Ok(shards) && shards@.len() == 0,
{
    Ok(Vec::new())
}

// ---------- Mixnet ----------

/// One hop of a mixnet path.
#[derive(Debug, Clone)]
pub struct SphinxHop {
    pub node_id: [u8; 32],
    pub addr: String,
    pub delay_ms: u64,
}

} // verus!
