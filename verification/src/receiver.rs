//! What a node makes of the packets it receives.
//!
//! A message comes in several packets, each with a share of its key and a shard
//! of its contents. The first two that arrive under one message id are put
//! together, each shard at the place that the number of its share gives; what
//! arrives later starts the message anew.

use crate::bytes;
use crate::crypto::aead;
use crate::crypto::aead::decrypt_message;
use crate::crypto::erasure;
use crate::crypto::erasure::{rs_reconstruct, ErasureError};
use crate::crypto::gf256_shamir;
use crate::crypto::gf256_shamir::shamir_join;
use crate::crypto::identity;
use crate::crypto::identity::{key_fingerprint, PeerIdentity};
use crate::network;
use crate::network::{ParsedPacket, HANDSHAKE_ID, MAX_PACKET_SIZE, OFFSET_MSG_ID};
use crate::router::WanRouter;
use crate::session;
use crate::session::{MasterKey, SessionGuard, SessionManager};
use crate::text;
use std::collections::HashMap;
use vstd::prelude::*;

verus! {

/// The packet of a message that arrived first.
pub struct FirstPart {
    pub share: Vec<u8>,
    pub shard: Vec<u8>,
    pub counter: u64,
    /// The length of the message.
    pub original_len: usize,
}

/// A part of a message as contracts see it.
#[verifier::ext_equal]
pub struct PartModel {
    pub share: Seq<u8>,
    pub shard: Seq<u8>,
    pub counter: u64,
    pub original_len: usize,
}

impl View for FirstPart {
    type V = PartModel;

    open spec fn view(&self) -> PartModel {
        PartModel {
            share: self.share@,
            shard: self.shard@,
            counter: self.counter,
            original_len: self.original_len,
        }
    }
}

/// What came of a packet.
pub enum Received {
    /// It is a dummy.
    Dummy,
    /// It is not whole.
    Malformed,
    /// It is the first of its message.
    Waiting,
    /// The shards of its message do not fit together.
    Unrestorable(ErasureError),
    /// It completes a handshake, but there is a master key already.
    AlreadyTrusted,
    /// It completes a handshake that does not verify.
    Rejected(&'static str),
    /// It completes the handshake of a peer, and this is the shared key.
    Trusted { peer: String, key: [u8; 32] },
    /// It completes a message with these contents.
    Decoded(Vec<u8>),
    /// It completes a message that does not decrypt.
    Undecodable,
}

/// What came of a packet, as contracts see it.
pub enum ReceivedModel {
    Dummy,
    Malformed,
    Waiting,
    Unrestorable(ErasureError),
    AlreadyTrusted,
    Rejected(Seq<char>),
    Trusted { peer: Seq<char>, key: Seq<u8> },
    Decoded(Seq<u8>),
    Undecodable,
}

impl View for Received {
    type V = ReceivedModel;

    open spec fn view(&self) -> ReceivedModel {
        match *self {
            Received::Dummy => ReceivedModel::Dummy,
            Received::Malformed => ReceivedModel::Malformed,
            Received::Waiting => ReceivedModel::Waiting,
            Received::Unrestorable(e) => ReceivedModel::Unrestorable(e),
            Received::AlreadyTrusted => ReceivedModel::AlreadyTrusted,
            Received::Rejected(e) => ReceivedModel::Rejected(e@),
            Received::Trusted { peer, key } => ReceivedModel::Trusted { peer: peer@, key: key@ },
            Received::Decoded(data) => ReceivedModel::Decoded(data@),
            Received::Undecodable => ReceivedModel::Undecodable,
        }
    }
}

/// Two shards at the places `i` and `j` of three.
pub open spec fn two_of_three(a: Seq<u8>, i: int, b: Seq<u8>, j: int) -> Seq<Option<Seq<u8>>> {
    Seq::new(
        3,
        |k: int|
            if k == i {
                Some(a)
            } else if k == j {
                Some(b)
            } else {
                None
            },
    )
}

/// Whether `m` and `n` are the numbers of two different shares.
pub open spec fn are_numbers(m: u8, n: u8) -> bool {
    1 <= m <= 3 && 1 <= n <= 3 && m != n
}

/// The shards of two parts: each at the place that the number of its share
/// gives or, where these are not the numbers of two shares, as they came.
pub open spec fn placed(first: PartModel, second: PartModel) -> Seq<Option<Seq<u8>>> {
    let (m, n) = (first.share[0], second.share[0]);
    if are_numbers(m, n) {
        two_of_three(first.shard, m - 1, second.shard, n - 1)
    } else {
        two_of_three(first.shard, 0, second.shard, 1)
    }
}

/// Data shard `i` of `shards`: the shard itself, or what it is restored to.
pub open spec fn data_shard(shards: Seq<Option<Seq<u8>>>, i: int) -> Seq<u8> {
    match shards[i] {
        Some(shard) => shard,
        None => erasure::repaired(shards, 2, 1)[i],
    }
}

/// What two parts of the message `msg_id` give, whose data shards are `whole`.
pub open spec fn outcome(
    msg_id: u8,
    first: PartModel,
    second: PartModel,
    whole: Seq<u8>,
    has_master_key: bool,
) -> ReceivedModel {
    let key = gf256_shamir::rejoined(first.share, second.share);
    if msg_id == HANDSHAKE_ID {
        if has_master_key {
            ReceivedModel::AlreadyTrusted
        } else {
            match identity::handshake_outcome(whole) {
                Err(e) => ReceivedModel::Rejected(e),
                Ok(keys) => ReceivedModel::Trusted {
                    peer: identity::fingerprint_of(keys.subrange(832, 864)),
                    key,
                },
            }
        }
    } else {
        let sealed = bytes::start_of(whole, (first.original_len + aead::TAG_LEN) as nat);
        match aead::opened(key, aead::counter_nonce(first.counter), sealed) {
            Some(data) => ReceivedModel::Decoded(data),
            None => ReceivedModel::Undecodable,
        }
    }
}

/// What two parts of the message `msg_id` give.
pub open spec fn completed(
    msg_id: u8,
    first: PartModel,
    second: PartModel,
    has_master_key: bool,
) -> ReceivedModel {
    let shards = placed(first, second);
    match erasure::repair_fault(shards, 2, 1) {
        Some(fault) => ReceivedModel::Unrestorable(fault),
        None => outcome(
            msg_id,
            first,
            second,
            data_shard(shards, 0) + data_shard(shards, 1),
            has_master_key,
        ),
    }
}

/// Whether `m` is what two parts whose shards were taken from one codeword,
/// whichever two, give: what its data shards give.
pub open spec fn restores(
    msg_id: u8,
    first: PartModel,
    second: PartModel,
    has_master_key: bool,
    m: ReceivedModel,
) -> bool {
    forall|word: Seq<Seq<u8>>|
        erasure::is_codeword(word, 2, 1) && #[trigger] erasure::taken_from(
            placed(first, second),
            word,
        ) ==> m == outcome(msg_id, first, second, word[0] + word[1], has_master_key)
}

/// The part of a message that the packet in `buf` holds.
pub open spec fn part_in(buf: Seq<u8>) -> PartModel {
    PartModel {
        share: buf.subrange(2, 35),
        shard: buf.subrange(43, 43 + network::announced_len(buf)),
        counter: bytes::big_endian_value(buf.subrange(35, 43)) as u64,
        original_len: buf[1] as usize,
    }
}

/// What comes of a packet, given the parts of other messages that wait.
pub open spec fn verdict(
    waiting: Map<u8, PartModel>,
    buf: Seq<u8>,
    len: int,
    has_master_key: bool,
) -> ReceivedModel {
    if buf[0] == 0 {
        ReceivedModel::Dummy
    } else if !network::is_whole(buf, len) {
        ReceivedModel::Malformed
    } else if !waiting.dom().contains(buf[0]) {
        ReceivedModel::Waiting
    } else {
        completed(buf[0], waiting[buf[0]], part_in(buf), has_master_key)
    }
}

/// Whether `m` is what comes of a packet, given the parts of other messages that
/// wait. Where the packet is a second one, and the shards of both were taken
/// from one codeword, it is what the codeword's data shards give.
pub open spec fn answers(
    waiting: Map<u8, PartModel>,
    buf: Seq<u8>,
    len: int,
    has_master_key: bool,
    m: ReceivedModel,
) -> bool {
    &&& m == verdict(waiting, buf, len, has_master_key)
    &&& buf[0] != 0 && network::is_whole(buf, len) && waiting.dom().contains(buf[0]) ==> restores(
        buf[0],
        waiting[buf[0]],
        part_in(buf),
        has_master_key,
        m,
    )
}

/// The parts that wait after a packet: a first part is added, and a second one
/// takes the first away.
pub open spec fn waiting_after(waiting: Map<u8, PartModel>, buf: Seq<u8>, len: int) -> Map<
    u8,
    PartModel,
> {
    if buf[0] == 0 || !network::is_whole(buf, len) {
        waiting
    } else if waiting.dom().contains(buf[0]) {
        waiting.remove(buf[0])
    } else {
        waiting.insert(buf[0], part_in(buf))
    }
}

fn place_shards(first: &FirstPart, second: &FirstPart) -> (r: Vec<Option<Vec<u8>>>)
    requires
        first.share@.len() > 0,
        second.share@.len() > 0,
    ensures
        bytes::optional_rows(r@) == placed(first@, second@),
        r@.len() == 3,
{
    let (m, n) = (first.share[0], second.share[0]);
    let known = 1 <= m && m <= 3 && 1 <= n && n <= 3 && m != n;
    let i: usize = if known {
        m as usize - 1
    } else {
        0
    };
    let j: usize = if known {
        n as usize - 1
    } else {
        1
    };
    let mut shards: Vec<Option<Vec<u8>>> = Vec::new();
    shards.push(None);
    shards.push(None);
    shards.push(None);
    shards.set(i, Some(bytes::copy(first.shard.as_slice())));
    shards.set(j, Some(bytes::copy(second.shard.as_slice())));
    assert(bytes::optional_rows(shards@) =~= placed(first@, second@));
    shards
}

/// Puts two parts of the message `msg_id` together.
pub fn complete(msg_id: u8, first: &FirstPart, second: &FirstPart, has_master_key: bool) -> (r:
    Received)
    requires
        first.share@.len() == network::SHARE_LEN,
        second.share@.len() == network::SHARE_LEN,
    ensures
        r@ == completed(msg_id, first@, second@, has_master_key),
        restores(msg_id, first@, second@, has_master_key, r@),
{
    let key = shamir_join(first.share.as_slice(), second.share.as_slice());
    let mut shards = place_shards(first, second);
    let ghost given = placed(first@, second@);
    proof {
        assert forall|word: Seq<Seq<u8>>|
            erasure::is_codeword(word, 2, 1) && #[trigger] erasure::taken_from(
                given,
                word,
            ) implies erasure::repair_fault(given, 2, 1) is None by {
            lemma_two_are_present(first@, second@);
            erasure::law_enough_shards_restore(word, given, 2, 1);
        }
    }
    let ghost before = shards@;
    match rs_reconstruct(&mut shards) {
        Ok(()) => {},
        Err(e) => return Received::Unrestorable(e),
    }
    let ghost full = erasure::repaired(given, 2, 1);
    proof {
        assert(bytes::optional_rows(shards@).len() == 3);
        assert forall|i: int| 0 <= i < 2 implies #[trigger] data_shard(given, i) == full[i] by {
            assert(bytes::optional_rows(shards@)[i] == Some(full[i]));
            assert(bytes::optional_rows(before)[i] == given[i]);
            assert(before[i] is Some ==> shards@[i] == before[i]);
        }
        assert(bytes::optional_rows(shards@)[0] == Some(full[0]));
        assert(bytes::optional_rows(shards@)[1] == Some(full[1]));
        assert(data_shard(given, 0) == full[0] && data_shard(given, 1) == full[1]);
    }
    let mut whole: Vec<u8> = Vec::new();
    if let Some(shard) = &shards[0] {
        whole.extend_from_slice(shard.as_slice());
    }
    if let Some(shard) = &shards[1] {
        whole.extend_from_slice(shard.as_slice());
    }
    assert(whole@ =~= full[0] + full[1]);
    if msg_id == HANDSHAKE_ID {
        if has_master_key {
            return Received::AlreadyTrusted;
        }
        match PeerIdentity::verify_handshake_blob(whole.as_slice()) {
            Ok(keys) => {
                assert(key@.subrange(0, 32) =~= key@);
                let ed_key = bytes::take_32(keys.as_slice(), 832);
                Received::Trusted {
                    peer: key_fingerprint(&ed_key),
                    key: bytes::take_32(key.as_slice(), 0),
                }
            },
            Err(e) => Received::Rejected(e),
        }
    } else {
        let mut sealed = bytes::copy_start(whole.as_slice(), first.original_len, aead::TAG_LEN);
        match decrypt_message(key.as_slice(), first.counter, &mut sealed) {
            Ok(data) => Received::Decoded(bytes::copy(data)),
            Err(_) => Received::Undecodable,
        }
    }
}

/// The parts of messages that wait for their second packet.
pub struct Receiver {
    pub pool: HashMap<u8, FirstPart>,
}

impl Receiver {
    /// The parts that wait.
    pub open spec fn waiting(&self) -> Map<u8, PartModel> {
        self.pool@.map_values(|part: FirstPart| part@)
    }

    /// Whether every part that waits has a whole share and a shard of a packet's length.
    pub open spec fn wf(&self) -> bool {
        forall|id: u8| #[trigger]
            self.pool@.dom().contains(id) ==> self.pool@[id].share@.len() == network::SHARE_LEN
                && self.pool@[id].shard@.len() <= MAX_PACKET_SIZE
    }

    pub fn new() -> (r: Self)
        ensures
            r.wf(),
            r.waiting() == Map::<u8, PartModel>::empty(),
    {
        let r = Receiver { pool: HashMap::new() };
        assert(r.waiting() =~= Map::<u8, PartModel>::empty());
        r
    }

    /// Takes the `len` bytes received in `buf`.
    pub fn receive(&mut self, buf: &[u8], len: usize, has_master_key: bool) -> (r: Received)
        requires
            old(self).wf(),
            buf@.len() == MAX_PACKET_SIZE,
            len <= MAX_PACKET_SIZE,
        ensures
            final(self).wf(),
            answers(old(self).waiting(), buf@, len as int, has_master_key, r@),
            final(self).waiting() == waiting_after(old(self).waiting(), buf@, len as int),
    {
        let ghost before = self.waiting();
        let msg_id = buf[OFFSET_MSG_ID];
        if msg_id == 0 {
            return Received::Dummy;
        }
        let packet = match ParsedPacket::parse(buf, len) {
            Some(packet) => packet,
            None => return Received::Malformed,
        };
        let part = FirstPart {
            share: packet.share,
            shard: packet.shard,
            counter: packet.counter,
            original_len: packet.original_len,
        };
        assert(part@ =~= part_in(buf@));
        let ghost model = part@;
        match self.pool.remove(&msg_id) {
            Some(first) => {
                assert(self.waiting() =~= before.remove(msg_id));
                complete(msg_id, &first, &part, has_master_key)
            },
            None => {
                let _ = self.pool.insert(msg_id, part);
                assert(self.waiting() =~= before.insert(msg_id, model));
                Received::Waiting
            },
        }
    }
}

/// The address to send to from now on: that of the sender of a handshake packet,
/// where it is a new one.
pub fn adopt_address(msg_id: u8, current: &str, from: &str) -> (r: Option<String>)
    ensures
        match r {
            Some(addr) => msg_id == HANDSHAKE_ID && current@ != from@ && addr@ == from@,
            None => msg_id != HANDSHAKE_ID || current@ == from@,
        },
{
    if msg_id == HANDSHAKE_ID && !text::same(current, from) {
        Some(from.to_owned())
    } else {
        None
    }
}

/// Opens a session with a peer whose handshake verified, and marks it online.
pub fn establish(
    sessions: &mut SessionManager,
    router: &mut WanRouter,
    peer: &String,
    key: [u8; 32],
    now: u64,
)
    requires
        old(router).wf(),
    ensures
        final(router).wf(),
        final(router).peer_health@ == old(router).peer_health@.insert(peer@, true),
        final(router).same_routes(*old(router)),
        ({
            let all = old(sessions).sessions@;
            let i = session::place(all, peer@);
            if i < all.len() {
                final(sessions).sessions@ == all.update(
                    i,
                    (SessionGuard {
                        master_key: Some(MasterKey(key)),
                        last_activity: now,
                        v_max: 0,
                        bitmask: 0,
                        ..all[i]
                    }),
                )
            } else {
                final(sessions).sessions@ == all.push(
                    (SessionGuard {
                        peer_fingerprint: *peer,
                        start_time: now,
                        last_activity: now,
                        v_max: 0,
                        bitmask: 0,
                        window_size: session::DEFAULT_WINDOW_SIZE,
                        hard_timeout: session::DEFAULT_HARD_TIMEOUT,
                        idle_timeout: session::DEFAULT_IDLE_TIMEOUT,
                        packets_received: 0,
                        packets_replayed: 0,
                        master_key: Some(MasterKey(key)),
                        missed_heartbeats: 0,
                    }),
                )
            }
        }),
{
    let mut guard = SessionGuard::new(peer.clone(), now);
    guard.set_master_key(key);
    sessions.upsert(peer.clone(), guard);
    router.mark_online(peer.as_str());
}

// ---------- Laws ----------

proof fn lemma_two_are_present(first: PartModel, second: PartModel)
    ensures
        erasure::present(placed(first, second)) == 2,
{
    let s = placed(first, second);
    reveal_with_fuel(erasure::present, 4);
    assert(s.drop_last().last() == s[1]);
    assert(s.drop_last().drop_last().last() == s[0]);
    assert(s.drop_last().drop_last().drop_last().len() == 0);
}

/// Shards number `i` and `j` of a codeword, each with the share of its number,
/// stand at their places.
proof fn lemma_parts_are_placed(
    first: PartModel,
    second: PartModel,
    secret: Seq<u8>,
    shares: Seq<Seq<u8>>,
    word: Seq<Seq<u8>>,
    i: int,
    j: int,
)
    requires
        0 <= i < 3,
        0 <= j < 3,
        i != j,
        secret.len() == 32,
        gf256_shamir::are_shares_of(shares, secret),
        word.len() == 3,
        first.share == shares[i],
        first.shard == word[i],
        second.share == shares[j],
        second.shard == word[j],
    ensures
        erasure::taken_from(placed(first, second), word),
        gf256_shamir::rejoined(first.share, second.share) == secret,
{
    gf256_shamir::law_two_shares_rejoin(secret, shares, i, j);
    let mask = choose|mask: Seq<u8>|
        mask.len() == 32 && shares == #[trigger] gf256_shamir::shares_of(secret, mask);
    assert(shares[0][0] == 1 && shares[1][0] == 2 && shares[2][0] == 3);
}

/// Any two packets of a peer's handshake, received one after the other by a
/// node without a master key, make the peer trusted: under the name of its key,
/// and with the secret whose shares the packets carried.
pub proof fn law_handshake_is_trusted(
    waiting: Map<u8, PartModel>,
    blob: Seq<u8>,
    keys: Seq<u8>,
    secret: Seq<u8>,
    shares: Seq<Seq<u8>>,
    word: Seq<Seq<u8>>,
    i: int,
    j: int,
    answer: ReceivedModel,
)
    requires
        !waiting.dom().contains(HANDSHAKE_ID),
        blob.len() == identity::HANDSHAKE_BLOB_LEN,
        identity::handshake_outcome(blob) == Ok::<Seq<u8>, Seq<char>>(keys),
        secret.len() == 32,
        gf256_shamir::are_shares_of(shares, secret),
        word == erasure::codeword(erasure::halves(blob), 1),
        word.len() == 3,
        erasure::even_rows(word),
        0 <= i < 3,
        0 <= j < 3,
        i != j,
        ({
            let first = network::handshake_frame(shares[i], word[i]);
            let second = network::handshake_frame(shares[j], word[j]);
            answers(
                waiting_after(waiting, first, first.len() as int),
                second,
                second.len() as int,
                false,
                answer,
            )
        }),
    ensures
        ({
            let first = network::handshake_frame(shares[i], word[i]);
            let second = network::handshake_frame(shares[j], word[j]);
            &&& verdict(waiting, first, first.len() as int, false) == ReceivedModel::Waiting
            &&& waiting_after(
                waiting_after(waiting, first, first.len() as int),
                second,
                second.len() as int,
            ) == waiting
        }),
        answer == (ReceivedModel::Trusted {
            peer: identity::fingerprint_of(keys.subrange(832, 864)),
            key: secret,
        }),
{
    let h = erasure::halves(blob);
    let first = network::handshake_frame(shares[i], word[i]);
    let second = network::handshake_frame(shares[j], word[j]);
    let mask = choose|mask: Seq<u8>|
        mask.len() == 32 && shares == #[trigger] gf256_shamir::shares_of(secret, mask);
    assert(shares[i].len() == 33 && shares[j].len() == 33);
    lemma_codeword_of_halves(blob, word);
    assert(word[i].len() == word[0].len() && word[j].len() == word[0].len());
    network::lemma_frame_parts(HANDSHAKE_ID, 0, shares[i], 0, word[i], 576);
    network::lemma_frame_parts(HANDSHAKE_ID, 0, shares[j], 0, word[j], 576);
    let (a, b) = (part_in(first), part_in(second));
    lemma_parts_are_placed(a, b, secret, shares, word, i, j);
    let after = waiting_after(waiting, first, first.len() as int);
    assert(after.remove(HANDSHAKE_ID) =~= waiting);
    assert(after[HANDSHAKE_ID] == a);
    assert(restores(HANDSHAKE_ID, a, b, false, answer));
    assert(word[0] + word[1] =~= blob);
}

proof fn lemma_codeword_of_halves(data: Seq<u8>, word: Seq<Seq<u8>>)
    requires
        word == erasure::codeword(erasure::halves(data), 1),
        word.len() == 3,
        erasure::even_rows(word),
        data.len() % 2 == 0,
    ensures
        erasure::is_codeword(word, 2, 1),
        word[0] == erasure::halves(data)[0],
        word[1] == erasure::halves(data)[1],
        word[0].len() == data.len() / 2,
{
    assert(word.take(2) =~= erasure::halves(data));
}

/// Any two packets of a message of less than 256 bytes, received one after the
/// other, give the message back.
pub proof fn law_data_message_decodes(
    waiting: Map<u8, PartModel>,
    msg_id: u8,
    message: Seq<u8>,
    counter: u64,
    cipher: Seq<u8>,
    secret: Seq<u8>,
    shares: Seq<Seq<u8>>,
    word: Seq<Seq<u8>>,
    jitters: (int, int),
    i: int,
    j: int,
    has_master_key: bool,
    answer: ReceivedModel,
)
    requires
        msg_id != HANDSHAKE_ID,
        msg_id != 0,
        !waiting.dom().contains(msg_id),
        message.len() < 256,
        cipher.len() == message.len() + aead::TAG_LEN,
        aead::opened(secret, aead::counter_nonce(counter), cipher) == Some(message),
        secret.len() == 32,
        gf256_shamir::are_shares_of(shares, secret),
        word == erasure::codeword(erasure::halves(erasure::evened(cipher)), 1),
        word.len() == 3,
        erasure::even_rows(word),
        0 <= jitters.0 < network::JITTER_MAX,
        0 <= jitters.1 < network::JITTER_MAX,
        0 <= i < 3,
        0 <= j < 3,
        i != j,
        ({
            let len = message.len() as usize;
            let first = network::data_frame(msg_id, len, shares[i], counter, word[i], jitters.0);
            let second = network::data_frame(msg_id, len, shares[j], counter, word[j], jitters.1);
            answers(
                waiting_after(waiting, first, first.len() as int),
                second,
                second.len() as int,
                has_master_key,
                answer,
            )
        }),
    ensures
        answer == ReceivedModel::Decoded(message),
{
    let len = message.len() as usize;
    let first = network::data_frame(msg_id, len, shares[i], counter, word[i], jitters.0);
    let second = network::data_frame(msg_id, len, shares[j], counter, word[j], jitters.1);
    let mask = choose|mask: Seq<u8>|
        mask.len() == 32 && shares == #[trigger] gf256_shamir::shares_of(secret, mask);
    assert(shares[i].len() == 33 && shares[j].len() == 33);
    lemma_codeword_of_halves(erasure::evened(cipher), word);
    assert(word[i].len() == word[0].len() && word[j].len() == word[0].len());
    network::lemma_frame_parts(
        msg_id,
        len as u8,
        shares[i],
        counter,
        word[i],
        network::BASE_SIZE + jitters.0,
    );
    network::lemma_frame_parts(
        msg_id,
        len as u8,
        shares[j],
        counter,
        word[j],
        network::BASE_SIZE + jitters.1,
    );
    let (a, b) = (part_in(first), part_in(second));
    assert(a =~= PartModel { share: shares[i], shard: word[i], counter, original_len: len });
    lemma_parts_are_placed(a, b, secret, shares, word, i, j);
    let after = waiting_after(waiting, first, first.len() as int);
    assert(after[msg_id] == a);
    assert(restores(msg_id, a, b, has_master_key, answer));
    assert(bytes::start_of(word[0] + word[1], cipher.len()) =~= cipher);
}

/// A dummy, and a packet that is not whole, change nothing and come to nothing.
pub proof fn law_dummies_and_torsos_come_to_nothing(
    waiting: Map<u8, PartModel>,
    buf: Seq<u8>,
    len: int,
    has_master_key: bool,
)
    requires
        buf[0] == 0 || !network::is_whole(buf, len),
    ensures
        waiting_after(waiting, buf, len) == waiting,
        buf[0] == 0 ==> verdict(waiting, buf, len, has_master_key) == ReceivedModel::Dummy,
        buf[0] != 0 ==> verdict(waiting, buf, len, has_master_key) == ReceivedModel::Malformed,
{
}

/// A packet concerns its own message alone: the first one waits with what it
/// carries, the second one takes the first away, and the parts of all other
/// messages stay.
pub proof fn law_packet_concerns_its_message(
    waiting: Map<u8, PartModel>,
    buf: Seq<u8>,
    len: int,
    has_master_key: bool,
    other: u8,
)
    requires
        buf.len() >= 43,
        buf[0] != 0,
        network::is_whole(buf, len),
    ensures
        ({
            let after = waiting_after(waiting, buf, len);
            &&& after.dom().contains(buf[0]) == !waiting.dom().contains(buf[0])
            &&& other != buf[0] ==> after.dom().contains(other) == waiting.dom().contains(other)
            &&& other != buf[0] && waiting.dom().contains(other) ==> after[other] == waiting[other]
            &&& !waiting.dom().contains(buf[0]) ==> {
                &&& verdict(waiting, buf, len, has_master_key) == ReceivedModel::Waiting
                &&& after[buf[0]].share == buf.subrange(2, 35)
                &&& after[buf[0]].counter as nat == bytes::big_endian_value(buf.subrange(35, 43))
                &&& after[buf[0]].original_len == buf[1]
                &&& after[buf[0]].shard == buf.subrange(
                    43,
                    43 + network::shard_len_of(buf[0], buf[1] as int),
                )
            }
            &&& waiting.dom().contains(buf[0]) ==> verdict(waiting, buf, len, has_master_key)
                != ReceivedModel::Waiting
        }),
{
    let counter = buf.subrange(35, 43);
    lemma_eight_bytes_fit(counter);
}

proof fn lemma_eight_bytes_fit(s: Seq<u8>)
    requires
        s.len() == 8,
    ensures
        bytes::big_endian_value(s) <= u64::MAX,
{
    reveal_with_fuel(bytes::big_endian_value, 9);
}

/// A peer is trusted only by a handshake, only while there is no master key, and
/// only where the handshake holds the magic header and a verifying key that
/// accepts its signature; it is named by that key. While there is a master key
/// a handshake changes nothing.
pub proof fn law_trust_needs_a_signature(
    msg_id: u8,
    first: PartModel,
    second: PartModel,
    whole: Seq<u8>,
    has_master_key: bool,
)
    ensures
        ({
            let o = outcome(msg_id, first, second, whole, has_master_key);
            &&& o matches ReceivedModel::Trusted { peer, key } ==> {
                &&& msg_id == 255
                &&& !has_master_key
                &&& whole.len() >= 960
                &&& whole.subrange(0, 16) == identity::MAGIC_HEADER@
                &&& identity::ed25519_is_key(whole.subrange(848, 880))
                &&& identity::ed25519_accepts(
                    whole.subrange(848, 880),
                    whole.subrange(48, 848),
                    whole.subrange(880, 944),
                )
                &&& peer == identity::fingerprint_of(whole.subrange(848, 880))
                &&& key == gf256_shamir::rejoined(first.share, second.share)
            }
            &&& msg_id == 255 && has_master_key ==> o == ReceivedModel::AlreadyTrusted
            &&& msg_id == 255 && !has_master_key && identity::handshake_outcome(whole) is Err ==> o
                is Rejected
            &&& msg_id != 255 ==> o is Decoded || o is Undecodable
        }),
{
    identity::law_handshake_passes_where_signed(whole);
    if whole.len() >= 960 {
        assert(whole.subrange(16, 880).subrange(832, 864) =~= whole.subrange(848, 880));
    }
}

} // verus!
