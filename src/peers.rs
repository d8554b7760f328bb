//! The peer registry and the text protocol spoken with each connection.
//!
//! Frames are comma-separated text whose first field names the command.
//! Handling a frame updates the registry and the game and yields the
//! messages to deliver, each addressed to a connection by its identity.
use vstd::prelude::*;
use vstd::string::*;
use crate::game::{GameData, placed};
use crate::text::{dec, fixed, decimal_value, write_dec, write_fixed, parse_fixed};

verus! {

/// A connected player: its identity and the paddle position it last reported.
#[derive(Clone, Copy, Debug, PartialEq, Eq, Structural)]
pub struct PeerEntry {
    pub player_id: u64,
    pub pallet_pos: i64,
}

impl PeerEntry {
    pub open spec fn new_spec(id: u64) -> PeerEntry {
        PeerEntry { player_id: id, pallet_pos: 0 }
    }

    /// A new entry for identity `id`, at position zero.
    pub fn new(id: u64) -> (r: PeerEntry)
        ensures
            r == PeerEntry::new_spec(id),
    {
        PeerEntry { player_id: id, pallet_pos: 0 }
    }
}

/// A message and the identity of the connection it goes to.
#[derive(Debug)]
pub struct Outgoing {
    pub to: u64,
    pub text: String,
}

/// What a new connection is told: its identity, then its messages in order.
#[derive(Debug)]
pub struct Greeting {
    pub id: u64,
    pub messages: Vec<String>,
}

/// Why a frame was not handled.
#[derive(Clone, Copy, Debug, PartialEq, Eq, Structural)]
pub enum FrameError {
    /// The sender is not in the registry.
    UnknownPeer,
    /// A `pallet_pos` frame without a readable position.
    Malformed,
}

/// What an inbound frame asks for.
#[derive(Clone, Copy, Debug, PartialEq, Eq, Structural)]
pub enum Frame {
    /// `pallet_pos,<position>`: the sender's paddle is at this position (thousandths).
    Position(i64),
    /// `get_state`: the sender wants the ball and the opposing paddle.
    GetState,
    /// Any other first field.
    Other,
    /// `pallet_pos` without a readable position.
    Malformed,
}

/// The connected players, at most one entry per identity, and the last
/// identity handed out.
#[derive(Debug)]
pub struct PeerRegistry {
    pub peers: Vec<PeerEntry>,
    pub next_id: u64,
}

pub open spec fn ids_unique(peers: Seq<PeerEntry>) -> bool {
    forall|i: int, j: int|
        0 <= i < peers.len() && 0 <= j < peers.len() && i != j ==> #[trigger] peers[i].player_id
            != #[trigger] peers[j].player_id
}

pub open spec fn has_peer(peers: Seq<PeerEntry>, id: u64) -> bool {
    exists|i: int| 0 <= i < peers.len() && #[trigger] peers[i].player_id == id
}

/// Where the entry of `id` stands.
pub open spec fn peer_index(peers: Seq<PeerEntry>, id: u64) -> int {
    choose|i: int| 0 <= i < peers.len() && #[trigger] peers[i].player_id == id
}

/// The messages of a broadcast of `text` from `from`: one to each other
/// entry, in registry order.
pub open spec fn broadcast(peers: Seq<PeerEntry>, from: u64, text: Seq<char>) -> Seq<
    (u64, Seq<char>),
>
    decreases peers.len(),
{
    if peers.len() == 0 {
        seq![]
    } else {
        let rest = broadcast(peers.drop_last(), from, text);
        if peers.last().player_id != from {
            rest.push((peers.last().player_id, text))
        } else {
            rest
        }
    }
}

/// Addressed messages as identities and texts.
pub open spec fn sent(v: Seq<Outgoing>) -> Seq<(u64, Seq<char>)> {
    v.map_values(|o: Outgoing| (o.to, o.text@))
}

pub open spec fn texts(v: Seq<String>) -> Seq<Seq<char>> {
    v.map_values(|s: String| s@)
}

/// `id,<id>`
pub open spec fn id_msg(id: u64) -> Seq<char> {
    "id,"@ + dec(id as nat)
}

/// `pallet_pos,<id>,<position>`
pub open spec fn pallet_msg(id: u64, pos: i64) -> Seq<char> {
    "pallet_pos,"@ + dec(id as nat) + ","@ + fixed(pos as int)
}

/// `ball_pos,<x>,<y>`
pub open spec fn ball_msg(x: i64, y: i64) -> Seq<char> {
    "ball_pos,"@ + fixed(x as int) + ","@ + fixed(y as int)
}

/// `bot_pos,<position>`
pub open spec fn bot_msg(pos: i64) -> Seq<char> {
    "bot_pos,"@ + fixed(pos as int)
}

/// What a newcomer learns of the registry: each entry's last position.
pub open spec fn snapshot_of(peers: Seq<PeerEntry>) -> Seq<Seq<char>> {
    peers.map_values(|p: PeerEntry| pallet_msg(p.player_id, p.pallet_pos))
}

/// `e` ends the field of `s` that starts at `from`.
pub open spec fn ends_field(s: Seq<char>, from: int, e: int) -> bool {
    &&& from <= e <= s.len()
    &&& forall|j: int| from <= j < e ==> #[trigger] s[j] != ','
    &&& (e == s.len() || s[e] == ',')
}

/// Where the field of `s` that starts at `from` ends: the next comma, or the end.
pub open spec fn field_end(s: Seq<char>, from: int) -> int {
    choose|e: int| ends_field(s, from, e)
}

/// The command of frame `s`.
pub open spec fn frame_of(s: Seq<char>) -> Frame {
    let e = field_end(s, 0);
    let head = s.take(e);
    if head == "pallet_pos"@ {
        if e < s.len() {
            match decimal_value(s.subrange(e + 1, field_end(s, e + 1))) {
                Some(v) => Frame::Position(v as i64),
                None => Frame::Malformed,
            }
        } else {
            Frame::Malformed
        }
    } else if head == "get_state"@ {
        Frame::GetState
    } else {
        Frame::Other
    }
}

/// The end of the field of `s` that starts at `from`.
fn find_field_end(s: &str, from: usize) -> (r: usize)
    requires
        from <= s@.len(),
    ensures
        r == field_end(s@, from as int),
        ends_field(s@, from as int, r as int),
{
    let n: usize = s.unicode_len();
    let mut i: usize = from;
    while i < n
        invariant
            n == s@.len(),
            from <= i <= n,
            forall|j: int| from <= j < i ==> #[trigger] s@[j] != ',',
        ensures
            from <= i <= n,
            forall|j: int| from <= j < i ==> #[trigger] s@[j] != ',',
            i == n || s@[i as int] == ',',
        decreases n - i,
    {
        if s.get_char(i) == ',' {
            break;
        }
        i = i + 1;
    }
    assert(ends_field(s@, from as int, i as int));
    assert forall|e: int| ends_field(s@, from as int, e) implies e == i by {
        if e < i {
            assert(s@[e] != ',');
        } else if e > i {
            assert(s@[i as int] != ',');
        }
    }
    i
}

/// Whether the first `to` characters of `s` are exactly `lit`.
fn starts_as(s: &str, to: usize, lit: &str) -> (r: bool)
    requires
        to <= s@.len(),
    ensures
        r == (s@.take(to as int) == lit@),
{
    let n: usize = lit.unicode_len();
    if n != to {
        assert(s@.take(to as int).len() != lit@.len());
        return false;
    }
    let mut i: usize = 0;
    while i < n
        invariant
            n == lit@.len(),
            n == to,
            to <= s@.len(),
            i <= n,
            forall|j: int| 0 <= j < i ==> s@[j] == lit@[j],
        decreases n - i,
    {
        if s.get_char(i) != lit.get_char(i) {
            assert(s@.take(to as int)[i as int] != lit@[i as int]);
            return false;
        }
        i = i + 1;
    }
    assert(s@.take(to as int) =~= lit@);
    true
}

/// Reads the command of an inbound frame.
pub fn parse_frame(text: &str) -> (r: Frame)
    ensures
        r == frame_of(text@),
{
    let n: usize = text.unicode_len();
    let e: usize = find_field_end(text, 0);
    if starts_as(text, e, "pallet_pos") {
        if e < n {
            let e2: usize = find_field_end(text, e + 1);
            let field: &str = text.substring_char(e + 1, e2);
            match parse_fixed(field) {
                Some(v) => Frame::Position(v),
                None => Frame::Malformed,
            }
        } else {
            Frame::Malformed
        }
    } else if starts_as(text, e, "get_state") {
        Frame::GetState
    } else {
        Frame::Other
    }
}

/// `pallet_pos,<id>,<position>`
pub fn pallet_message(id: u64, pos: i64) -> (r: String)
    ensures
        r@ == pallet_msg(id, pos),
{
    let mut s: String = String::from_str("pallet_pos,");
    write_dec(&mut s, id);
    s.append(",");
    write_fixed(&mut s, pos);
    s
}

/// `id,<id>`
pub fn id_message(id: u64) -> (r: String)
    ensures
        r@ == id_msg(id),
{
    let mut s: String = String::from_str("id,");
    write_dec(&mut s, id);
    s
}

/// `ball_pos,<x>,<y>`
pub fn ball_message(x: i64, y: i64) -> (r: String)
    ensures
        r@ == ball_msg(x, y),
{
    let mut s: String = String::from_str("ball_pos,");
    write_fixed(&mut s, x);
    s.append(",");
    write_fixed(&mut s, y);
    s
}

/// `bot_pos,<position>`
pub fn bot_message(pos: i64) -> (r: String)
    ensures
        r@ == bot_msg(pos),
{
    let mut s: String = String::from_str("bot_pos,");
    write_fixed(&mut s, pos);
    s
}

impl PeerRegistry {
    /// Identities are unique and none is past the last one handed out.
    pub open spec fn wf(&self) -> bool {
        &&& ids_unique(self.peers@)
        &&& forall|i: int| 0 <= i < self.peers@.len() ==> #[trigger] self.peers@[i].player_id
            <= self.next_id
    }

    pub open spec fn has(&self, id: u64) -> bool {
        has_peer(self.peers@, id)
    }

    /// An empty registry; no identity handed out yet.
    pub fn new() -> (r: PeerRegistry)
        ensures
            r.wf(),
            r.peers@ == Seq::<PeerEntry>::empty(),
            r.next_id == 0,
    {
        PeerRegistry { peers: Vec::new(), next_id: 0 }
    }

    /// Finds the entry of `id`.
    fn find(&self, id: u64) -> (r: Option<usize>)
        requires
            self.wf(),
        ensures
            r is Some <==> self.has(id),
            r is Some ==> r->0 == peer_index(self.peers@, id) && r->0 < self.peers@.len()
                && self.peers@[r->0 as int].player_id == id,
    {
        let mut i: usize = 0;
        while i < self.peers.len()
            invariant
                self.wf(),
                i <= self.peers@.len(),
                forall|j: int| 0 <= j < i ==> #[trigger] self.peers@[j].player_id != id,
            decreases self.peers@.len() - i,
        {
            if self.peers[i].player_id == id {
                assert(self.has(id));
                let ghost k = peer_index(self.peers@, id);
                assert(k == i) by {
                    if k != i {
                        assert(self.peers@[k].player_id != self.peers@[i as int].player_id);
                    }
                }
                return Some(i);
            }
            i = i + 1;
        }
        None
    }

    /// The last position of every entry, one `pallet_pos` message each, in registry order.
    pub fn snapshot(&self) -> (r: Vec<String>)
        ensures
            texts(r@) == snapshot_of(self.peers@),
    {
        let mut out: Vec<String> = Vec::new();
        let mut i: usize = 0;
        while i < self.peers.len()
            invariant
                i <= self.peers@.len(),
                out@.len() == i,
                texts(out@) == snapshot_of(self.peers@.take(i as int)),
            decreases self.peers@.len() - i,
        {
            let p: PeerEntry = self.peers[i];
            let m: String = pallet_message(p.player_id, p.pallet_pos);
            let ghost prev = out@;
            out.push(m);
            proof {
                let now = snapshot_of(self.peers@.take(i as int + 1));
                assert(texts(out@).len() == now.len());
                assert forall|j: int| 0 <= j < now.len() implies texts(out@)[j] == now[j] by {
                    if j < i {
                        assert(out@[j] == prev[j]);
                        assert(texts(prev)[j] == snapshot_of(self.peers@.take(i as int))[j]);
                    }
                }
                assert(texts(out@) =~= now);
            }
            i = i + 1;
        }
        assert(self.peers@.take(i as int) =~= self.peers@);
        out
    }

    /// Admits a new connection: hands out the next identity, tells it that
    /// identity and every present entry's last position, then adds its
    /// entry at position zero. `None`, with nothing changed, once every
    /// identity has been handed out.
    pub fn connect(&mut self) -> (r: Option<Greeting>)
        requires
            old(self).wf(),
        ensures
            final(self).wf(),
            old(self).next_id == u64::MAX ==> r is None && *final(self) == *old(self),
            old(self).next_id < u64::MAX ==> {
                &&& r is Some
                &&& r->0.id == old(self).next_id + 1
                &&& texts(r->0.messages@) == seq![id_msg(r->0.id)] + snapshot_of(
                    old(self).peers@,
                )
                &&& final(self).peers@ == old(self).peers@.push(PeerEntry::new_spec(r->0.id))
                &&& final(self).next_id == r->0.id
            },
    {
        if self.next_id == u64::MAX {
            return None;
        }
        let id: u64 = self.next_id + 1;
        let mut messages: Vec<String> = Vec::new();
        messages.push(id_message(id));
        let mut rest: Vec<String> = self.snapshot();
        messages.append(&mut rest);
        assert(texts(messages@) =~= seq![id_msg(id)] + snapshot_of(old(self).peers@));
        self.peers.push(PeerEntry::new(id));
        self.next_id = id;
        Some(Greeting { id, messages })
    }

    /// Removes the entry of `id`, if there is one; identities are not handed out again.
    pub fn disconnect(&mut self, id: u64) -> (r: bool)
        requires
            old(self).wf(),
        ensures
            final(self).wf(),
            r == old(self).has(id),
            r ==> final(self).peers@ == old(self).peers@.remove(peer_index(old(self).peers@, id)),
            !r ==> *final(self) == *old(self),
            final(self).next_id == old(self).next_id,
            !final(self).has(id),
    {
        match self.find(id) {
            Some(i) => {
                self.peers.remove(i);
                proof {
                    lemma_remove_unique(old(self).peers@, id);
                }
                true
            },
            None => false,
        }
    }

    /// Handles one frame from connection `from` and returns what to deliver.
    ///
    /// - `pallet_pos,<p>`: records `p` in the sender's entry, places the
    ///   first paddle at `p` (held on the board), and broadcasts
    ///   `pallet_pos,<from>,<p>` to every other entry.
    /// - `get_state`: replies `ball_pos,<x>,<y>` then `bot_pos,<q>` (the
    ///   second paddle) to the sender alone.
    /// - anything else: broadcasts the sender's last position to every other entry.
    ///
    /// A `pallet_pos` frame without a readable position, or a sender not in
    /// the registry, is an error that changes nothing.
    pub fn handle_frame(&mut self, game: &mut GameData, from: u64, text: &str) -> (r: Result<
        Vec<Outgoing>,
        FrameError,
    >)
        requires
            old(self).wf(),
            old(game).wf(),
        ensures
            final(self).wf(),
            final(game).wf(),
            final(self).next_id == old(self).next_id,
            !old(self).has(from) ==> r == Err::<Vec<Outgoing>, FrameError>(FrameError::UnknownPeer)
                && *final(self) == *old(self) && *final(game) == *old(game),
            old(self).has(from) ==> match frame_of(text@) {
                Frame::Position(v) => {
                    &&& r is Ok
                    &&& sent(r->Ok_0@) == broadcast(old(self).peers@, from, pallet_msg(from, v))
                    &&& final(self).peers@ == old(self).peers@.update(
                        peer_index(old(self).peers@, from),
                        PeerEntry { player_id: from, pallet_pos: v },
                    )
                    &&& *final(game) == (GameData {
                        player1: placed(old(game).player1, v as int),
                        ..*old(game)
                    })
                },
                Frame::GetState => {
                    &&& r is Ok
                    &&& sent(r->Ok_0@) == seq![
                        (from, ball_msg(old(game).ball.0, old(game).ball.1)),
                        (from, bot_msg(old(game).player2.position)),
                    ]
                    &&& *final(self) == *old(self)
                    &&& *final(game) == *old(game)
                },
                Frame::Other => {
                    &&& r is Ok
                    &&& sent(r->Ok_0@) == broadcast(
                        old(self).peers@,
                        from,
                        pallet_msg(
                            from,
                            old(self).peers@[peer_index(old(self).peers@, from)].pallet_pos,
                        ),
                    )
                    &&& *final(self) == *old(self)
                    &&& *final(game) == *old(game)
                },
                Frame::Malformed => {
                    &&& r == Err::<Vec<Outgoing>, FrameError>(FrameError::Malformed)
                    &&& *final(self) == *old(self)
                    &&& *final(game) == *old(game)
                },
            },
    {
        let i: usize = match self.find(from) {
            Some(i) => i,
            None => {
                return Err(FrameError::UnknownPeer);
            },
        };
        match parse_frame(text) {
            Frame::Position(v) => {
                self.peers.set(i, PeerEntry { player_id: from, pallet_pos: v });
                game.place_player(1, v);
                proof {
                    assert forall|a: int, b: int|
                        0 <= a < self.peers@.len() && 0 <= b < self.peers@.len() && a != b
                            implies #[trigger] self.peers@[a].player_id
                        != #[trigger] self.peers@[b].player_id by {
                        assert(old(self).peers@[a].player_id != old(self).peers@[b].player_id);
                    }
                    assert forall|a: int| 0 <= a < self.peers@.len() implies #[trigger] self.peers@[a].player_id
                        <= self.next_id by {
                        assert(old(self).peers@[a].player_id <= self.next_id);
                    }
                }
                let out: Vec<Outgoing> = self.broadcast_from(from, pallet_message(from, v));
                proof {
                    lemma_broadcast_by_ids(self.peers@, old(self).peers@, from, pallet_msg(from, v));
                }
                Ok(out)
            },
            Frame::GetState => {
                let mut out: Vec<Outgoing> = Vec::new();
                out.push(Outgoing { to: from, text: ball_message(game.ball.0, game.ball.1) });
                out.push(Outgoing { to: from, text: bot_message(game.player2.position) });
                assert(sent(out@) =~= seq![
                    (from, ball_msg(game.ball.0, game.ball.1)),
                    (from, bot_msg(game.player2.position)),
                ]);
                Ok(out)
            },
            Frame::Other => {
                let pos: i64 = self.peers[i].pallet_pos;
                let out: Vec<Outgoing> = self.broadcast_from(from, pallet_message(from, pos));
                Ok(out)
            },
            Frame::Malformed => Err(FrameError::Malformed),
        }
    }

    /// `text`, addressed to every entry but `from`, in registry order.
    fn broadcast_from(&self, from: u64, text: String) -> (r: Vec<Outgoing>)
        ensures
            sent(r@) == broadcast(self.peers@, from, text@),
    {
        let mut out: Vec<Outgoing> = Vec::new();
        let mut i: usize = 0;
        while i < self.peers.len()
            invariant
                i <= self.peers@.len(),
                sent(out@) == broadcast(self.peers@.take(i as int), from, text@),
            decreases self.peers@.len() - i,
        {
            let id: u64 = self.peers[i].player_id;
            assert(self.peers@.take(i as int + 1).drop_last() =~= self.peers@.take(i as int));
            if id != from {
                out.push(Outgoing { to: id, text: text.clone() });
                assert(sent(out@) =~= broadcast(self.peers@.take(i as int + 1), from, text@));
            }
            i = i + 1;
        }
        assert(self.peers@.take(i as int) =~= self.peers@);
        out
    }
}

/// A broadcast depends on the identities of the entries alone.
proof fn lemma_broadcast_by_ids(a: Seq<PeerEntry>, b: Seq<PeerEntry>, from: u64, text: Seq<char>)
    requires
        a.len() == b.len(),
        forall|i: int| 0 <= i < a.len() ==> #[trigger] a[i].player_id == b[i].player_id,
    ensures
        broadcast(a, from, text) == broadcast(b, from, text),
    decreases a.len(),
{
    if a.len() > 0 {
        lemma_broadcast_by_ids(a.drop_last(), b.drop_last(), from, text);
        assert(a.last().player_id == b.last().player_id);
    }
}

/// Every message of a broadcast carries its text to a present entry other than the sender.
pub proof fn lemma_broadcast_recipients(peers: Seq<PeerEntry>, from: u64, text: Seq<char>)
    ensures
        forall|k: int|
            0 <= k < broadcast(peers, from, text).len() ==> {
                let m = #[trigger] broadcast(peers, from, text)[k];
                &&& m.0 != from
                &&& m.1 == text
                &&& has_peer(peers, m.0)
            },
    decreases peers.len(),
{
    if peers.len() > 0 {
        let rest = peers.drop_last();
        lemma_broadcast_recipients(rest, from, text);
        let b = broadcast(peers, from, text);
        assert forall|k: int| 0 <= k < b.len() implies has_peer(peers, #[trigger] b[k].0) by {
            if k < broadcast(rest, from, text).len() {
                let m = broadcast(rest, from, text)[k];
                let a = choose|a: int| 0 <= a < rest.len() && #[trigger] rest[a].player_id == m.0;
                assert(peers[a] == rest[a]);
            } else {
                assert(peers[peers.len() - 1].player_id == b[k].0);
            }
        }
    }
}

/// How many of `msgs` go to `id`.
pub open spec fn count_to(msgs: Seq<(u64, Seq<char>)>, id: u64) -> nat
    decreases msgs.len(),
{
    if msgs.len() == 0 {
        0
    } else {
        count_to(msgs.drop_last(), id) + if msgs.last().0 == id {
            1nat
        } else {
            0nat
        }
    }
}

/// With unique identities, a broadcast sends exactly one message to each
/// present identity other than the sender, and none to the sender or to an
/// identity that is not present.
pub proof fn lemma_broadcast_once_each(peers: Seq<PeerEntry>, from: u64, text: Seq<char>, id: u64)
    requires
        ids_unique(peers),
    ensures
        count_to(broadcast(peers, from, text), id) == if id != from && has_peer(peers, id) {
            1nat
        } else {
            0nat
        },
    decreases peers.len(),
{
    if peers.len() > 0 {
        let rest = peers.drop_last();
        let last = peers.last();
        assert(ids_unique(rest)) by {
            assert forall|a: int, b: int|
                0 <= a < rest.len() && 0 <= b < rest.len() && a != b implies #[trigger] rest[a].player_id
                != #[trigger] rest[b].player_id by {
                assert(rest[a] == peers[a] && rest[b] == peers[b]);
            }
        }
        lemma_broadcast_once_each(rest, from, text, id);
        let b = broadcast(rest, from, text);
        if last.player_id != from {
            assert(b.push((last.player_id, text)).drop_last() =~= b);
        }
        if last.player_id == id {
            assert(!has_peer(rest, id)) by {
                if has_peer(rest, id) {
                    let a = choose|a: int| 0 <= a < rest.len() && #[trigger] rest[a].player_id == id;
                    assert(peers[a].player_id == peers[peers.len() - 1].player_id);
                }
            }
            assert(peers[peers.len() - 1].player_id == id);
        } else {
            assert(has_peer(peers, id) == has_peer(rest, id)) by {
                if has_peer(peers, id) {
                    let a = choose|a: int| 0 <= a < peers.len() && #[trigger] peers[a].player_id == id;
                    assert(a != peers.len() - 1);
                    assert(rest[a] == peers[a]);
                }
                if has_peer(rest, id) {
                    let a = choose|a: int| 0 <= a < rest.len() && #[trigger] rest[a].player_id == id;
                    assert(rest[a] == peers[a]);
                }
            }
        }
    }
}

/// Disconnecting a registered identity removes exactly one entry and keeps
/// every other identity; no broadcast over what remains, from any sender,
/// is addressed to the removed identity.
pub proof fn lemma_disconnect_removes_one(
    peers: Seq<PeerEntry>,
    id: u64,
    from: u64,
    text: Seq<char>,
)
    requires
        ids_unique(peers),
        has_peer(peers, id),
    ensures
        ({
            let rest = peers.remove(peer_index(peers, id));
            &&& rest.len() == peers.len() - 1
            &&& !has_peer(rest, id)
            &&& forall|o: u64| o != id ==> (has_peer(rest, o) <==> has_peer(peers, o))
            &&& forall|k: int|
                0 <= k < broadcast(rest, from, text).len() ==> (#[trigger] broadcast(
                    rest,
                    from,
                    text,
                )[k]).0 != id
        }),
{
    lemma_remove_unique(peers, id);
    lemma_broadcast_recipients(peers.remove(peer_index(peers, id)), from, text);
}

/// Removing the entry of `id` from a registry with unique identities drops
/// exactly that entry: one fewer, `id` gone, every other identity kept.
proof fn lemma_remove_unique(peers: Seq<PeerEntry>, id: u64)
    requires
        ids_unique(peers),
        has_peer(peers, id),
    ensures
        ({
            let rest = peers.remove(peer_index(peers, id));
            &&& rest.len() == peers.len() - 1
            &&& ids_unique(rest)
            &&& !has_peer(rest, id)
            &&& forall|o: u64| o != id ==> (has_peer(rest, o) <==> has_peer(peers, o))
        }),
{
    let k = peer_index(peers, id);
    let rest = peers.remove(k);
    assert forall|a: int, b: int|
        0 <= a < rest.len() && 0 <= b < rest.len() && a != b implies #[trigger] rest[a].player_id
        != #[trigger] rest[b].player_id by {
        let a2 = if a < k { a } else { a + 1 };
        let b2 = if b < k { b } else { b + 1 };
        assert(rest[a] == peers[a2]);
        assert(rest[b] == peers[b2]);
    }
    assert(!has_peer(rest, id)) by {
        if has_peer(rest, id) {
            let a = choose|a: int| 0 <= a < rest.len() && #[trigger] rest[a].player_id == id;
            let a2 = if a < k { a } else { a + 1 };
            assert(rest[a] == peers[a2]);
        }
    }
    assert forall|o: u64| o != id implies (has_peer(rest, o) <==> has_peer(peers, o)) by {
        if has_peer(rest, o) {
            let a = choose|a: int| 0 <= a < rest.len() && #[trigger] rest[a].player_id == o;
            let a2 = if a < k { a } else { a + 1 };
            assert(rest[a] == peers[a2]);
        }
        if has_peer(peers, o) {
            let a = choose|a: int| 0 <= a < peers.len() && #[trigger] peers[a].player_id == o;
            assert(a != k);
            let a2 = if a < k { a } else { a - 1 };
            assert(rest[a2] == peers[a]);
        }
    }
}

} // verus!
