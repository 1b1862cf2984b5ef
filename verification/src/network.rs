//! The multiplayer protocol model: packet types, the server's
//! per-connection bookkeeping, and the byte framing that splits a raw
//! stream into one-packet frames.
//!
//! Frames on the wire are newline-delimited: each packet is one encoded
//! value followed by a single line-feed byte.

use vstd::prelude::*;

use crate::voxel::voxelevent::VoxelEvent;
use crate::world::block::BlockID;
use crate::world::dimension::WorldPos;

verus! {

/// Replaces a client's recorded position, or records it anew: every
/// earlier entry for the client is dropped, every other entry is kept in
/// order, and the new entry stands last.
pub fn upsert_player_position(table: &mut Vec<(u64, WorldPos)>, client_id: u64, pos: WorldPos)
    ensures
        final(table)@ == old(table)@.filter(|e: (u64, WorldPos)| e.0 != client_id).push(
            (client_id, pos),
        ),
{
    let ghost pred = |e: (u64, WorldPos)| e.0 != client_id;
    let mut kept: Vec<(u64, WorldPos)> = Vec::new();
    let mut k: usize = 0;
    proof {
        reveal(Seq::filter);
        assert(old(table)@.subrange(0, 0) =~= Seq::<(u64, WorldPos)>::empty());
        assert(kept@ =~= old(table)@.subrange(0, 0).filter(pred));
    }
    while k < table.len()
        invariant
            *table == *old(table),
            k <= table@.len(),
            pred == (|e: (u64, WorldPos)| e.0 != client_id),
            kept@ == old(table)@.subrange(0, k as int).filter(pred),
        decreases table@.len() - k,
    {
        let e = table[k];
        if e.0 != client_id {
            kept.push(e);
        }
        k = k + 1;
        proof {
            reveal(Seq::filter);
            let pre = old(table)@.subrange(0, k - 1);
            let cur = old(table)@.subrange(0, k as int);
            assert(cur.drop_last() =~= pre);
            assert(cur.last() == old(table)@[k - 1]);
            assert(kept@ == cur.filter(pred));
        }
    }
    proof {
        assert(old(table)@.subrange(0, table@.len() as int) =~= old(table)@);
    }
    kept.push((client_id, pos));
    *table = kept;
}

/// An opaque id distinguishing one client connection from another.
pub type Identity = u64;

/// A position on the wire: three 32-bit float coordinates carried as
/// their raw bit patterns.
#[derive(Clone, Copy, Debug, PartialEq, Eq, Structural)]
pub struct NetPosition {
    pub x_bits: u32,
    pub y_bits: u32,
    pub z_bits: u32,
}

/// What a client can tell the server.
#[derive(Clone, Copy, Debug)]
pub enum ToServerPacketData {
    Ping,
    VoxEv(VoxelEvent<BlockID, i32>),
    UpdateMyPosition(NetPosition),
    Disconnect,
}

/// One packet bound for the server.
#[derive(Clone, Copy, Debug)]
pub struct ToServerPacket {
    pub data: ToServerPacketData,
}

/// A server-bound packet together with the connection it arrived on.
#[derive(Clone, Copy, Debug)]
pub struct QualifiedToServerPacket {
    pub client_id: Identity,
    pub pak: ToServerPacket,
}

/// What the server can tell a client.
#[derive(Clone, Copy, Debug)]
pub enum ToClientPacketData {
    Ping,
    VoxEv(VoxelEvent<BlockID, i32>),
    UpdatePlayer(u64, NetPosition),
    Kick,
}

/// One packet bound for a client.
#[derive(Clone, Copy, Debug)]
pub struct ToClientPacket {
    pub data: ToClientPacketData,
}

/// A client-bound packet together with the connection that caused it.
#[derive(Clone, Copy, Debug)]
pub struct QualifiedToClientPacket {
    pub client_id: Identity,
    pub pak: ToClientPacket,
}

/// The server's connection bookkeeping: the connected clients, each with
/// its queue of outbound packets, and the inbound packets collected from
/// all of them. The socket work around it hands packets in and carries
/// queued packets out.
pub struct ServerState {
    clients: Vec<(Identity, Vec<ToClientPacket>)>,
    inbound: Vec<QualifiedToServerPacket>,
}

impl ServerState {
    /// The connected client ids, in connection order.
    pub closed spec fn client_ids(&self) -> Seq<int> {
        Seq::new(self.clients@.len(), |k: int| self.clients@[k].0 as int)
    }

    /// The outbound queue of the client at a storage index.
    pub closed spec fn outbound_at(&self, k: int) -> Seq<ToClientPacket> {
        self.clients@[k].1@
    }

    /// The inbound packets collected and not yet polled, in order.
    pub closed spec fn inbound_view(&self) -> Seq<QualifiedToServerPacket> {
        self.inbound@
    }

    /// Whether a client id is connected.
    pub open spec fn connected(&self, id: int) -> bool {
        exists|k: int| 0 <= k < self.client_ids().len() && #[trigger] self.client_ids()[k] == id
    }

    /// Client ids are unique.
    #[verifier::type_invariant]
    spec fn wf(&self) -> bool {
        forall|k1: int, k2: int|
            0 <= k1 < k2 < self.clients@.len() ==> (#[trigger] self.clients@[k1]).0 != (
            #[trigger] self.clients@[k2]).0
    }

    /// A server with no connections and nothing pending.
    pub fn new() -> (r: ServerState)
        ensures
            r.client_ids().len() == 0,
            r.inbound_view().len() == 0,
    {
        ServerState { clients: Vec::new(), inbound: Vec::new() }
    }

    /// Finds the storage index of a client id.
    fn find(&self, id: Identity) -> (r: Option<usize>)
        ensures
            match r {
                Some(k) => k < self.client_ids().len() && self.client_ids()[k as int] == id,
                None => !self.connected(id as int),
            },
    {
        let mut k: usize = 0;
        while k < self.clients.len()
            invariant
                k <= self.client_ids().len(),
                self.client_ids().len() == self.clients@.len(),
                forall|j: int| 0 <= j < k ==> #[trigger] self.client_ids()[j] != id,
            decreases self.clients@.len() - k,
        {
            if self.clients[k].0 == id {
                proof {
                    assert(self.client_ids()[k as int] == id);
                }
                return Some(k);
            }
            k = k + 1;
        }
        None
    }

    /// Records a newly accepted connection; reports whether the id was
    /// new. A fresh connection starts with an empty outbound queue.
    pub fn client_connected(&mut self, id: Identity) -> (r: bool)
        ensures
            r == !old(self).connected(id as int),
            r ==> final(self).client_ids() == old(self).client_ids().push(id as int) && final(self).outbound_at(old(self).client_ids().len() as int).len() == 0 && forall|k: int|
                0 <= k < old(self).client_ids().len() ==> #[trigger] final(self).outbound_at(k)
                    == old(self).outbound_at(k),
            !r ==> *final(self) == *old(self),
            final(self).inbound_view() == old(self).inbound_view(),
    {
        proof {
            use_type_invariant(&*self);
        }
        if self.find(id).is_some() {
            return false;
        }
        let ghost pre = *self;
        let mut table: Vec<(Identity, Vec<ToClientPacket>)> = Vec::new();
        std::mem::swap(&mut table, &mut self.clients);
        table.push((id, Vec::new()));
        proof {
            assert forall|k1: int, k2: int|
                0 <= k1 < k2 < table@.len() implies table@[k1].0 as int != table@[k2].0 as int by {
                if k2 == table@.len() - 1 {
                    if table@[k1].0 == id {
                        assert(pre.client_ids()[k1] == id as int);
                    }
                } else {
                    assert(pre.client_ids()[k1] != pre.client_ids()[k2]);
                }
            }
        }
        self.clients = table;
        proof {
            assert(self.client_ids() =~= pre.client_ids().push(id as int));
        }
        true
    }

    /// Drops a connection that disconnected or errored; reports whether
    /// it was present. Its queued outbound packets are discarded.
    pub fn client_disconnected(&mut self, id: Identity) -> (r: bool)
        ensures
            r == old(self).connected(id as int),
            !final(self).connected(id as int),
            final(self).inbound_view() == old(self).inbound_view(),
    {
        proof {
            use_type_invariant(&*self);
        }
        let k = match self.find(id) {
            Some(k) => k,
            None => {
                return false;
            },
        };
        let ghost pre = *self;
        let mut table: Vec<(Identity, Vec<ToClientPacket>)> = Vec::new();
        std::mem::swap(&mut table, &mut self.clients);
        table.remove(k);
        proof {
            assert forall|k1: int, k2: int|
                0 <= k1 < k2 < table@.len() implies table@[k1].0 as int != table@[k2].0 as int by {
                let m1: int = if k1 < k {
                    k1
                } else {
                    k1 + 1
                };
                let m2: int = if k2 < k {
                    k2
                } else {
                    k2 + 1
                };
                assert(table@[k1] == pre.clients@[m1]);
                assert(table@[k2] == pre.clients@[m2]);
                assert(pre.client_ids()[m1] != pre.client_ids()[m2]);
            }
        }
        self.clients = table;
        proof {
            assert(pre.client_ids()[k as int] == id as int);
            assert forall|j: int|
                0 <= j < self.client_ids().len() implies #[trigger] self.client_ids()[j] != id
                as int by {
                let m: int = if j < k {
                    j
                } else {
                    j + 1
                };
                assert(self.clients@[j] == pre.clients@[m]);
                assert(self.client_ids()[j] == pre.client_ids()[m]);
                if m != k {
                    assert(pre.client_ids()[m] != pre.client_ids()[k as int]);
                }
            }
        }
        true
    }

    /// Collects one inbound packet from a connection for the next poll.
    pub fn push_inbound(&mut self, pak: QualifiedToServerPacket)
        ensures
            final(self).inbound_view() == old(self).inbound_view().push(pak),
            final(self).client_ids() == old(self).client_ids(),
            forall|k: int|
                0 <= k < final(self).client_ids().len() ==> #[trigger] final(self).outbound_at(k)
                    == old(self).outbound_at(k),
    {
        proof {
            use_type_invariant(&*self);
        }
        let mut q: Vec<QualifiedToServerPacket> = Vec::new();
        std::mem::swap(&mut q, &mut self.inbound);
        q.push(pak);
        self.inbound = q;
        proof {
            assert(self.client_ids() =~= old(self).client_ids());
        }
    }

    /// Drains the inbound packets currently available, tagged with their
    /// origin connections, in arrival order.
    pub fn poll(&mut self) -> (r: Vec<QualifiedToServerPacket>)
        ensures
            r@ == old(self).inbound_view(),
            final(self).inbound_view().len() == 0,
            final(self).client_ids() == old(self).client_ids(),
            forall|k: int|
                0 <= k < final(self).client_ids().len() ==> #[trigger] final(self).outbound_at(k)
                    == old(self).outbound_at(k),
    {
        proof {
            use_type_invariant(&*self);
        }
        let mut taken: Vec<QualifiedToServerPacket> = Vec::new();
        std::mem::swap(&mut taken, &mut self.inbound);
        proof {
            assert(self.client_ids() =~= old(self).client_ids());
        }
        taken
    }

    /// Enqueues a packet for delivery to every currently connected
    /// client, the originating one included.
    pub fn queue_broadcast(&mut self, qpak: QualifiedToClientPacket)
        ensures
            final(self).client_ids() == old(self).client_ids(),
            final(self).inbound_view() == old(self).inbound_view(),
            forall|k: int|
                0 <= k < final(self).client_ids().len() ==> #[trigger] final(self).outbound_at(k)
                    == old(self).outbound_at(k).push(qpak.pak),
    {
        proof {
            use_type_invariant(&*self);
        }
        let ghost pre = *self;
        let mut table: Vec<(Identity, Vec<ToClientPacket>)> = Vec::new();
        std::mem::swap(&mut table, &mut self.clients);
        let mut k: usize = 0;
        while k < table.len()
            invariant
                k <= table@.len(),
                table@.len() == pre.clients@.len(),
                forall|j: int|
                    0 <= j < table@.len() ==> (#[trigger] table@[j]).0 == pre.clients@[j].0,
                forall|j: int|
                    0 <= j < k ==> (#[trigger] table@[j]).1@ == pre.outbound_at(j).push(qpak.pak),
                forall|j: int|
                    k <= j < table@.len() ==> (#[trigger] table@[j]).1@ == pre.outbound_at(j),
            decreases table@.len() - k,
        {
            let ghost before = table@;
            let (cid, mut q) = table.remove(k);
            q.push(qpak.pak);
            table.insert(k, (cid, q));
            proof {
                assert(table@ =~= before.update(k as int, table@[k as int]));
            }
            k = k + 1;
        }
        proof {
            assert forall|k1: int, k2: int|
                0 <= k1 < k2 < table@.len() implies table@[k1].0 as int != table@[k2].0 as int by {
                assert(pre.client_ids()[k1] != pre.client_ids()[k2]);
            }
        }
        self.clients = table;
        proof {
            assert(self.client_ids() =~= pre.client_ids());
        }
    }

    /// Drains the outbound queue of one connection for its write loop;
    /// absent when the connection is unknown.
    pub fn take_outbound(&mut self, id: Identity) -> (r: Option<Vec<ToClientPacket>>)
        ensures
            match r {
                Some(v) => old(self).connected(id as int) && exists|k: int|
                    0 <= k < old(self).client_ids().len() && #[trigger] old(self).client_ids()[k]
                        == id && v@ == old(self).outbound_at(k) && final(self).outbound_at(k).len()
                        == 0,
                None => !old(self).connected(id as int) && *final(self) == *old(self),
            },
            final(self).client_ids() == old(self).client_ids(),
            final(self).inbound_view() == old(self).inbound_view(),
    {
        proof {
            use_type_invariant(&*self);
        }
        let k = match self.find(id) {
            Some(k) => k,
            None => {
                return None;
            },
        };
        let ghost pre = *self;
        let mut table: Vec<(Identity, Vec<ToClientPacket>)> = Vec::new();
        std::mem::swap(&mut table, &mut self.clients);
        let (cid, taken) = table.remove(k);
        table.insert(k, (cid, Vec::new()));
        proof {
            assert(table@ =~= pre.clients@.update(k as int, table@[k as int]));
            assert forall|k1: int, k2: int|
                0 <= k1 < k2 < table@.len() implies table@[k1].0 as int != table@[k2].0 as int by {
                assert(pre.client_ids()[k1] != pre.client_ids()[k2]);
                assert(table@[k1].0 == pre.clients@[k1].0);
                assert(table@[k2].0 == pre.clients@[k2].0);
            }
        }
        self.clients = table;
        proof {
            assert(self.client_ids() =~= pre.client_ids());
            assert(pre.client_ids()[k as int] == id as int);
        }
        Some(taken)
    }
}

/// The byte stream a frame list and a remainder reassemble into: each
/// frame followed by one line feed, then the unfinished tail.
pub open spec fn joined(frames: Seq<Seq<u8>>, rest: Seq<u8>) -> Seq<u8>
    decreases frames.len(),
{
    if frames.len() == 0 {
        rest
    } else {
        frames[0] + seq![10u8] + joined(frames.drop_first(), rest)
    }
}

/// Appending a frame joins the same stream as feeding it through the
/// tail.
proof fn lemma_joined_push(frames: Seq<Seq<u8>>, f: Seq<u8>, rest: Seq<u8>)
    ensures
        joined(frames.push(f), rest) == joined(frames, f + seq![10u8] + rest),
    decreases frames.len(),
{
    if frames.len() == 0 {
        assert(frames.push(f).len() == 1);
        assert(frames.push(f)[0] == f);
        assert(frames.push(f).drop_first() =~= frames);
        assert(joined(frames.push(f), rest) == frames.push(f)[0] + seq![10u8] + joined(
            frames.push(f).drop_first(),
            rest,
        ));
        assert(joined(frames, rest) == rest);
        assert(joined(frames, f + seq![10u8] + rest) == f + seq![10u8] + rest);
    } else {
        assert(frames.push(f).drop_first() =~= frames.drop_first().push(f));
        lemma_joined_push(frames.drop_first(), f, rest);
        assert(joined(frames.push(f), rest) == frames.push(f)[0] + seq![10u8] + joined(
            frames.push(f).drop_first(),
            rest,
        ));
        assert(frames.push(f)[0] == frames[0]);
        assert(joined(frames, f + seq![10u8] + rest) == frames[0] + seq![10u8] + joined(
            frames.drop_first(),
            f + seq![10u8] + rest,
        ));
    }
}

/// Two equal tails join equally.
proof fn lemma_joined_congruence(frames: Seq<Seq<u8>>, r1: Seq<u8>, r2: Seq<u8>)
    requires
        r1 == r2,
    ensures
        joined(frames, r1) == joined(frames, r2),
{
}

/// Splits the complete newline-terminated frames off the front of a
/// stream buffer, leaving the unfinished tail in place. No frame and no
/// tail contains the delimiter.
pub fn split_frames(buf: &mut Vec<u8>) -> (frames: Vec<Vec<u8>>)
    ensures
        joined(
            Seq::new(frames@.len(), |k: int| frames@[k]@),
            final(buf)@,
        ) == old(buf)@,
        forall|k: int, j: int|
            0 <= k < frames@.len() && 0 <= j < frames@[k]@.len() ==> #[trigger] frames@[k]@[j]
                != 10u8,
        forall|j: int| 0 <= j < final(buf)@.len() ==> final(buf)@[j] != 10u8,
{
    let ghost orig = buf@;
    let mut frames: Vec<Vec<u8>> = Vec::new();
    let mut current: Vec<u8> = Vec::new();
    let mut i: usize = 0;
    while i < buf.len()
        invariant
            i <= buf@.len(),
            buf@ == orig,
            joined(
                Seq::new(frames@.len(), |k: int| frames@[k]@),
                current@ + orig.subrange(i as int, orig.len() as int),
            ) == orig,
            forall|k: int, j: int|
                0 <= k < frames@.len() && 0 <= j < frames@[k]@.len() ==> #[trigger] frames@[k]@[j]
                    != 10u8,
            forall|j: int| 0 <= j < current@.len() ==> current@[j] != 10u8,
        decreases buf@.len() - i,
    {
        let ghost fv = Seq::new(frames@.len(), |k: int| frames@[k]@);
        let ghost cur0 = current@;
        let b = buf[i];
        if b == 10 {
            frames.push(current);
            current = Vec::new();
            proof {
                let fv2 = Seq::new(frames@.len(), |k: int| frames@[k]@);
                assert(fv2 =~= fv.push(cur0));
                lemma_joined_push(fv, cur0, current@ + orig.subrange(i + 1, orig.len() as int));
                assert(cur0 + seq![10u8] + (current@ + orig.subrange(i + 1, orig.len() as int))
                    =~= cur0 + orig.subrange(i as int, orig.len() as int));
                lemma_joined_congruence(
                    fv,
                    cur0 + seq![10u8] + (current@ + orig.subrange(i + 1, orig.len() as int)),
                    cur0 + orig.subrange(i as int, orig.len() as int),
                );
            }
        } else {
            current.push(b);
            proof {
                assert(current@ + orig.subrange(i + 1, orig.len() as int) =~= cur0
                    + orig.subrange(i as int, orig.len() as int));
                lemma_joined_congruence(
                    fv,
                    current@ + orig.subrange(i + 1, orig.len() as int),
                    cur0 + orig.subrange(i as int, orig.len() as int),
                );
            }
        }
        i = i + 1;
    }
    proof {
        assert(current@ + orig.subrange(orig.len() as int, orig.len() as int) =~= current@);
        lemma_joined_congruence(
            Seq::new(frames@.len(), |k: int| frames@[k]@),
            current@ + orig.subrange(orig.len() as int, orig.len() as int),
            current@,
        );
    }
    let mut out_tail = current;
    std::mem::swap(buf, &mut out_tail);
    frames
}

} // verus!
