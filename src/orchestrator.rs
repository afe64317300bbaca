//! The sync orchestrator's decisions: the peer roster, the online flag, the
//! queue of local entries held while offline, and what each network event
//! leads to. The caller owns the network; it hands events in and performs the
//! actions that come back.
use vstd::prelude::*;
use crate::crdt::{fresh_id, Replica};
use crate::oplog::{OpType, OplogEntry, batch_ends, batch_start, greedy_cuts};
use crate::text::str_eq;

verus! {

/// The messages exchanged on the sync topic.
pub enum SyncMessage {
    /// Asks for every entry with a timestamp above `since_timestamp`.
    RequestSync { user_id: u128, since_timestamp: u64 },
    /// A batch of entries, as a reply or pushed unasked.
    SyncData { user_id: u128, entries: Vec<OplogEntry> },
    /// "I am online; record me."
    Announce { user_id: u128, device_id: u128, peer_id: String },
    Ping { timestamp: i64 },
    Pong { timestamp: i64 },
}

/// What the network layer reports.
pub enum SyncEvent {
    NewListenAddr { address: String },
    ConnectionEstablished { peer_id: String },
    ConnectionClosed { peer_id: String },
    Discovered { peers: Vec<String> },
    Expired { peers: Vec<String> },
    Message { message: SyncMessage },
}

/// What the network layer is asked to do.
pub enum SyncAction {
    Publish { message: SyncMessage },
    AddExplicitPeer { peer_id: String },
    RemoveExplicitPeer { peer_id: String },
    EmitStatus,
}

/// A remote device this device has heard from.
#[derive(Clone, Debug)]
pub struct Peer {
    pub peer_id: u128,
    pub user_id: u128,
    pub device_id: u128,
    pub last_known_ip: Option<String>,
    pub last_sync_time: Option<i64>,
}

/// A snapshot for status observers.
pub struct SyncStatus {
    pub is_syncing: bool,
    pub last_sync_time: Option<i64>,
    pub connected_peers: Vec<String>,
    pub pending_changes_count: usize,
    pub is_online: bool,
}

/// `s` without the entries equal to `p`, order kept.
pub open spec fn without_peer(s: Seq<String>, p: Seq<char>) -> Seq<String>
    decreases s.len(),
{
    if s.len() == 0 {
        s
    } else {
        let rest = without_peer(s.drop_last(), p);
        if s.last()@ == p {
            rest
        } else {
            rest.push(s.last())
        }
    }
}

/// `new` is `old` after recording that `device_id` of `user_id` was heard
/// from at `now`, touching record `r`: the first matching record is
/// refreshed (its address replaced when one is given), else a record is
/// appended.
pub open spec fn peer_updated(
    old: Seq<Peer>,
    new: Seq<Peer>,
    user_id: u128,
    device_id: u128,
    ip_address: Option<String>,
    now: i64,
    r: int,
) -> bool {
    &&& 0 <= r < new.len()
    &&& new[r].user_id == user_id
    &&& new[r].device_id == device_id
    &&& new[r].last_sync_time == Some(now)
    &&& ip_address is Some ==> new[r].last_known_ip == ip_address
    &&& forall|j: int|
        0 <= j < r ==> !((#[trigger] old[j]).user_id == user_id && old[j].device_id == device_id)
    &&& r < old.len() ==> {
        &&& old[r].user_id == user_id
        &&& old[r].device_id == device_id
        &&& new == old.update(r, new[r])
        &&& new[r].peer_id == old[r].peer_id
        &&& ip_address is None ==> new[r].last_known_ip == old[r].last_known_ip
    }
    &&& r == old.len() ==> new.drop_last() == old && (ip_address is None ==> new[r].last_known_ip
        is None)
}

/// Records that `device_id` of `user_id` was heard from at `now`: the first
/// matching record is refreshed (its address replaced when one is given),
/// else a record is added. Returns the index of the record.
pub fn update_peer_info(
    peers: &mut Vec<Peer>,
    user_id: u128,
    device_id: u128,
    ip_address: Option<String>,
    now: i64,
) -> (r: usize)
    ensures
        peer_updated(old(peers)@, final(peers)@, user_id, device_id, ip_address, now, r as int),
{
    let mut i: usize = 0;
    while i < peers.len()
        invariant
            0 <= i <= peers@.len(),
            peers@ == old(peers)@,
            forall|j: int|
                0 <= j < i ==> !((#[trigger] peers@[j]).user_id == user_id && peers@[j].device_id
                    == device_id),
        decreases peers@.len() - i,
    {
        if peers[i].user_id == user_id && peers[i].device_id == device_id {
            let old_ip = match &peers[i].last_known_ip {
                Some(s) => Some(s.clone()),
                None => None,
            };
            let refreshed = Peer {
                peer_id: peers[i].peer_id,
                user_id,
                device_id,
                last_known_ip: match ip_address {
                    Some(s) => Some(s),
                    None => old_ip,
                },
                last_sync_time: Some(now),
            };
            peers.set(i, refreshed);
            return i;
        }
        i += 1;
    }
    peers.push(
        Peer {
            peer_id: fresh_id(),
            user_id,
            device_id,
            last_known_ip: ip_address,
            last_sync_time: Some(now),
        },
    );
    assert(peers@.drop_last() =~= old(peers)@);
    i
}

fn copy_entries(v: &Vec<OplogEntry>) -> (r: Vec<OplogEntry>)
    ensures
        r@ == v@,
{
    let mut out: Vec<OplogEntry> = Vec::new();
    let mut i: usize = 0;
    while i < v.len()
        invariant
            0 <= i <= v@.len(),
            out@ == v@.subrange(0, i as int),
        decreases v@.len() - i,
    {
        out.push(v[i].duplicate());
        assert(out@ =~= v@.subrange(0, i + 1));
        i += 1;
    }
    assert(out@ =~= v@);
    out
}

fn copy_strings(v: &Vec<String>) -> (r: Vec<String>)
    ensures
        r@ == v@,
{
    let mut out: Vec<String> = Vec::new();
    let mut i: usize = 0;
    while i < v.len()
        invariant
            0 <= i <= v@.len(),
            out@ == v@.subrange(0, i as int),
        decreases v@.len() - i,
    {
        out.push(v[i].clone());
        assert(out@ =~= v@.subrange(0, i + 1));
        i += 1;
    }
    assert(out@ =~= v@);
    out
}

/// What handling one decoded message does: a request is answered with the
/// logged entries above its threshold, a batch is merged (sorted by stamp)
/// and stamps the sync time, an announce refreshes the peer records, and a
/// ping or pong changes nothing.
pub open spec fn message_outcome(
    pre: SyncManager,
    post: SyncManager,
    message: SyncMessage,
    now: i64,
    r: Seq<SyncAction>,
) -> bool {
    match message {
        SyncMessage::RequestSync { user_id, since_timestamp } => {
            &&& post.replica == pre.replica
            &&& post.peers == pre.peers
            &&& post.last_sync_time == pre.last_sync_time
            &&& r.len() == 1
            &&& r[0] matches SyncAction::Publish {
                message: SyncMessage::SyncData { user_id: u, entries },
            } && u == user_id && crate::oplog::sorted_by_stamp(entries@)
                && entries@.to_multiset() == crate::oplog::since_spec(
                pre.replica.state().log,
                since_timestamp,
            ).to_multiset()
        },
        SyncMessage::SyncData { user_id, entries } => {
            &&& post.peers == pre.peers
            &&& post.last_sync_time == Some(now)
            &&& r.len() == 1
            &&& r[0] is EmitStatus
            &&& exists|s: Seq<OplogEntry>|
                crate::oplog::sorted_by_stamp(s) && s.to_multiset() == entries@.to_multiset()
                    && post.replica.state() == crate::crdt::merge_spec(
                    pre.replica.state(),
                    s,
                )
        },
        SyncMessage::Announce { user_id, device_id, peer_id } => {
            &&& post.replica == pre.replica
            &&& post.last_sync_time == pre.last_sync_time
            &&& r.len() == 0
            &&& exists|i: int| peer_updated(pre.peers@, post.peers@, user_id, device_id, None, now, i)
        },
        _ => {
            &&& post.replica == pre.replica
            &&& post.peers == pre.peers
            &&& post.last_sync_time == pre.last_sync_time
            &&& r.len() == 0
        },
    }
}

/// Handling a SyncData message leaves the same winners as merging its
/// entries in the order received, whenever the log and the batch together
/// meet the data-model invariants; so the convergence, last-writer-wins and
/// tombstone laws of the replica model apply to the message as sent.
pub proof fn lemma_sync_data_merges_batch(
    pre: SyncManager,
    post: SyncManager,
    user_id: u128,
    entries: Vec<OplogEntry>,
    now: i64,
    r: Seq<SyncAction>,
)
    requires
        pre.wf(),
        message_outcome(pre, post, SyncMessage::SyncData { user_id, entries }, now, r),
        crate::crdt::entries_consistent(pre.replica.state().log + entries@),
    ensures
        post.replica.state().table == crate::crdt::merge_spec(pre.replica.state(), entries@).table,
{
    broadcast use vstd::seq_lib::group_to_multiset_ensures;

    let s = choose|s: Seq<OplogEntry>|
        crate::oplog::sorted_by_stamp(s) && s.to_multiset() == entries@.to_multiset()
            && post.replica.state() == crate::crdt::merge_spec(pre.replica.state(), s);
    assert forall|x: OplogEntry| entries@.contains(x) <==> s.contains(x) by {
        assert(entries@.to_multiset().count(x) == s.to_multiset().count(x));
    }
    pre.replica.lemma_state_wf();
    crate::crdt::lemma_convergence(pre.replica.state(), entries@, s);
}

/// The orchestrator's state apart from the network itself.
pub struct SyncManager {
    pub user_id: u128,
    pub device_id: u128,
    pub replica: Replica,
    pub is_syncing: bool,
    pub last_sync_time: Option<i64>,
    pub connected_peers: Vec<String>,
    pub pending_changes: Vec<OplogEntry>,
    pub is_online: bool,
    pub peers: Vec<Peer>,
}

impl SyncManager {
    pub open spec fn wf(&self) -> bool {
        self.replica.wf()
    }

    /// A manager that is online, with no peers and nothing pending.
    pub fn new(user_id: u128, device_id: u128) -> (r: SyncManager)
        ensures
            r.wf(),
            r.user_id == user_id,
            r.device_id == device_id,
            r.replica.device() == device_id,
            r.replica.state().log.len() == 0,
            !r.is_syncing,
            r.last_sync_time is None,
            r.connected_peers@.len() == 0,
            r.pending_changes@.len() == 0,
            r.is_online,
            r.peers@.len() == 0,
    {
        SyncManager {
            user_id,
            device_id,
            replica: Replica::new(device_id),
            is_syncing: false,
            last_sync_time: None,
            connected_peers: Vec::new(),
            pending_changes: Vec::new(),
            is_online: true,
            peers: Vec::new(),
        }
    }

    /// The Announce this device broadcasts under its network identity.
    pub fn announce_presence(&self, peer_id: String) -> (r: SyncMessage)
        ensures
            r == (SyncMessage::Announce { user_id: self.user_id, device_id: self.device_id, peer_id }),
    {
        SyncMessage::Announce { user_id: self.user_id, device_id: self.device_id, peer_id }
    }

    /// The request for every entry above `since_timestamp`.
    pub fn request_sync(&self, since_timestamp: u64) -> (r: SyncMessage)
        ensures
            r == (SyncMessage::RequestSync { user_id: self.user_id, since_timestamp }),
    {
        SyncMessage::RequestSync { user_id: self.user_id, since_timestamp }
    }

    pub fn get_is_syncing(&self) -> (r: bool)
        ensures
            r == self.is_syncing,
    {
        self.is_syncing
    }

    pub fn get_last_sync_time(&self) -> (r: Option<i64>)
        ensures
            r == self.last_sync_time,
    {
        self.last_sync_time
    }

    pub fn get_connected_peers(&self) -> (r: Vec<String>)
        ensures
            r@ == self.connected_peers@,
    {
        copy_strings(&self.connected_peers)
    }

    pub fn get_pending_changes_count(&self) -> (r: usize)
        ensures
            r == self.pending_changes@.len(),
    {
        self.pending_changes.len()
    }

    /// The status snapshot.
    pub fn status(&self) -> (r: SyncStatus)
        ensures
            r.is_syncing == self.is_syncing,
            r.last_sync_time == self.last_sync_time,
            r.connected_peers@ == self.connected_peers@,
            r.pending_changes_count == self.pending_changes@.len(),
            r.is_online == self.is_online,
    {
        SyncStatus {
            is_syncing: self.is_syncing,
            last_sync_time: self.last_sync_time,
            connected_peers: copy_strings(&self.connected_peers),
            pending_changes_count: self.pending_changes.len(),
            is_online: self.is_online,
        }
    }

    /// Queues a local entry for the next flush.
    pub fn add_pending_change(&mut self, entry: OplogEntry)
        ensures
            final(self).pending_changes@ == old(self).pending_changes@.push(entry),
            final(self).is_online == old(self).is_online,
            final(self).connected_peers == old(self).connected_peers,
            final(self).replica == old(self).replica,
            final(self).user_id == old(self).user_id,
            final(self).device_id == old(self).device_id,
            final(self).is_syncing == old(self).is_syncing,
            final(self).last_sync_time == old(self).last_sync_time,
            final(self).peers == old(self).peers,
    {
        self.pending_changes.push(entry);
    }

    /// Puts entries whose publication failed back at the front of the
    /// queue, in their order, so that the next flush retries them first.
    pub fn requeue_front(&mut self, entries: Vec<OplogEntry>)
        ensures
            final(self).pending_changes@ == entries@ + old(self).pending_changes@,
            final(self).is_online == old(self).is_online,
            final(self).connected_peers == old(self).connected_peers,
            final(self).replica == old(self).replica,
            final(self).user_id == old(self).user_id,
            final(self).device_id == old(self).device_id,
            final(self).is_syncing == old(self).is_syncing,
            final(self).last_sync_time == old(self).last_sync_time,
            final(self).peers == old(self).peers,
    {
        let mut queue = entries;
        let mut i: usize = 0;
        let ghost front = queue@;
        while i < self.pending_changes.len()
            invariant
                0 <= i <= self.pending_changes@.len(),
                self.pending_changes == old(self).pending_changes,
                queue@ == front + self.pending_changes@.subrange(0, i as int),
            decreases self.pending_changes@.len() - i,
        {
            queue.push(self.pending_changes[i].duplicate());
            assert(queue@ =~= front + self.pending_changes@.subrange(0, i + 1));
            i += 1;
        }
        assert(self.pending_changes@.subrange(0, self.pending_changes@.len() as int)
            =~= self.pending_changes@);
        self.pending_changes = queue;
    }

    /// The SyncData messages that carry `entries` for this user: cut into
    /// parts that each fit `budget` bytes,
    /// given each entry's encoded size: the parts follow one another and
    /// concatenate to `entries`; a part exceeds the budget only when it is a
    /// single oversized entry (see `greedy_cuts`).
    pub fn send_sync_data(&self, entries: &Vec<OplogEntry>, sizes: &Vec<usize>, budget: usize) -> (r:
        Vec<SyncMessage>)
        requires
            sizes@.len() == entries@.len(),
        ensures
            exists|ends: Seq<usize>|
                {
                    &&& greedy_cuts(sizes@, budget as nat, ends)
                    &&& r@.len() == ends.len()
                    &&& forall|k: int|
                        0 <= k < r@.len() ==> (#[trigger] r@[k] matches SyncMessage::SyncData {
                            user_id,
                            entries: part,
                        } && user_id == self.user_id && part@ == entries@.subrange(
                            batch_start(ends, k),
                            ends[k] as int,
                        ))
                },
    {
        let ends = batch_ends(sizes, budget);
        let mut out: Vec<SyncMessage> = Vec::new();
        let mut k: usize = 0;
        let mut start: usize = 0;
        while k < ends.len()
            invariant
                greedy_cuts(sizes@, budget as nat, ends@),
                sizes@.len() == entries@.len(),
                0 <= k <= ends@.len(),
                out@.len() == k,
                start == batch_start(ends@, k as int),
                forall|j: int|
                    0 <= j < k ==> (#[trigger] out@[j] matches SyncMessage::SyncData {
                        user_id,
                        entries: part,
                    } && user_id == self.user_id && part@ == entries@.subrange(
                        batch_start(ends@, j),
                        ends@[j] as int,
                    )),
            decreases ends@.len() - k,
        {
            let end = ends[k];
            assert(start < end <= entries@.len());
            let mut part: Vec<OplogEntry> = Vec::new();
            let mut i: usize = start;
            while i < end
                invariant
                    start <= i <= end <= entries@.len(),
                    part@ == entries@.subrange(start as int, i as int),
                decreases end - i,
            {
                part.push(entries[i].duplicate());
                assert(part@ =~= entries@.subrange(start as int, i + 1));
                i += 1;
            }
            out.push(SyncMessage::SyncData { user_id: self.user_id, entries: part });
            start = end;
            k += 1;
        }
        out
    }

    /// Drains the queue into one SyncData when online with at least one peer
    /// connected; otherwise leaves the queue as it is and returns nothing.
    pub fn sync_pending_changes(&mut self) -> (r: Option<SyncMessage>)
        ensures
            final(self).is_online == old(self).is_online,
            final(self).connected_peers == old(self).connected_peers,
            final(self).replica == old(self).replica,
            final(self).user_id == old(self).user_id,
            final(self).device_id == old(self).device_id,
            final(self).is_syncing == old(self).is_syncing,
            final(self).last_sync_time == old(self).last_sync_time,
            final(self).peers == old(self).peers,
            if old(self).is_online && old(self).pending_changes@.len() > 0
                && old(self).connected_peers@.len() > 0 {
                &&& final(self).pending_changes@.len() == 0
                &&& r matches Some(SyncMessage::SyncData { user_id, entries }) && user_id
                    == old(self).user_id && entries@ == old(self).pending_changes@
            } else {
                &&& final(self).pending_changes@ == old(self).pending_changes@
                &&& r is None
            },
    {
        if !self.is_online || self.pending_changes.len() == 0 || self.connected_peers.len() == 0 {
            return None;
        }
        let entries = copy_entries(&self.pending_changes);
        self.pending_changes.clear();
        Some(SyncMessage::SyncData { user_id: self.user_id, entries })
    }

    /// Sets the online flag. Coming online with entries queued flushes them
    /// when a peer is connected; with no peer they stay queued.
    pub fn set_online_status(&mut self, is_online: bool) -> (r: Option<SyncMessage>)
        ensures
            final(self).is_online == is_online,
            final(self).connected_peers == old(self).connected_peers,
            final(self).replica == old(self).replica,
            final(self).user_id == old(self).user_id,
            final(self).device_id == old(self).device_id,
            final(self).is_syncing == old(self).is_syncing,
            final(self).last_sync_time == old(self).last_sync_time,
            final(self).peers == old(self).peers,
            if is_online && !old(self).is_online && old(self).pending_changes@.len() > 0
                && old(self).connected_peers@.len() > 0 {
                &&& final(self).pending_changes@.len() == 0
                &&& r matches Some(SyncMessage::SyncData { user_id, entries }) && user_id
                    == old(self).user_id && entries@ == old(self).pending_changes@
            } else {
                &&& final(self).pending_changes@ == old(self).pending_changes@
                &&& r is None
            },
    {
        let was_offline = !self.is_online;
        self.is_online = is_online;
        if is_online && was_offline && self.pending_changes.len() > 0 {
            return self.sync_pending_changes();
        }
        None
    }

    /// Applies a local write to the replica (see `Replica::local_apply`).
    pub fn local_write(&mut self, table: &str, op_type: OpType, key: &str, data: &str) -> (r:
        Option<OplogEntry>)
        requires
            old(self).wf(),
        ensures
            final(self).wf(),
            final(self).replica.device() == old(self).replica.device(),
            final(self).pending_changes == old(self).pending_changes,
            final(self).connected_peers == old(self).connected_peers,
            final(self).is_online == old(self).is_online,
            final(self).user_id == old(self).user_id,
            match r {
                Some(e) => {
                    &&& e.device_id == old(self).replica.device()
                    &&& e.table@ == table@
                    &&& e.op_type == op_type
                    &&& e.key@ == key@
                    &&& e.data@ == data@
                    &&& e.timestamp > old(self).replica.clock_last().packed()
                    &&& e.timestamp == final(self).replica.clock_last().packed()
                    &&& final(self).replica.state() == (crate::crdt::ReplicaState {
                        table: crate::crdt::apply_spec(old(self).replica.state().table, e),
                        log: old(self).replica.state().log.push(e),
                    })
                },
                None => {
                    &&& final(self).replica.state() == old(self).replica.state()
                    &&& final(self).replica.clock_last() == old(self).replica.clock_last()
                    &&& crate::hlc::exhausted_spec(old(self).replica.clock_last())
                },
            },
    {
        self.replica.local_apply(table, op_type, key, data)
    }

    /// Routes a local entry: published at once when online with a peer
    /// connected, else queued.
    pub fn route_local_change(&mut self, entry: OplogEntry) -> (r: Option<SyncMessage>)
        ensures
            final(self).is_online == old(self).is_online,
            final(self).connected_peers == old(self).connected_peers,
            final(self).replica == old(self).replica,
            final(self).user_id == old(self).user_id,
            if old(self).is_online && old(self).connected_peers@.len() > 0 {
                &&& final(self).pending_changes == old(self).pending_changes
                &&& r matches Some(SyncMessage::SyncData { user_id, entries }) && user_id
                    == old(self).user_id && entries@ == seq![entry]
            } else {
                &&& final(self).pending_changes@ == old(self).pending_changes@.push(entry)
                &&& r is None
            },
    {
        if self.is_online && self.connected_peers.len() > 0 {
            let mut entries: Vec<OplogEntry> = Vec::new();
            entries.push(entry);
            assert(entries@ =~= seq![entry]);
            Some(SyncMessage::SyncData { user_id: self.user_id, entries })
        } else {
            self.pending_changes.push(entry);
            None
        }
    }

    /// Answers one decoded message: a request is answered with the entries
    /// above its threshold, a batch is merged into the replica, an announce
    /// refreshes the peer records, a ping or pong changes nothing.
    pub fn handle_sync_message(&mut self, message: SyncMessage, now: i64) -> (r: Vec<SyncAction>)
        requires
            old(self).wf(),
        ensures
            final(self).wf(),
            final(self).replica.device() == old(self).replica.device(),
            final(self).user_id == old(self).user_id,
            final(self).device_id == old(self).device_id,
            final(self).connected_peers == old(self).connected_peers,
            final(self).pending_changes == old(self).pending_changes,
            final(self).is_online == old(self).is_online,
            final(self).is_syncing == old(self).is_syncing,
            message_outcome(*old(self), *final(self), message, now, r@),
    {
        let mut actions: Vec<SyncAction> = Vec::new();
        match message {
            SyncMessage::RequestSync { user_id, since_timestamp } => {
                let entries = self.replica.entries_since(since_timestamp);
                actions.push(
                    SyncAction::Publish { message: SyncMessage::SyncData { user_id, entries } },
                );
            },
            SyncMessage::SyncData { user_id: _, entries } => {
                self.replica.merge(&entries);
                self.last_sync_time = Some(now);
                actions.push(SyncAction::EmitStatus);
            },
            SyncMessage::Announce { user_id, device_id, peer_id: _ } => {
                let i = update_peer_info(&mut self.peers, user_id, device_id, None, now);
                assert(peer_updated(old(self).peers@, self.peers@, user_id, device_id, None, now, i as int));
            },
            SyncMessage::Ping { .. } => {},
            SyncMessage::Pong { .. } => {},
        }
        actions
    }

    /// Single-steps the event loop on one network event observed at `now`.
    pub fn process_event(&mut self, event: SyncEvent, now: i64) -> (r: Vec<SyncAction>)
        requires
            old(self).wf(),
        ensures
            final(self).wf(),
            final(self).replica.device() == old(self).replica.device(),
            final(self).user_id == old(self).user_id,
            final(self).is_online == old(self).is_online,
            match event {
                SyncEvent::NewListenAddr { .. } => {
                    &&& *final(self) == *old(self)
                    &&& r@.len() == 0
                },
                SyncEvent::ConnectionEstablished { peer_id } => {
                    &&& final(self).connected_peers@ == old(self).connected_peers@.push(peer_id)
                    &&& final(self).is_syncing
                    &&& final(self).replica == old(self).replica
                    &&& r@.len() >= 1
                    &&& r@[0] is EmitStatus
                    &&& if old(self).is_online && old(self).pending_changes@.len() > 0 {
                        &&& final(self).pending_changes@.len() == 0
                        &&& r@.len() == 2
                        &&& r@[1] matches SyncAction::Publish {
                            message: SyncMessage::SyncData { user_id, entries },
                        } && user_id == old(self).user_id && entries@ == old(
                            self,
                        ).pending_changes@
                    } else {
                        &&& final(self).pending_changes@ == old(self).pending_changes@
                        &&& r@.len() == 1
                    }
                },
                SyncEvent::ConnectionClosed { peer_id } => {
                    &&& final(self).connected_peers@ == without_peer(
                        old(self).connected_peers@,
                        peer_id@,
                    )
                    &&& final(self).is_syncing == (old(self).is_syncing
                        && final(self).connected_peers@.len() > 0)
                    &&& final(self).replica == old(self).replica
                    &&& final(self).pending_changes == old(self).pending_changes
                    &&& r@.len() == 1
                    &&& r@[0] is EmitStatus
                },
                SyncEvent::Discovered { peers } => {
                    &&& *final(self) == *old(self)
                    &&& r@.len() == peers@.len()
                    &&& forall|i: int|
                        0 <= i < r@.len() ==> (#[trigger] r@[i] matches SyncAction::AddExplicitPeer {
                            peer_id,
                        } && peer_id == peers@[i])
                },
                SyncEvent::Expired { peers } => {
                    &&& *final(self) == *old(self)
                    &&& r@.len() == peers@.len()
                    &&& forall|i: int|
                        0 <= i < r@.len() ==> (#[trigger] r@[i] matches SyncAction::RemoveExplicitPeer {
                            peer_id,
                        } && peer_id == peers@[i])
                },
                SyncEvent::Message { message } => {
                    &&& final(self).connected_peers == old(self).connected_peers
                    &&& final(self).pending_changes == old(self).pending_changes
                    &&& final(self).is_syncing == old(self).is_syncing
                    &&& message_outcome(*old(self), *final(self), message, now, r@)
                },
            },
    {
        match event {
            SyncEvent::NewListenAddr { .. } => {
                let actions: Vec<SyncAction> = Vec::new();
                actions
            },
            SyncEvent::ConnectionEstablished { peer_id } => {
                self.connected_peers.push(peer_id);
                self.is_syncing = true;
                let mut actions: Vec<SyncAction> = Vec::new();
                actions.push(SyncAction::EmitStatus);
                match self.sync_pending_changes() {
                    Some(message) => actions.push(SyncAction::Publish { message }),
                    None => {},
                }
                actions
            },
            SyncEvent::ConnectionClosed { peer_id } => {
                let mut kept: Vec<String> = Vec::new();
                let mut i: usize = 0;
                while i < self.connected_peers.len()
                    invariant
                        0 <= i <= self.connected_peers@.len(),
                        self.connected_peers == old(self).connected_peers,
                        kept@ == without_peer(self.connected_peers@.subrange(0, i as int), peer_id@),
                    decreases self.connected_peers@.len() - i,
                {
                    assert(self.connected_peers@.subrange(0, i + 1).drop_last()
                        =~= self.connected_peers@.subrange(0, i as int));
                    if !str_eq(self.connected_peers[i].as_str(), peer_id.as_str()) {
                        kept.push(self.connected_peers[i].clone());
                    }
                    i += 1;
                }
                assert(self.connected_peers@.subrange(0, self.connected_peers@.len() as int)
                    =~= self.connected_peers@);
                self.connected_peers = kept;
                if self.connected_peers.len() == 0 {
                    self.is_syncing = false;
                }
                let mut actions: Vec<SyncAction> = Vec::new();
                actions.push(SyncAction::EmitStatus);
                actions
            },
            SyncEvent::Discovered { peers } => {
                let mut actions: Vec<SyncAction> = Vec::new();
                let mut i: usize = 0;
                while i < peers.len()
                    invariant
                        0 <= i <= peers@.len(),
                        actions@.len() == i,
                        forall|j: int|
                            0 <= j < i ==> (#[trigger] actions@[j] matches SyncAction::AddExplicitPeer {
                                peer_id,
                            } && peer_id == peers@[j]),
                    decreases peers@.len() - i,
                {
                    actions.push(SyncAction::AddExplicitPeer { peer_id: peers[i].clone() });
                    i += 1;
                }
                actions
            },
            SyncEvent::Expired { peers } => {
                let mut actions: Vec<SyncAction> = Vec::new();
                let mut i: usize = 0;
                while i < peers.len()
                    invariant
                        0 <= i <= peers@.len(),
                        actions@.len() == i,
                        forall|j: int|
                            0 <= j < i ==> (#[trigger] actions@[j] matches SyncAction::RemoveExplicitPeer {
                                peer_id,
                            } && peer_id == peers@[j]),
                    decreases peers@.len() - i,
                {
                    actions.push(SyncAction::RemoveExplicitPeer { peer_id: peers[i].clone() });
                    i += 1;
                }
                actions
            },
            SyncEvent::Message { message } => self.handle_sync_message(message, now),
        }
    }
}

} // verus!
