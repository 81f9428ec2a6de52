//! The packet store and the capture session. The store is an ordered,
//! append-only container addressable by append and full scan, with snapshot,
//! clear and wholesale replace; the session owns the store, the sequence
//! counter and the run flag, and guarantees gap-free numbering from 1.
use vstd::prelude::*;

use crate::clock::{current_time, is_time_string};
use crate::codec::{enc_records, export_packets, import_packets, p_snapshot, record_models};
use crate::decode::{decode_frame, decoded_record, spec_decodes};
use crate::errors::AppError;
use crate::filter::{filter_records, spec_filter};
use crate::record::FormatedPacket;

verus! {

/// The ordered store of decoded records; iteration order of a snapshot is
/// always append order.
pub struct PacketStore {
    records: Vec<FormatedPacket>,
}

impl View for PacketStore {
    type V = Seq<FormatedPacket>;

    /// The store's content, in append order.
    closed spec fn view(&self) -> Seq<FormatedPacket> {
        self.records@
    }
}

impl PacketStore {
    /// An empty store.
    pub fn new() -> (s: Self)
        ensures
            s@ == Seq::<FormatedPacket>::empty(),
    {
        PacketStore { records: Vec::new() }
    }

    /// Number of stored records.
    pub fn len(&self) -> (n: usize)
        ensures
            n == self@.len(),
    {
        self.records.len()
    }

    /// Adds one record at the end; never fails.
    pub fn append(&mut self, r: FormatedPacket)
        ensures
            final(self)@ == old(self)@.push(r),
    {
        self.records.push(r);
    }

    /// An independent copy of the current contents.
    pub fn snapshot(&self) -> (v: Vec<FormatedPacket>)
        ensures
            v@ == self@,
    {
        let mut v: Vec<FormatedPacket> = Vec::new();
        let mut i: usize = 0;
        while i < self.records.len()
            invariant
                i <= self@.len(),
                v@ == self@.subrange(0, i as int),
            decreases self@.len() - i,
        {
            v.push(self.records[i].clone());
            assert(v@ =~= self@.subrange(0, (i + 1) as int));
            i += 1;
        }
        assert(v@ =~= self@);
        v
    }

    /// Empties the store.
    pub fn clear(&mut self)
        ensures
            final(self)@ == Seq::<FormatedPacket>::empty(),
    {
        self.records = Vec::new();
    }

    /// Atomically substitutes the entire contents.
    pub fn replace(&mut self, records: Vec<FormatedPacket>)
        ensures
            final(self)@ == records@,
    {
        self.records = records;
    }
}

/// The capture session: the store, the sequence counter and the run flag.
/// Two states: stopped and running; starting clears the store and resets the
/// counter, stopping only flips the flag.
pub struct Watcher {
    /// The shared record store.
    pub store: PacketStore,
    /// Sequence counter: the number of records appended this session; the
    /// next record gets `counter + 1`.
    pub counter: u32,
    /// The cooperative run flag read by the capture loop.
    pub running: bool,
}

impl Watcher {
    /// Session well-formedness: the counter equals the record count and the
    /// records are numbered 1, 2, ... gap-free in store order.
    pub open spec fn wf(&self) -> bool {
        &&& self.store@.len() == self.counter
        &&& forall|i: int|
            0 <= i < self.store@.len() ==> (#[trigger] self.store@[i]).number == i + 1
    }

    /// A fresh, stopped session with an empty store.
    pub fn new() -> (w: Watcher)
        ensures
            w.wf(),
            w.store@ == Seq::<FormatedPacket>::empty(),
            w.counter == 0,
            !w.running,
    {
        Watcher { store: PacketStore::new(), counter: 0, running: false }
    }

    /// Starts a capture session: clears any prior records before anything
    /// can be appended, resets the sequence counter and raises the run flag;
    /// restart semantics when already running.
    pub fn start_watch(&mut self)
        ensures
            final(self).wf(),
            final(self).store@ == Seq::<FormatedPacket>::empty(),
            final(self).counter == 0,
            final(self).running,
    {
        self.store.clear();
        self.counter = 0;
        self.running = true;
    }

    /// Stops the session: lowers the run flag and touches nothing else; a
    /// no-op when already stopped.
    pub fn stop_watch(&mut self)
        ensures
            final(self).store@ == old(self).store@,
            final(self).counter == old(self).counter,
            !final(self).running,
            old(self).wf() ==> final(self).wf(),
    {
        self.running = false;
    }

    /// Feeds one raw frame to the decoder and appends the decoded record, if
    /// any, with the next sequence number and the current wall-clock time.
    /// A frame that fails to decode at any layer changes nothing at all and
    /// consumes no sequence number.
    pub fn handle_frame(&mut self, frame: &[u8], interface: &str) -> (appended: bool)
        requires
            old(self).wf(),
            old(self).counter < u32::MAX,
        ensures
            final(self).wf(),
            final(self).running == old(self).running,
            appended == spec_decodes(frame@),
            !spec_decodes(frame@) ==> *final(self) == *old(self),
            spec_decodes(frame@) ==> {
                &&& final(self).counter == old(self).counter + 1
                &&& final(self).store@ == old(self).store@.push(final(self).store@.last())
                &&& decoded_record(
                    final(self).store@.last(),
                    frame@,
                    (old(self).counter + 1) as u32,
                    interface@,
                )
                &&& is_time_string(final(self).store@.last().time@)
            },
    {
        let (time, ts) = current_time();
        match decode_frame(frame, self.counter + 1, time, ts, interface) {
            None => false,
            Some(rec) => {
                self.counter = self.counter + 1;
                self.store.append(rec);
                true
            },
        }
    }

    /// Serializes the full current store contents.
    pub fn export_snapshot(&self) -> (r: String)
        ensures
            r@ == enc_records(record_models(self.store@)),
    {
        let snap = self.store.snapshot();
        export_packets(&snap)
    }

    /// Validates an externally saved snapshot and, only on success,
    /// wholesale-replaces the store contents; a failed import reports one
    /// typed error and leaves the store exactly as it was.
    pub fn load_snapshot(&mut self, data: &str) -> (r: Result<(), AppError>)
        ensures
            final(self).running == old(self).running,
            final(self).counter == old(self).counter,
            r is Ok <==> p_snapshot(data@) is Some,
            r is Err ==> final(self).store@ == old(self).store@,
            r is Ok ==> Some(record_models(final(self).store@)) == p_snapshot(data@) && (forall|k: int|
                0 <= k < final(self).store@.len() ==> (#[trigger] final(self).store@[k]).timestamp
                    == 0),
    {
        match import_packets(data) {
            Ok(v) => {
                self.store.replace(v);
                Ok(())
            },
            Err(e) => Err(e),
        }
    }

    /// The filter query over a snapshot of the current store: records whose
    /// protocol label equals `protocol` (or all of them, for `all`) and
    /// whose textual source or destination address starts with `ip` (or all
    /// of them, for the empty string), in store order.
    pub fn get_packets(&self, ip: &str, protocol: &str) -> (r: Vec<FormatedPacket>)
        ensures
            r@ == spec_filter(self.store@, protocol@, ip@),
    {
        let snap = self.store.snapshot();
        filter_records(&snap, ip, protocol)
    }
}

/// In any non-empty well-formed session store, sequence numbers of adjacent
/// records increase by exactly 1.
pub proof fn lemma_sequence_numbers_increase_by_one(w: &Watcher)
    requires
        w.wf(),
    ensures
        forall|i: int|
            0 <= i < w.store@.len() - 1 ==> (#[trigger] w.store@[i + 1]).number == w.store@[
                i
            ].number + 1,
{
}

} // verus!
