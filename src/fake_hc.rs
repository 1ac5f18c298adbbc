//! A simulated controller channel: every transaction is accepted at once, reports the
//! status it was set to, and an IN transaction receives the bytes 0, 1, 2, ...

use vstd::prelude::*;
use crate::hc::{EPType, Submission, Transaction, TransactionDestination, TransactionResult, TransactionToken, URBStatus, HC};

verus! {

pub struct FakeHC {
    pub dest: TransactionDestination,
    pub ep_type: EPType,
    pub mps: u32,
    /// The status that every poll reports.
    pub status: URBStatus,
    /// Transactions submitted since the channel was bound.
    pub request_fired: u32,
    /// Milliseconds waited on this channel.
    pub slept_ms: u64,
    /// The statuses read so far.
    pub statuses: Ghost<Seq<URBStatus>>,
    /// The transactions submitted so far.
    pub submissions: Ghost<Seq<Submission>>,
}

impl HC for FakeHC {
    open spec fn dest_of(&self) -> TransactionDestination {
        self.dest
    }

    open spec fn ep_type_of(&self) -> EPType {
        self.ep_type
    }

    open spec fn mps_of(&self) -> u32 {
        self.mps
    }

    open spec fn statuses(&self) -> Seq<URBStatus> {
        self.statuses@
    }

    open spec fn submitted(&self) -> Seq<Submission> {
        self.submissions@
    }

    fn new(dest: TransactionDestination, ep_type: EPType, max_packet_size: u32) -> (r: Self)
        ensures
            r.dest == dest,
            r.ep_type == ep_type,
            r.mps == max_packet_size,
            r.request_fired == 0,
            r.slept_ms == 0,
            r.status == URBStatus::Done,
    {
        FakeHC {
            dest,
            ep_type,
            mps: max_packet_size,
            status: URBStatus::Done,
            request_fired: 0,
            slept_ms: 0,
            statuses: Ghost(Seq::empty()),
            submissions: Ghost(Seq::empty()),
        }
    }

    fn set_max_packet_size(&mut self, max_packet_size: u32)
        ensures
            *final(self) == (FakeHC { mps: max_packet_size, ..*old(self) }),
    {
        self.mps = max_packet_size;
    }

    fn get_dest(&self) -> (r: TransactionDestination)
        ensures
            r == self.dest,
    {
        self.dest
    }

    fn get_ep_type(&self) -> (r: EPType)
        ensures
            r == self.ep_type,
    {
        self.ep_type
    }

    fn submit_urb(&mut self, transaction: &mut Transaction) -> (r: TransactionResult<()>)
        ensures
            r is Ok,
            final(self).request_fired == if old(self).request_fired < u32::MAX {
                old(self).request_fired + 1
            } else {
                old(self).request_fired as int
            },
            final(self).slept_ms == old(self).slept_ms,
            final(self).status == old(self).status,
            old(transaction).token == TransactionToken::In ==> forall|i: int|
                0 <= i < old(transaction).length && i < old(transaction).buffer@.len()
                    ==> final(transaction).buffer@[i] == i as u8,
    {
        let ghost before = *transaction;
        if self.request_fired < u32::MAX {
            self.request_fired = self.request_fired + 1;
        }
        if !transaction.token.is_outgoing_token() {
            let n = transaction.length as usize;
            let mut i: usize = 0;
            while i < n && i < transaction.buffer.len()
                invariant
                    transaction.buffer@.len() == old(transaction).buffer@.len(),
                    transaction.token == old(transaction).token,
                    transaction.toggle == old(transaction).toggle,
                    transaction.length == old(transaction).length,
                    n == transaction.length,
                    forall|j: int| 0 <= j < i ==> transaction.buffer@[j] == j as u8,
                decreases n - i,
            {
                transaction.buffer[i] = i as u8;
                i = i + 1;
            }
        }
        let r = Ok(());
        self.submissions = Ghost(
            self.submissions@.push(
                Submission {
                    token: before.token,
                    toggle: before.toggle,
                    length: before.length,
                    sent: before.buffer@,
                    returned: transaction.buffer@,
                    accepted: r,
                },
            ),
        );
        r
    }

    fn get_urb_status(&mut self) -> (r: URBStatus)
        ensures
            r == old(self).status,
            *final(self) == (FakeHC { statuses: Ghost(old(self).statuses@.push(r)), ..*old(self) }),
    {
        self.statuses = Ghost(self.statuses@.push(self.status));
        self.status
    }

    fn sleep_ms(&mut self, ms: u32)
        ensures
            final(self).request_fired == old(self).request_fired,
            final(self).status == old(self).status,
    {
        if self.slept_ms <= u64::MAX - ms as u64 {
            self.slept_ms = self.slept_ms + ms as u64;
        }
    }
}

} // verus!
