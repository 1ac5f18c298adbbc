//! One packet on the bus: the host-controller capability and the bounded wait for its
//! completion.

use vstd::prelude::*;

verus! {

/// The packet type that starts a transaction.
#[derive(Debug, Clone, Copy, PartialEq, Eq, Structural)]
pub enum TransactionToken {
    Setup,
    In,
    Out,
}

/// One logical pipe: a device address and an endpoint number with its direction bit.
#[derive(Debug, Clone, Copy, PartialEq, Eq, Structural)]
pub struct TransactionDestination {
    pub dev: u8,
    pub ep: u8,
}

/// Transfer type of an endpoint, fixed when its channel is bound.
#[derive(Debug, Clone, Copy, PartialEq, Eq, Structural)]
pub enum EPType {
    Control,
    Isochronous,
    Bulk,
    Interrupt,
}

/// Completion status of the request last submitted on a channel, as the controller reports it.
#[derive(Debug, Clone, Copy, PartialEq, Eq, Structural)]
pub enum URBStatus {
    Idle,
    Done,
    NotReady,
    NYet,
    Error,
    Stall,
    Unknown,
}

/// Why a transaction failed. `NotReady` and `Error` are transient; `Timeout` is not.
#[derive(Debug, Clone, Copy, PartialEq, Eq, Structural)]
pub enum TransactionError {
    Timeout,
    NotReady,
    Error,
}

pub type TransactionResult<T> = Result<T, TransactionError>;

/// One SETUP, IN or OUT packet handed to the controller.
pub struct Transaction {
    pub token: TransactionToken,
    pub toggle: u8,
    pub buffer: Vec<u8>,
    pub length: u8,
}

/// One transaction as the channel received it.
pub struct Submission {
    pub token: TransactionToken,
    pub toggle: u8,
    pub length: u8,
    /// The buffer handed over.
    pub sent: Seq<u8>,
    /// The buffer handed back.
    pub returned: Seq<u8>,
    /// What the submission itself returned.
    pub accepted: TransactionResult<()>,
}

/// Milliseconds between two reads of the completion status.
pub const POLL_INTERVAL_MS: u32 = 1;

/// Reads of an idle status after the first one before a transaction times out, minus one.
pub const POLL_TICK_LIMIT: u32 = 50;

/// A controller channel bound to one destination. Implemented by the hardware binding and by
/// `FakeHC`.
pub trait HC: Sized {
    /// The destination the channel is bound to.
    spec fn dest_of(&self) -> TransactionDestination;

    /// The transfer type the channel is bound with.
    spec fn ep_type_of(&self) -> EPType;

    /// The max packet size the channel uses.
    spec fn mps_of(&self) -> u32;

    /// The completion statuses read from the channel so far, in order.
    spec fn statuses(&self) -> Seq<URBStatus>;

    /// The transactions submitted on the channel so far, in order.
    spec fn submitted(&self) -> Seq<Submission>;

    /// Binds a channel to `dest`.
    fn new(dest: TransactionDestination, ep_type: EPType, max_packet_size: u32) -> (r: Self)
        ensures
            r.dest_of() == dest,
            r.ep_type_of() == ep_type,
            r.mps_of() == max_packet_size,
            r.statuses().len() == 0,
            r.submitted().len() == 0,
    ;

    fn set_max_packet_size(&mut self, max_packet_size: u32)
        ensures
            final(self).mps_of() == max_packet_size,
            final(self).dest_of() == old(self).dest_of(),
            final(self).ep_type_of() == old(self).ep_type_of(),
            final(self).statuses() == old(self).statuses(),
            final(self).submitted() == old(self).submitted(),
    ;

    fn get_dest(&self) -> (r: TransactionDestination)
        ensures
            r == self.dest_of(),
    ;

    fn get_ep_type(&self) -> (r: EPType)
        ensures
            r == self.ep_type_of(),
    ;

    /// Starts one transaction; completion is reported by `get_urb_status`. The transaction
    /// is handed over as it is: an IN transaction writes into its buffer, keeping its
    /// length; an OUT or SETUP one reads from it.
    fn submit_urb(&mut self, transaction: &mut Transaction) -> (r: TransactionResult<()>)
        ensures
            final(transaction).buffer@.len() == old(transaction).buffer@.len(),
            final(transaction).token == old(transaction).token,
            final(transaction).toggle == old(transaction).toggle,
            final(transaction).length == old(transaction).length,
            final(self).statuses() == old(self).statuses(),
            final(self).submitted() == old(self).submitted().push(
                Submission {
                    token: old(transaction).token,
                    toggle: old(transaction).toggle,
                    length: old(transaction).length,
                    sent: old(transaction).buffer@,
                    returned: final(transaction).buffer@,
                    accepted: r,
                },
            ),
    ;

    /// Reads the completion status of the request last submitted.
    fn get_urb_status(&mut self) -> (r: URBStatus)
        ensures
            final(self).statuses() == old(self).statuses().push(r),
            final(self).submitted() == old(self).submitted(),
    ;

    /// Waits `ms` milliseconds.
    fn sleep_ms(&mut self, ms: u32)
        ensures
            final(self).statuses() == old(self).statuses(),
            final(self).submitted() == old(self).submitted(),
    ;
}

impl TransactionToken {
    /// Whether the packet's data goes from host to device.
    pub fn is_outgoing_token(&self) -> (r: bool)
        ensures
            r == (*self != TransactionToken::In),
    {
        match self {
            TransactionToken::Out => true,
            TransactionToken::Setup => true,
            _ => false,
        }
    }

    /// The terminal colour used when a transaction of this kind is shown.
    pub fn get_color(&self) -> (r: &'static str)
        ensures
            *self == TransactionToken::Setup ==> r@ == "\x1b[1;31m"@,
            *self == TransactionToken::In ==> r@ == "\x1b[1;33m"@,
            *self == TransactionToken::Out ==> r@ == "\x1b[1;34m"@,
    {
        match self {
            TransactionToken::Setup => "\x1b[1;31m",
            TransactionToken::In => "\x1b[1;33m",
            TransactionToken::Out => "\x1b[1;34m",
        }
    }
}

impl TransactionDestination {
    /// The same endpoint with the IN direction bit set.
    pub fn to_in_ep(&self) -> (r: TransactionDestination)
        ensures
            r.dev == self.dev,
            r.ep == self.ep | 0x80,
    {
        TransactionDestination { dev: self.dev, ep: self.ep | 0x80 }
    }

    /// The same endpoint with the direction bit cleared.
    pub fn to_out_ep(&self) -> (r: TransactionDestination)
        ensures
            r.dev == self.dev,
            r.ep == self.ep & 0x7F,
    {
        TransactionDestination { dev: self.dev, ep: self.ep & 0x7F }
    }
}

impl EPType {
    /// The controller's code for the transfer type.
    pub fn code(self) -> (r: i32)
        ensures
            self == EPType::Control ==> r == 0,
            self == EPType::Isochronous ==> r == 1,
            self == EPType::Bulk ==> r == 2,
            self == EPType::Interrupt ==> r == 3,
    {
        match self {
            EPType::Control => 0,
            EPType::Isochronous => 1,
            EPType::Bulk => 2,
            EPType::Interrupt => 3,
        }
    }
}

/// What a terminal status means for the transaction.
pub open spec fn status_result(s: URBStatus) -> TransactionResult<()> {
    match s {
        URBStatus::Done => Ok(()),
        URBStatus::NotReady => Err(TransactionError::NotReady),
        _ => Err(TransactionError::Error),
    }
}

/// Most reads of the completion status that one wait makes.
pub open spec fn max_polls() -> nat {
    (POLL_TICK_LIMIT + 2) as nat
}

/// `polls` are the statuses one wait read, in order, and `r` what it returned: it reads until
/// the status is no longer idle, and gives up with `Timeout` after `max_polls()` idle reads.
pub open spec fn wait_outcome(polls: Seq<URBStatus>, r: TransactionResult<()>) -> bool {
    &&& 1 <= polls.len() <= max_polls()
    &&& forall|i: int| 0 <= i < polls.len() - 1 ==> polls[i] == URBStatus::Idle
    &&& if polls.last() == URBStatus::Idle {
        polls.len() == max_polls() && r == Err::<(), TransactionError>(TransactionError::Timeout)
    } else {
        r == status_result(polls.last())
    }
}

impl URBStatus {
    /// The result of a transaction whose status reads `self`; `None` while it is idle.
    pub fn completion(&self) -> (r: Option<TransactionResult<()>>)
        ensures
            *self == URBStatus::Idle ==> r is None,
            *self != URBStatus::Idle ==> r == Some(status_result(*self)),
    {
        match self {
            URBStatus::Idle => None,
            URBStatus::Done => Some(Ok(())),
            URBStatus::NotReady => Some(Err(TransactionError::NotReady)),
            _ => Some(Err(TransactionError::Error)),
        }
    }
}

/// Polls the channel until the submitted request completes or the tick budget runs out.
/// Returns the result and, as a ghost value, the statuses read.
pub fn wait_done<H: HC>(hc: &mut H) -> (r: (TransactionResult<()>, Ghost<Seq<URBStatus>>))
    ensures
        wait_outcome(r.1@, r.0),
        final(hc).statuses() == old(hc).statuses() + r.1@,
        final(hc).submitted() == old(hc).submitted(),
{
    let mut tick: u32 = 0;
    let ghost mut polls: Seq<URBStatus> = Seq::empty();
    loop
        invariant
            tick <= POLL_TICK_LIMIT + 1,
            polls.len() == tick,
            forall|i: int| 0 <= i < polls.len() ==> polls[i] == URBStatus::Idle,
            hc.statuses() == old(hc).statuses() + polls,
            hc.submitted() == old(hc).submitted(),
        decreases POLL_TICK_LIMIT + 1 - tick,
    {
        let status = hc.get_urb_status();
        proof {
            assert(old(hc).statuses() + polls.push(status) =~= (old(hc).statuses() + polls).push(
                status,
            ));
            polls = polls.push(status);
        }
        match status.completion() {
            Some(result) => {
                return (result, Ghost(polls));
            },
            None => {},
        }
        hc.sleep_ms(POLL_INTERVAL_MS);
        if tick > POLL_TICK_LIMIT {
            return (Err(TransactionError::Timeout), Ghost(polls));
        }
        tick = tick + 1;
    }
}

/// Submits one transaction and waits for it. An error of the submission is returned as
/// it is, with no status read; otherwise the result of the wait over the statuses read,
/// which are returned too.
pub fn submit_and_wait<H: HC>(hc: &mut H, transaction: &mut Transaction) -> (r: (
    TransactionResult<()>,
    Ghost<Seq<URBStatus>>,
))
    ensures
        final(transaction).buffer@.len() == old(transaction).buffer@.len(),
        final(transaction).token == old(transaction).token,
        final(transaction).toggle == old(transaction).toggle,
        final(transaction).length == old(transaction).length,
        final(hc).statuses() == old(hc).statuses() + r.1@,
        final(hc).submitted() == old(hc).submitted().push(
            Submission {
                token: old(transaction).token,
                toggle: old(transaction).toggle,
                length: old(transaction).length,
                sent: old(transaction).buffer@,
                returned: final(transaction).buffer@,
                accepted: final(hc).submitted().last().accepted,
            },
        ),
        final(hc).submitted().last().accepted is Err ==> r.0 == final(hc).submitted().last().accepted
            && r.1@.len() == 0,
        final(hc).submitted().last().accepted is Ok ==> r.1@.len() > 0 && wait_outcome(r.1@, r.0),
{
    match hc.submit_urb(transaction) {
        Ok(()) => {},
        Err(e) => {
            proof {
                assert(hc.statuses() + Seq::<URBStatus>::empty() =~= hc.statuses());
            }
            return (Err(e), Ghost(Seq::empty()));
        },
    }
    wait_done(hc)
}

} // verus!
