//! Control transfers on endpoint 0: the SETUP, data and status stages, and the retry of
//! a whole transfer after a transient error.

use vstd::prelude::*;
use crate::endpoint::{chunks, carries, lemma_on_channel_append, lemma_on_channel_empty, on_channel, packet_run, received, transfer, ControlEP, EndpointView, PacketRecord};
use crate::hc::{TransactionError, TransactionResult, TransactionToken, HC};
use crate::std_request::{setup_bytes, Direction, Recipient, RequestByte, RequestKind, RequestType, StdRequest};

verus! {

/// A control request without its direction and length, which the transfer supplies.
#[derive(Debug, Clone, Copy, PartialEq, Eq, Structural)]
pub struct ControlRequest {
    pub req_type: RequestKind,
    pub recipient: Recipient,
    pub request: RequestByte,
    pub value: u16,
    pub index: u16,
}

/// Attempts of one control transfer before it gives up with `Timeout`.
pub const RETRY_LIMIT: u32 = 50;

/// Milliseconds waited before a transfer is tried again.
pub const RETRY_BACKOFF_MS: u32 = 50;

/// One attempt of a control transfer, as the endpoint and the data buffer saw it.
pub struct Attempt {
    pub before: EndpointView,
    pub after: EndpointView,
    pub buf_before: Seq<u8>,
    pub buf_after: Seq<u8>,
    pub result: TransactionResult<()>,
}

/// The token of the data stage.
pub open spec fn data_token(d: Direction) -> TransactionToken {
    match d {
        Direction::HostToDevice => TransactionToken::Out,
        Direction::DeviceToHost => TransactionToken::In,
    }
}

/// The token of the status stage, opposite to the data stage.
pub open spec fn status_token(d: Direction) -> TransactionToken {
    match d {
        Direction::HostToDevice => TransactionToken::In,
        Direction::DeviceToHost => TransactionToken::Out,
    }
}

/// The SETUP request of a transfer of `len` bytes in direction `d`.
pub open spec fn setup_request(request: ControlRequest, d: Direction, len: nat) -> StdRequest {
    StdRequest {
        request_type: RequestType {
            direction: d,
            req_type: request.req_type,
            recipient: request.recipient,
        },
        request: request.request,
        value: request.value,
        index: request.index,
        length: len as u16,
    }
}

/// Whether a failed transfer is tried again.
pub open spec fn is_retryable(r: TransactionResult<()>) -> bool {
    r == Err::<(), TransactionError>(TransactionError::NotReady) || r
        == Err::<(), TransactionError>(TransactionError::Error)
}

/// One attempt of the control transfer `req`, from endpoint state `before` and buffer
/// `buf_before` to `after` and `buf_after`, returning `r`. The packets it appended are:
/// the SETUP packet at toggle 0; if that went through, the data stage (none for an empty
/// buffer) as one packetized transfer in the request's direction starting at toggle 1; if
/// that went through, the status stage, one empty packet the other way at toggle 1. The
/// first stage that fails ends the attempt with its error. Received data is stored in the
/// buffer as `recv_packets` stores it. Every packet reaches the channel as logged.
#[verifier::opaque]
pub open spec fn control_attempt(
    before: EndpointView,
    after: EndpointView,
    req: StdRequest,
    buf_before: Seq<u8>,
    buf_after: Seq<u8>,
    r: TransactionResult<()>,
) -> bool {
    let recs = after.trace.skip(before.trace.len() as int);
    let n = recs.len();
    let dir = req.request_type.direction;
    let has_status = n >= 2 && recs.last().token == status_token(dir);
    let d = recs.subrange(
        1,
        if has_status {
            n - 1
        } else {
            n as int
        },
    );
    let parts = chunks(buf_before, before.mps as nat);
    &&& before.trace.is_prefix_of(after.trace)
    &&& after.dest == before.dest
    &&& after.ep_type == before.ep_type
    &&& after.mps == before.mps
    &&& after.waits == before.waits
    &&& on_channel(recs, before, after)
    &&& n >= 1
    &&& recs[0].token == TransactionToken::Setup
    &&& recs[0].toggle == 0
    &&& recs[0].data == setup_bytes(req)
    &&& recs[0].result is Err ==> n == 1 && r == recs[0].result && buf_after == buf_before
    &&& recs[0].result is Ok ==> {
        &&& buf_before.len() == 0 ==> d.len() == 0
        &&& buf_before.len() > 0 ==> packet_run(d, data_token(dir), parts, 1)
        &&& buf_before.len() > 0 && dir == Direction::HostToDevice ==> carries(d, parts)
        &&& has_status == (buf_before.len() == 0 || d.last().result is Ok)
        &&& has_status ==> recs.last().toggle == 1 && recs.last().data.len() == 0 && r
            == recs.last().result
        &&& !has_status ==> r == d.last().result
        &&& buf_before.len() == 0 || dir == Direction::HostToDevice ==> buf_after == buf_before
        &&& buf_before.len() > 0 && dir == Direction::DeviceToHost ==> buf_after == received(d)
            + buf_before.skip(received(d).len() as int)
    }
}

/// The results of the attempts of one transfer and what it returned: every attempt but the
/// last failed with a transient error; the transfer returns the last attempt's result,
/// unless that is a transient error, which happens only after `RETRY_LIMIT` attempts and
/// gives `Timeout`.
pub open spec fn retry_outcome(results: Seq<TransactionResult<()>>, r: TransactionResult<()>) -> bool {
    &&& 1 <= results.len() <= RETRY_LIMIT
    &&& forall|i: int| 0 <= i < results.len() - 1 ==> is_retryable(#[trigger] results[i])
    &&& if is_retryable(results.last()) {
        results.len() == RETRY_LIMIT && r == Err::<(), TransactionError>(TransactionError::Timeout)
    } else {
        r == results.last()
    }
}

/// The results of a sequence of attempts.
pub open spec fn attempt_results(a: Seq<Attempt>) -> Seq<TransactionResult<()>> {
    a.map_values(|x: Attempt| x.result)
}

/// The endpoint state after the backoff wait that follows a failed attempt.
pub open spec fn backoff(v: EndpointView) -> EndpointView {
    EndpointView { waits: v.waits.push(RETRY_BACKOFF_MS), ..v }
}

/// What a transfer whose attempts were `a` returns.
pub open spec fn transfer_result(a: Seq<Attempt>) -> TransactionResult<()> {
    if is_retryable(a.last().result) {
        Err(TransactionError::Timeout)
    } else {
        a.last().result
    }
}

/// Where a transfer whose attempts were `a` leaves the endpoint: after its last attempt,
/// and after the backoff wait when that attempt failed with a transient error.
pub open spec fn transfer_end(a: Seq<Attempt>) -> EndpointView {
    if is_retryable(a.last().result) {
        backoff(a.last().after)
    } else {
        a.last().after
    }
}

/// `a` are attempts of `request` in direction `d` made one after the other from endpoint
/// state `before` and buffer `buf`: each starts where the one before ended, after a wait of
/// `RETRY_BACKOFF_MS`.
pub open spec fn attempt_chain(
    a: Seq<Attempt>,
    before: EndpointView,
    buf: Seq<u8>,
    request: ControlRequest,
    d: Direction,
) -> bool {
    &&& a.len() >= 1
    &&& a[0].before == before
    &&& a[0].buf_before == buf
    &&& forall|i: int|
        #![trigger a[i], a[i + 1]]
        0 <= i < a.len() - 1 ==> a[i + 1].before == backoff(a[i].after) && a[i].buf_after
            == a[i + 1].buf_before
    &&& forall|i: int|
        0 <= i < a.len() ==> control_attempt(
            (#[trigger] a[i]).before,
            a[i].after,
            setup_request(request, d, buf.len()),
            a[i].buf_before,
            a[i].buf_after,
            a[i].result,
        )
}

/// `a` are the attempts of one transfer of `request` in direction `d` that started from
/// endpoint state `before` and buffer `buf`, ended in `after` and `buf_after`, and returned
/// `r`: the attempts were made one after the other and their results follow the retry
/// policy.
pub open spec fn control_transfer_outcome(
    a: Seq<Attempt>,
    before: EndpointView,
    after: EndpointView,
    buf: Seq<u8>,
    buf_after: Seq<u8>,
    request: ControlRequest,
    d: Direction,
    r: TransactionResult<()>,
) -> bool {
    &&& attempt_chain(a, before, buf, request, d)
    &&& retry_outcome(attempt_results(a), r)
    &&& after == transfer_end(a)
    &&& a.last().buf_after == buf_after
}

/// There is one value of the unit type.
proof fn lemma_unit(u: ())
    ensures
        u == (),
{
}

/// The result of a transfer that returns data, without the data.
pub open spec fn unit_result(r: TransactionResult<Vec<u8>>) -> TransactionResult<()> {
    match r {
        Ok(_) => Ok(()),
        Err(e) => Err(e),
    }
}

/// Endpoint 0 used for control transfers, with a record of every attempt it made.
pub struct ControlEndpoint<H: HC> {
    endpoint: ControlEP<H>,
    attempts: Ghost<Seq<Attempt>>,
}

impl<H: HC> ControlEndpoint<H> {
    /// The endpoint.
    pub closed spec fn ep(&self) -> ControlEP<H> {
        self.endpoint
    }

    /// Every attempt made so far, in order.
    pub closed spec fn log(&self) -> Seq<Attempt> {
        self.attempts@
    }

    pub fn endpoint(&self) -> (r: &ControlEP<H>)
        ensures
            *r == self.ep(),
    {
        &self.endpoint
    }

    /// The endpoint, to be changed directly; the record of attempts stays as it is.
    pub fn endpoint_mut(&mut self) -> (r: &mut ControlEP<H>)
        ensures
            *r == old(self).ep(),
            final(self).ep() == *final(r),
            final(self).log() == old(self).log(),
    {
        &mut self.endpoint
    }

    pub fn new(endpoint: ControlEP<H>) -> (r: ControlEndpoint<H>)
        ensures
            r.ep() == endpoint,
            r.log() == Seq::<Attempt>::empty(),
    {
        ControlEndpoint { endpoint, attempts: Ghost(Seq::empty()) }
    }

    /// One attempt of a control transfer of `buffer` in `direction`.
    pub fn control_transfer_(
        &mut self,
        buffer: &mut [u8],
        direction: Direction,
        request: &ControlRequest,
    ) -> (r: TransactionResult<()>)
        requires
            old(buffer)@.len() <= u16::MAX,
        ensures
            control_attempt(
                old(self).ep()@,
                final(self).ep()@,
                setup_request(*request, direction, old(buffer)@.len()),
                old(buffer)@,
                final(buffer)@,
                r,
            ),
            final(buffer)@.len() == old(buffer)@.len(),
            final(self).log() == old(self).log(),
            final(self).ep()@.dest == old(self).ep()@.dest,
            final(self).ep()@.ep_type == old(self).ep()@.ep_type,
            final(self).ep()@.mps == old(self).ep()@.mps,
    {
        reveal(control_attempt);
        let ghost v0 = self.ep()@;
        let req = StdRequest {
            request_type: RequestType {
                direction,
                req_type: request.req_type,
                recipient: request.recipient,
            },
            request: request.request,
            value: request.value,
            index: request.index,
            length: buffer.len() as u16,
        };
        self.endpoint.set_data_toggle(0);
        let r = self.endpoint.send_setup(req);
        let ghost v1 = self.ep()@;
        let ghost setup = v1.trace.last();
        proof {
            assert(v1.trace.skip(v0.trace.len() as int) =~= seq![setup]);
            assert(v0.trace.is_prefix_of(v1.trace));
        }
        if let Err(_) = r {
            return r;
        }
        let empty: [u8; 0] = [];
        let mut status_buf: [u8; 0] = [];
        let mut data_result: TransactionResult<()> = Ok(());
        if buffer.len() != 0 {
            data_result = match direction {
                Direction::HostToDevice => self.endpoint.send_packets(buffer),
                Direction::DeviceToHost => self.endpoint.recv_packets(buffer),
            };
        }
        let ghost v2 = self.ep()@;
        let ghost dstage = v2.trace.skip(v1.trace.len() as int);
        proof {
            if buffer@.len() == 0 {
                assert(dstage =~= Seq::<PacketRecord>::empty());
                lemma_on_channel_empty(v1);
            }
            assert(on_channel(dstage, v1, v2));
            lemma_on_channel_append(seq![setup], dstage, v0, v1, v2);
        }
        if let Err(_) = data_result {
            proof {
                let recs = v2.trace.skip(v0.trace.len() as int);
                assert(recs =~= seq![setup] + dstage);
                assert(recs.subrange(1, recs.len() as int) =~= dstage);
                assert(v0.trace.is_prefix_of(v2.trace));
            }
            return data_result;
        }
        self.endpoint.set_data_toggle(1);
        let status_result = match direction {
            Direction::HostToDevice => self.endpoint.recv_packets(&mut status_buf),
            Direction::DeviceToHost => self.endpoint.send_packets(&empty),
        };
        proof {
            let v3 = self.ep()@;
            let recs = v3.trace.skip(v0.trace.len() as int);
            let sstage = v3.trace.skip(v2.trace.len() as int);
            assert(chunks(Seq::<u8>::empty(), v0.mps as nat) =~= seq![Seq::<u8>::empty()]);
            assert(sstage.len() == 1);
            assert(recs =~= seq![setup] + dstage + sstage);
            assert(recs.subrange(1, recs.len() - 1) =~= dstage);
            assert(recs.last() == sstage[0]);
            assert(v0.trace.is_prefix_of(v3.trace));
            assert(on_channel(sstage, v2, v3));
            lemma_on_channel_append(seq![setup] + dstage, sstage, v0, v2, v3);
        }
        status_result
    }

    /// A control transfer of `buffer` in `direction`, tried again after `RETRY_BACKOFF_MS`
    /// whenever it fails with `NotReady` or `Error`, at most `RETRY_LIMIT` times in all; it
    /// then fails with `Timeout`. A `Timeout` of an attempt is returned at once.
    pub fn control_transfer(
        &mut self,
        buffer: &mut [u8],
        direction: Direction,
        request: ControlRequest,
    ) -> (r: TransactionResult<()>)
        requires
            old(buffer)@.len() <= u16::MAX,
        ensures
            final(buffer)@.len() == old(buffer)@.len(),
            final(self).ep()@.dest == old(self).ep()@.dest,
            final(self).ep()@.ep_type == old(self).ep()@.ep_type,
            final(self).ep()@.mps == old(self).ep()@.mps,
            old(self).log().is_prefix_of(final(self).log()),
            control_transfer_outcome(
                final(self).log().skip(old(self).log().len() as int),
                old(self).ep()@,
                final(self).ep()@,
                old(buffer)@,
                final(buffer)@,
                request,
                direction,
                r,
            ),
    {
        let ghost e0 = self.ep()@;
        let ghost b0 = buffer@;
        let ghost log0 = self.log();
        let ghost start = log0.len() as int;
        let mut retries: u32 = 0;
        loop
            invariant
                e0 == old(self).ep()@,
                b0 == old(buffer)@,
                log0 == old(self).log(),
                start == log0.len(),
                b0.len() <= u16::MAX,
                buffer@.len() == b0.len(),
                self.ep()@.dest == e0.dest,
                self.ep()@.ep_type == e0.ep_type,
                self.ep()@.mps == e0.mps,
                retries == 0 ==> self.ep()@.waits == e0.waits,
                retries <= RETRY_LIMIT,
                log0.is_prefix_of(self.log()),
                self.log().len() == start + retries,
                retries == 0 ==> self.ep()@ == e0 && buffer@ == b0,
                retries > 0 ==> attempt_chain(
                    self.log().skip(start),
                    e0,
                    b0,
                    request,
                    direction,
                ),
                retries > 0 ==> backoff(self.log().last().after) == self.ep()@
                    && self.log().last().buf_after == buffer@,
                forall|i: int|
                    0 <= i < retries ==> is_retryable(
                        #[trigger] attempt_results(self.log().skip(start))[i],
                    ),
            decreases RETRY_LIMIT - retries,
        {
            if retries >= RETRY_LIMIT {
                proof {
                    let a = self.log().skip(start);
                    assert(a.last() == self.log().last());
                    assert(attempt_results(a).last() == attempt_results(a)[a.len() - 1]);
                }
                return Err(TransactionError::Timeout);
            }
            retries = retries + 1;
            let ghost eb = self.ep()@;
            let ghost bb = buffer@;
            let ghost prev = self.log();
            let r = self.control_transfer_(buffer, direction, &request);
            self.attempts = Ghost(
                self.log().push(
                    Attempt {
                        before: eb,
                        after: self.ep()@,
                        buf_before: bb,
                        buf_after: buffer@,
                        result: r,
                    },
                ),
            );
            proof {
                let a = self.log().skip(start);
                let pa = prev.skip(start);
                assert(a =~= pa.push(self.log().last()));
                assert(log0.is_prefix_of(self.log()));
                assert forall|i: int|
                    #![trigger a[i], a[i + 1]]
                    0 <= i < a.len() - 1 implies a[i + 1].before == backoff(a[i].after)
                        && a[i].buf_after == a[i + 1].buf_before by {
                    if i < pa.len() - 1 {
                        assert(a[i] == pa[i]);
                        assert(a[i + 1] == pa[i + 1]);
                    } else {
                        assert(a[i] == pa.last());
                    }
                }
                assert forall|i: int| 0 <= i < a.len() implies control_attempt(
                    (#[trigger] a[i]).before,
                    a[i].after,
                    setup_request(request, direction, b0.len()),
                    a[i].buf_before,
                    a[i].buf_after,
                    a[i].result,
                ) by {
                    if i < pa.len() {
                        assert(a[i] == pa[i]);
                    }
                }
                assert forall|i: int| 0 <= i < retries - 1 implies is_retryable(
                    #[trigger] attempt_results(a)[i],
                ) by {
                    assert(attempt_results(a)[i] == attempt_results(pa)[i]);
                }
                assert(attempt_results(a)[a.len() - 1] == r);
                assert(attempt_results(a).last() == r);
            }
            match r {
                Ok(()) => {
                    return r;
                },
                Err(TransactionError::NotReady) => {},
                Err(TransactionError::Error) => {},
                Err(TransactionError::Timeout) => {
                    return r;
                },
            }
            self.endpoint.sleep_ms(RETRY_BACKOFF_MS);
        }
    }

    /// Reads `length` bytes with the control request `request`.
    pub fn control_read(&mut self, length: u16, request: ControlRequest) -> (r: TransactionResult<Vec<u8>>)
        ensures
            old(self).log().is_prefix_of(final(self).log()),
            control_transfer_outcome(
                final(self).log().skip(old(self).log().len() as int),
                old(self).ep()@,
                final(self).ep()@,
                Seq::new(length as nat, |i: int| 0u8),
                final(self).log().last().buf_after,
                request,
                Direction::DeviceToHost,
                unit_result(r),
            ),
            r is Ok ==> r->Ok_0@ == final(self).log().last().buf_after,
            r is Ok ==> r->Ok_0@.len() == length,
    {
        let mut buffer = vec![0u8; length as usize];
        proof {
            assert(buffer@ =~= Seq::new(length as nat, |i: int| 0u8));
        }
        let r = self.control_transfer(buffer.as_mut_slice(), Direction::DeviceToHost, request);
        proof {
            let a = self.log().skip(old(self).log().len() as int);
            assert(a.last() == self.log().last());
        }
        match r {
            Ok(u) => {
                proof {
                    lemma_unit(u);
                }
                Ok(buffer)
            },
            Err(e) => Err(e),
        }
    }

    /// Writes `data` with the control request `request`.
    pub fn control_write(&mut self, request: ControlRequest, data: &[u8]) -> (r: TransactionResult<()>)
        requires
            data@.len() <= u16::MAX,
        ensures
            old(self).log().is_prefix_of(final(self).log()),
            control_transfer_outcome(
                final(self).log().skip(old(self).log().len() as int),
                old(self).ep()@,
                final(self).ep()@,
                data@,
                final(self).log().last().buf_after,
                request,
                Direction::HostToDevice,
                r,
            ),
    {
        let mut buffer = vstd::slice::slice_to_vec(data);
        self.control_transfer(buffer.as_mut_slice(), Direction::HostToDevice, request)
    }
}

/// A transfer whose every attempt fails with `NotReady` makes exactly `RETRY_LIMIT`
/// attempts and then fails with `Timeout`.
pub proof fn lemma_retry_bound(results: Seq<TransactionResult<()>>, r: TransactionResult<()>)
    requires
        retry_outcome(results, r),
        forall|i: int|
            0 <= i < results.len() ==> #[trigger] results[i] == Err::<(), TransactionError>(
                TransactionError::NotReady,
            ),
    ensures
        results.len() == RETRY_LIMIT,
        r == Err::<(), TransactionError>(TransactionError::Timeout),
{
    assert(results.last() == results[results.len() - 1]);
}

} // verus!
