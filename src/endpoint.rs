//! One pipe's endpoint state: data toggle and max packet size, and the splitting of a buffer
//! into packets.

use vstd::prelude::*;
use vstd::arithmetic::div_mod::{lemma_div_by_self, lemma_div_minus_one, lemma_mod_self_0, lemma_mod_sub_multiples_vanish, lemma_small_mod};
use crate::hc::{submit_and_wait, wait_outcome, EPType, Submission, Transaction, TransactionDestination, TransactionError, TransactionResult, TransactionToken, URBStatus, HC};
use crate::std_request::{setup_bytes, StdRequest};

verus! {

/// One packet as the endpoint submitted it.
pub struct PacketRecord {
    pub token: TransactionToken,
    pub toggle: u8,
    /// SETUP and OUT: the bytes handed to the controller. IN: the bytes in the receive
    /// buffer once the transaction ended.
    pub data: Seq<u8>,
    pub result: TransactionResult<()>,
    /// The completion statuses read for the packet.
    pub polls: Seq<URBStatus>,
}

/// The state of an endpoint, with every packet it has submitted.
pub struct EndpointView {
    pub dest: TransactionDestination,
    pub ep_type: EPType,
    pub mps: u8,
    pub toggle: u8,
    pub trace: Seq<PacketRecord>,
    /// Milliseconds waited on the channel's time base, one entry per wait.
    pub waits: Seq<u32>,
    /// The transactions the channel has received.
    pub submitted: Seq<Submission>,
    /// The completion statuses read from the channel.
    pub statuses: Seq<URBStatus>,
}

/// `s` is the submission of packet `p`: the channel received its token, toggle, length and
/// bytes (for IN, handed back its bytes), and the packet's result is what the submission
/// returned when that failed, else the outcome of the wait over the statuses read for it.
pub open spec fn packet_submitted(p: PacketRecord, s: Submission) -> bool {
    &&& s.token == p.token
    &&& s.toggle == p.toggle
    &&& s.length == p.data.len()
    &&& p.token != TransactionToken::In ==> s.sent == p.data
    &&& p.token == TransactionToken::In ==> s.returned == p.data
    &&& s.accepted is Err ==> p.result == s.accepted && p.polls.len() == 0
    &&& s.accepted is Ok ==> p.polls.len() > 0 && wait_outcome(p.polls, p.result)
}

/// The statuses read for the packets, in order.
pub open spec fn all_polls(recs: Seq<PacketRecord>) -> Seq<URBStatus>
    decreases recs.len(),
{
    if recs.len() == 0 {
        Seq::empty()
    } else {
        all_polls(recs.drop_last()) + recs.last().polls
    }
}

/// From `before` to `after` the channel received exactly the packets `recs`, in order, and
/// the statuses read were theirs.
pub open spec fn on_channel(recs: Seq<PacketRecord>, before: EndpointView, after: EndpointView) -> bool {
    &&& before.submitted.is_prefix_of(after.submitted)
    &&& after.submitted.len() == before.submitted.len() + recs.len()
    &&& forall|i: int|
        0 <= i < recs.len() ==> #[trigger] packet_submitted(
            recs[i],
            after.submitted[before.submitted.len() + i],
        )
    &&& after.statuses == before.statuses + all_polls(recs)
}

/// The statuses of two runs of packets are those of the first, then the second's.
pub proof fn lemma_all_polls_append(a: Seq<PacketRecord>, b: Seq<PacketRecord>)
    ensures
        all_polls(a + b) == all_polls(a) + all_polls(b),
    decreases b.len(),
{
    if b.len() == 0 {
        assert(a + b =~= a);
        assert(all_polls(a) + Seq::<URBStatus>::empty() =~= all_polls(a));
    } else {
        assert((a + b).drop_last() =~= a + b.drop_last());
        assert((a + b).last() == b.last());
        lemma_all_polls_append(a, b.drop_last());
        assert(all_polls(a) + all_polls(b.drop_last()) + b.last().polls =~= all_polls(a) + (
        all_polls(b.drop_last()) + b.last().polls));
    }
}

/// No packets leave the channel as it was.
pub proof fn lemma_on_channel_empty(v: EndpointView)
    ensures
        on_channel(Seq::empty(), v, v),
{
    assert(v.statuses + all_polls(Seq::<PacketRecord>::empty()) =~= v.statuses);
}

/// Two runs of packets one after the other reach the channel as one run.
pub proof fn lemma_on_channel_append(
    r1: Seq<PacketRecord>,
    r2: Seq<PacketRecord>,
    v0: EndpointView,
    v1: EndpointView,
    v2: EndpointView,
)
    requires
        on_channel(r1, v0, v1),
        on_channel(r2, v1, v2),
    ensures
        on_channel(r1 + r2, v0, v2),
{
    let n0 = v0.submitted.len() as int;
    let n1 = v1.submitted.len() as int;
    lemma_all_polls_append(r1, r2);
    assert forall|i: int| 0 <= i < (r1 + r2).len() implies #[trigger] packet_submitted(
        (r1 + r2)[i],
        v2.submitted[n0 + i],
    ) by {
        if i < r1.len() {
            assert(v2.submitted[n0 + i] == v1.submitted[n0 + i]);
            assert(packet_submitted(r1[i], v1.submitted[n0 + i]));
        } else {
            let j = i - r1.len();
            assert(packet_submitted(r2[j], v2.submitted[n1 + j]));
        }
    }
    assert(v0.statuses + all_polls(r1) + all_polls(r2) =~= v0.statuses + (all_polls(r1)
        + all_polls(r2)));
}

/// One packet reaches the channel as its one submission.
proof fn lemma_on_channel_one(p: PacketRecord, s: Submission, v0: EndpointView, v1: EndpointView)
    requires
        v1.submitted == v0.submitted.push(s),
        packet_submitted(p, s),
        v1.statuses == v0.statuses + p.polls,
    ensures
        on_channel(seq![p], v0, v1),
{
    assert(seq![p].drop_last() =~= Seq::<PacketRecord>::empty());
    assert(all_polls(Seq::<PacketRecord>::empty()) == Seq::<URBStatus>::empty());
    assert(seq![p].last() == p);
    assert(all_polls(seq![p]) =~= p.polls);
    assert(v1.submitted[v0.submitted.len() as int] == s);
}

/// The other value of a data toggle.
pub open spec fn flip(t: u8) -> u8 {
    if t == 0 {
        1
    } else {
        0
    }
}

/// The toggle of the `i`-th packet of a run that starts at `t`.
pub open spec fn toggle_at(t: u8, i: int) -> u8 {
    if i % 2 == 0 {
        t
    } else {
        flip(t)
    }
}

/// The packets a buffer is sent in: `mps` bytes each but the last, which is shorter or
/// full; an empty buffer is sent as one empty packet.
pub open spec fn chunks(s: Seq<u8>, mps: nat) -> Seq<Seq<u8>>
    decreases s.len(),
{
    if s.len() <= mps || mps == 0 {
        seq![s]
    } else {
        seq![s.take(mps as int)] + chunks(s.skip(mps as int), mps)
    }
}

/// `recs` are the packets of one transfer of `parts` with `token`, starting at toggle `t`:
/// one packet per part, in order, of its length, each at the toggle that the successful
/// packets before it left; the run ends at the first failure or after the last part.
pub open spec fn packet_run(
    recs: Seq<PacketRecord>,
    token: TransactionToken,
    parts: Seq<Seq<u8>>,
    t: u8,
) -> bool {
    &&& 1 <= recs.len() <= parts.len()
    &&& forall|i: int|
        0 <= i < recs.len() ==> (#[trigger] recs[i]).token == token && recs[i].toggle
            == toggle_at(t, i) && recs[i].data.len() == parts[i].len()
    &&& forall|i: int| 0 <= i < recs.len() - 1 ==> (#[trigger] recs[i]).result is Ok
    &&& recs.last().result is Ok ==> recs.len() == parts.len()
}

/// The successful packets of a run.
pub open spec fn ok_count(recs: Seq<PacketRecord>) -> nat {
    if recs.last().result is Ok {
        recs.len()
    } else {
        (recs.len() - 1) as nat
    }
}

/// Each packet carried its part.
pub open spec fn carries(recs: Seq<PacketRecord>, parts: Seq<Seq<u8>>) -> bool {
    forall|i: int| 0 <= i < recs.len() ==> (#[trigger] recs[i]).data == parts[i]
}

/// The data of the packets, joined in order.
pub open spec fn joined(recs: Seq<PacketRecord>) -> Seq<u8>
    decreases recs.len(),
{
    if recs.len() == 0 {
        Seq::empty()
    } else {
        joined(recs.drop_last()) + recs.last().data
    }
}

/// From `before` to `after` the endpoint made one transfer of `parts` with `token` that
/// returned `r`: the packets were appended to the trace, the toggle advanced once per
/// successful packet, and nothing else changed.
pub open spec fn transfer(
    before: EndpointView,
    after: EndpointView,
    token: TransactionToken,
    parts: Seq<Seq<u8>>,
    r: TransactionResult<()>,
) -> bool {
    let recs = after.trace.skip(before.trace.len() as int);
    &&& before.trace.is_prefix_of(after.trace)
    &&& packet_run(recs, token, parts, before.toggle)
    &&& r == recs.last().result
    &&& after.toggle == toggle_at(before.toggle, ok_count(recs) as int)
    &&& after.dest == before.dest
    &&& after.ep_type == before.ep_type
    &&& after.mps == before.mps
    &&& after.waits == before.waits
    &&& on_channel(recs, before, after)
}

/// The data of the successful packets of a run, joined in order.
pub open spec fn received(recs: Seq<PacketRecord>) -> Seq<u8> {
    joined(recs.take(ok_count(recs) as int))
}

/// `p` went through with `token` at `toggle` and carried `data`.
pub open spec fn sent_as(p: PacketRecord, token: TransactionToken, toggle: u8, data: Seq<u8>) -> bool {
    p.token == token && p.toggle == toggle && p.data == data && p.result is Ok
}

/// A run whose packets before the last went through as `done`, at alternating toggles,
/// followed by one more packet `last` of the next part.
proof fn lemma_run_step(
    prev: Seq<PacketRecord>,
    trace: Seq<PacketRecord>,
    start: int,
    token: TransactionToken,
    t0: u8,
    done: Seq<Seq<u8>>,
    parts: Seq<Seq<u8>>,
    last: PacketRecord,
)
    requires
        0 <= start,
        prev.len() == start + done.len(),
        trace == prev.push(last),
        forall|i: int|
            0 <= i < done.len() ==> #[trigger] sent_as(
                prev[start + i],
                token,
                toggle_at(t0, i),
                done[i],
            ),
        done.len() < parts.len(),
        forall|i: int| 0 <= i < done.len() ==> (#[trigger] parts[i]).len() == done[i].len(),
        last.token == token,
        last.toggle == toggle_at(t0, done.len() as int),
        last.data.len() == parts[done.len() as int].len(),
    ensures
        last.result is Ok ==> done.len() + 1 == parts.len() ==> packet_run(
            trace.skip(start),
            token,
            parts,
            t0,
        ),
        last.result is Err ==> packet_run(trace.skip(start), token, parts, t0),
        trace.skip(start).last() == last,
        ok_count(trace.skip(start)) == if last.result is Ok {
            done.len() + 1
        } else {
            done.len() + 0
        },
        (forall|i: int| 0 <= i < done.len() ==> #[trigger] parts[i] == done[i]) && last.data
            == parts[done.len() as int] ==> carries(trace.skip(start), parts),
{
    let recs = trace.skip(start);
    assert forall|i: int| 0 <= i < recs.len() implies (#[trigger] recs[i]).token == token
        && recs[i].toggle == toggle_at(t0, i) && recs[i].data.len() == parts[i].len()
        && (i < recs.len() - 1 ==> recs[i].result is Ok) && ((forall|j: int|
        0 <= j < done.len() ==> #[trigger] parts[j] == done[j]) && last.data == parts[done.len() as int]
        ==> recs[i].data == parts[i]) by {
        if i < done.len() {
            assert(recs[i] == prev[start + i]);
            assert(sent_as(prev[start + i], token, toggle_at(t0, i), done[i]));
        } else {
            assert(recs[i] == last);
        }
    }
}

/// Unfolds `chunks` once.
proof fn lemma_chunks_unfold(s: Seq<u8>, mps: nat)
    requires
        mps > 0,
    ensures
        s.len() <= mps ==> chunks(s, mps) == seq![s],
        s.len() > mps ==> chunks(s, mps) == seq![s.take(mps as int)] + chunks(
            s.skip(mps as int),
            mps,
        ),
{
}

/// Appending a packet appends its data.
proof fn lemma_joined_push(recs: Seq<PacketRecord>, p: PacketRecord)
    ensures
        joined(recs.push(p)) == joined(recs) + p.data,
{
    assert(recs.push(p).drop_last() =~= recs);
}

/// Copies `data` into `buf` from `off` on.
fn copy_into(buf: &mut [u8], off: usize, data: &Vec<u8>)
    requires
        off + data@.len() <= old(buf)@.len(),
    ensures
        final(buf)@ == old(buf)@.take(off as int) + data@ + old(buf)@.skip(
            off + data@.len(),
        ),
{
    let ghost pre = buf@;
    let n = buf.len();
    let mut j: usize = 0;
    while j < data.len()
        invariant
            off + data@.len() <= pre.len(),
            n == pre.len(),
            buf@.len() == pre.len(),
            j <= data@.len(),
            forall|k: int|
                0 <= k < pre.len() ==> buf@[k] == if off <= k < off + j {
                    data@[k - off]
                } else {
                    pre[k]
                },
        decreases data@.len() - j,
    {
        buf[off + j] = data[j];
        j = j + 1;
    }
    assert(buf@ =~= pre.take(off as int) + data@ + pre.skip(off + data@.len()));
}

/// Max packet size and data toggle of a pipe.
struct PipeState {
    mps: u8,
    toggle: u8,
}

impl PipeState {
    #[verifier::type_invariant]
    spec fn inv(&self) -> bool {
        self.mps > 0 && self.toggle <= 1
    }
}

/// The endpoint of one pipe. It owns the channel bound to the pipe, the data toggle and
/// the max packet size.
pub struct ControlEP<H: HC> {
    hc: Box<H>,
    dest: TransactionDestination,
    ep_type: EPType,
    state: PipeState,
    trace: Ghost<Seq<PacketRecord>>,
    waits: Ghost<Seq<u32>>,
}

impl<H: HC> View for ControlEP<H> {
    type V = EndpointView;

    closed spec fn view(&self) -> EndpointView {
        EndpointView {
            dest: self.dest,
            ep_type: self.ep_type,
            mps: self.state.mps,
            toggle: self.state.toggle,
            trace: self.trace@,
            waits: self.waits@,
            submitted: (*self.hc).submitted(),
            statuses: (*self.hc).statuses(),
        }
    }
}

impl<H: HC> ControlEP<H> {
    /// The channel the endpoint owns.
    pub closed spec fn channel(&self) -> H {
        *self.hc
    }

    /// An endpoint on the channel `hc`, with its destination and transfer type, max packet
    /// size 8 and toggle 0.
    pub fn new(hc: Box<H>) -> (r: Self)
        ensures
            r.channel() == *hc,
            r@.dest == hc.dest_of(),
            r@.ep_type == hc.ep_type_of(),
            r@.mps == 8,
            r@.toggle == 0,
            r@.trace == Seq::<PacketRecord>::empty(),
            r@.waits == Seq::<u32>::empty(),
    {
        let dest = hc.get_dest();
        let ep_type = hc.get_ep_type();
        ControlEP {
            hc,
            dest,
            ep_type,
            state: PipeState { mps: 8, toggle: 0 },
            trace: Ghost(Seq::empty()),
            waits: Ghost(Seq::empty()),
        }
    }

    /// The channel.
    pub fn hc(&self) -> (r: &H)
        ensures
            *r == self.channel(),
    {
        &*self.hc
    }

    pub fn dest(&self) -> (r: TransactionDestination)
        ensures
            r == self@.dest,
    {
        self.dest
    }

    pub fn data_toggle(&self) -> (r: u8)
        ensures
            r == self@.toggle,
    {
        self.state.toggle
    }

    pub fn max_packet_size(&self) -> (r: u8)
        ensures
            r == self@.mps,
    {
        self.state.mps
    }

    /// Sends the SETUP packet of `req` at toggle 0; on success the toggle becomes 1, the
    /// toggle of the first data packet of a control transfer.
    pub fn send_setup(&mut self, req: StdRequest) -> (r: TransactionResult<()>)
        ensures
            final(self)@.trace == old(self)@.trace.push(
                PacketRecord {
                    token: TransactionToken::Setup,
                    toggle: 0,
                    data: setup_bytes(req),
                    result: r,
                    polls: final(self)@.trace.last().polls,
                },
            ),
            on_channel(seq![final(self)@.trace.last()], old(self)@, final(self)@),
            final(self)@.toggle == if r is Ok {
                1
            } else {
                old(self)@.toggle
            },
            final(self)@.dest == old(self)@.dest,
            final(self)@.ep_type == old(self)@.ep_type,
            final(self)@.mps == old(self)@.mps,
            final(self)@.waits == old(self)@.waits,
    {
        proof {
            use_type_invariant(&self.state);
        }
        let bytes = req.encode();
        let buffer = vec![
            bytes[0],
            bytes[1],
            bytes[2],
            bytes[3],
            bytes[4],
            bytes[5],
            bytes[6],
            bytes[7],
        ];
        assert(buffer@ =~= setup_bytes(req));
        let mut transaction = Transaction {
            token: TransactionToken::Setup,
            toggle: 0,
            buffer,
            length: 8,
        };
        let ghost v0 = self@;
        let (r, Ghost(polls)) = submit_and_wait(&mut *self.hc, &mut transaction);
        let ghost rec = PacketRecord {
            token: TransactionToken::Setup,
            toggle: 0,
            data: setup_bytes(req),
            result: r,
            polls,
        };
        self.trace = Ghost(self.trace@.push(rec));
        if r.is_ok() {
            self.state = PipeState { mps: self.state.mps, toggle: 1 };
        }
        proof {
            lemma_on_channel_one(rec, self@.submitted.last(), v0, self@);
        }
        r
    }

    /// Sends `data` as one OUT packet at the current toggle, and flips the toggle if it
    /// went through.
    fn send_packet(&mut self, data: Vec<u8>) -> (r: TransactionResult<()>)
        requires
            data@.len() <= old(self)@.mps,
        ensures
            final(self)@.trace == old(self)@.trace.push(
                PacketRecord {
                    token: TransactionToken::Out,
                    toggle: old(self)@.toggle,
                    data: data@,
                    result: r,
                    polls: final(self)@.trace.last().polls,
                },
            ),
            on_channel(seq![final(self)@.trace.last()], old(self)@, final(self)@),
            final(self)@.toggle == if r is Ok {
                flip(old(self)@.toggle)
            } else {
                old(self)@.toggle
            },
            final(self)@.dest == old(self)@.dest,
            final(self)@.ep_type == old(self)@.ep_type,
            final(self)@.mps == old(self)@.mps,
            final(self)@.waits == old(self)@.waits,
    {
        proof {
            use_type_invariant(&self.state);
        }
        let ghost sent = data@;
        let toggle = self.state.toggle;
        let length = data.len() as u8;
        let mut transaction = Transaction { token: TransactionToken::Out, toggle, buffer: data, length };
        let ghost v0 = self@;
        let (r, Ghost(polls)) = submit_and_wait(&mut *self.hc, &mut transaction);
        let ghost rec = PacketRecord { token: TransactionToken::Out, toggle, data: sent, result: r, polls };
        self.trace = Ghost(self.trace@.push(rec));
        if r.is_ok() {
            self.state = PipeState { mps: self.state.mps, toggle: 1 - toggle };
        }
        proof {
            lemma_on_channel_one(rec, self@.submitted.last(), v0, self@);
        }
        r
    }

    /// Receives one IN packet of `len` bytes at the current toggle, and flips the toggle if
    /// it went through. Returns the result and the receive buffer.
    fn recv_packet(&mut self, len: usize) -> (r: (TransactionResult<()>, Vec<u8>))
        requires
            len <= old(self)@.mps,
        ensures
            r.1@.len() == len,
            final(self)@.trace == old(self)@.trace.push(
                PacketRecord {
                    token: TransactionToken::In,
                    toggle: old(self)@.toggle,
                    data: r.1@,
                    result: r.0,
                    polls: final(self)@.trace.last().polls,
                },
            ),
            on_channel(seq![final(self)@.trace.last()], old(self)@, final(self)@),
            final(self)@.toggle == if r.0 is Ok {
                flip(old(self)@.toggle)
            } else {
                old(self)@.toggle
            },
            final(self)@.dest == old(self)@.dest,
            final(self)@.ep_type == old(self)@.ep_type,
            final(self)@.mps == old(self)@.mps,
            final(self)@.waits == old(self)@.waits,
    {
        proof {
            use_type_invariant(&self.state);
        }
        let toggle = self.state.toggle;
        let mut transaction = Transaction {
            token: TransactionToken::In,
            toggle,
            buffer: vec![0u8; len],
            length: len as u8,
        };
        let ghost v0 = self@;
        let (r, Ghost(polls)) = submit_and_wait(&mut *self.hc, &mut transaction);
        let data = transaction.buffer;
        let ghost rec = PacketRecord { token: TransactionToken::In, toggle, data: data@, result: r, polls };
        self.trace = Ghost(self.trace@.push(rec));
        if r.is_ok() {
            self.state = PipeState { mps: self.state.mps, toggle: 1 - toggle };
        }
        proof {
            lemma_on_channel_one(rec, self@.submitted.last(), v0, self@);
        }
        (r, data)
    }

    /// Sends `buf` as OUT packets of at most max-packet-size bytes: full packets while a full
    /// chunk is left, then the rest if any. An empty buffer is sent as one empty packet; a
    /// buffer whose length is a multiple of the max packet size ends with a full packet. Stops
    /// at the first packet that fails and returns its error.
    pub fn send_packets(&mut self, buf: &[u8]) -> (r: TransactionResult<()>)
        ensures
            transfer(
                old(self)@,
                final(self)@,
                TransactionToken::Out,
                chunks(buf@, old(self)@.mps as nat),
                r,
            ),
            carries(
                final(self)@.trace.skip(old(self)@.trace.len() as int),
                chunks(buf@, old(self)@.mps as nat),
            ),
    {
        proof {
            use_type_invariant(&self.state);
        }
        let mps = self.state.mps as usize;
        let len = buf.len();
        let ghost before = self@;
        let ghost start = before.trace.len() as int;
        let ghost t0 = before.toggle;
        let ghost parts = chunks(buf@, mps as nat);
        let ghost mut done: Seq<Seq<u8>> = Seq::empty();
        let mut off: usize = 0;
        proof {
            assert(buf@.skip(0) =~= buf@);
            assert(done + parts =~= parts);
            assert(self@.trace.skip(start) =~= Seq::<PacketRecord>::empty());
            lemma_on_channel_empty(self@);
        }
        loop
            invariant
                before == old(self)@,
                len == buf@.len(),
                mps == before.mps,
                mps > 0,
                t0 <= 1,
                start == before.trace.len(),
                t0 == before.toggle,
                self@.dest == before.dest,
                self@.ep_type == before.ep_type,
                self@.mps == before.mps,
                self@.waits == before.waits,
                before.trace.is_prefix_of(self@.trace),
                on_channel(self@.trace.skip(start), before, self@),
                off <= len,
                off < len || (off == 0 && len == 0),
                parts == chunks(buf@, mps as nat),
                parts == done + chunks(buf@.skip(off as int), mps as nat),
                self@.trace.len() == start + done.len(),
                forall|i: int|
                    0 <= i < done.len() ==> #[trigger] sent_as(
                        self@.trace[start + i],
                        TransactionToken::Out,
                        toggle_at(t0, i),
                        done[i],
                    ),
                self@.toggle == toggle_at(t0, done.len() as int),
            decreases len - off,
        {
            let end = if len - off > mps {
                off + mps
            } else {
                len
            };
            let chunk = vstd::slice::slice_to_vec(vstd::slice::slice_subrange(buf, off, end));
            let ghost cdata = chunk@;
            let ghost rest = buf@.skip(off as int);
            proof {
                lemma_chunks_unfold(rest, mps as nat);
                if rest.len() <= mps {
                    assert(cdata =~= rest);
                } else {
                    assert(cdata =~= rest.take(mps as int));
                    assert(rest.skip(mps as int) =~= buf@.skip(end as int));
                }
            }
            let ghost prev = self@.trace;
            let ghost pv = self@;
            let r = self.send_packet(chunk);
            let ghost recs = self@.trace.skip(start);
            proof {
                lemma_on_channel_append(prev.skip(start), seq![self@.trace.last()], before, pv, self@);
                assert(prev.skip(start) + seq![self@.trace.last()] =~= recs);
                assert(prev.is_prefix_of(self@.trace));
                assert forall|i: int| 0 <= i < recs.len() implies recs[i] == self@.trace[start
                    + i] by {}
            }
            if let Err(_) = r {
                proof {
                    assert(parts =~= done.push(cdata) + (if rest.len() <= mps {
                        Seq::empty()
                    } else {
                        chunks(buf@.skip(end as int), mps as nat)
                    }));
                    lemma_run_step(
                        prev,
                        self@.trace,
                        start,
                        TransactionToken::Out,
                        t0,
                        done,
                        parts,
                        self@.trace.last(),
                    );
                }
                return r;
            }
            proof {
                lemma_run_step(
                    prev,
                    self@.trace,
                    start,
                    TransactionToken::Out,
                    t0,
                    done,
                    parts,
                    self@.trace.last(),
                );
                assert forall|i: int| 0 <= i < done.len() + 1 implies #[trigger] sent_as(
                    self@.trace[start + i],
                    TransactionToken::Out,
                    toggle_at(t0, i),
                    done.push(cdata)[i],
                ) by {
                    if i < done.len() {
                        assert(self@.trace[start + i] == prev[start + i]);
                        assert(done.push(cdata)[i] == done[i]);
                    } else {
                        assert(self@.trace[start + i] == self@.trace.last());
                    }
                }
                done = done.push(cdata);
                assert(parts =~= done + (if rest.len() <= mps {
                    Seq::empty()
                } else {
                    chunks(buf@.skip(end as int), mps as nat)
                }));
            }
            off = end;
            if off >= len {
                proof {
                    assert(rest.len() <= mps);
                    assert(parts =~= done);
                    assert(packet_run(recs, TransactionToken::Out, parts, t0));
                }
                return r;
            }
        }
    }

    /// Receives `buf` as IN packets, split as `send_packets` splits: full packets while a
    /// full chunk is left, then the rest if any, and one empty packet for an empty buffer.
    /// The data of each packet that went through is stored in order from the start of `buf`;
    /// the rest of `buf` keeps its bytes. Stops at the first packet that fails and returns its
    /// error.
    #[verifier::spinoff_prover]
    pub fn recv_packets(&mut self, buf: &mut [u8]) -> (r: TransactionResult<()>)
        ensures
            transfer(
                old(self)@,
                final(self)@,
                TransactionToken::In,
                chunks(old(buf)@, old(self)@.mps as nat),
                r,
            ),
            final(buf)@.len() == old(buf)@.len(),
            final(buf)@ == received(final(self)@.trace.skip(old(self)@.trace.len() as int))
                + old(buf)@.skip(
                received(final(self)@.trace.skip(old(self)@.trace.len() as int)).len() as int,
            ),
    {
        proof {
            use_type_invariant(&self.state);
        }
        let mps = self.state.mps as usize;
        let len = buf.len();
        let ghost before = self@;
        let ghost start = before.trace.len() as int;
        let ghost t0 = before.toggle;
        let ghost orig = buf@;
        let ghost parts = chunks(orig, mps as nat);
        let ghost mut done: Seq<Seq<u8>> = Seq::empty();
        let mut off: usize = 0;
        proof {
            assert(orig.skip(0) =~= orig);
            assert(done + parts =~= parts);
            assert(self@.trace.skip(start) =~= Seq::<PacketRecord>::empty());
            assert(buf@ =~= joined(self@.trace.skip(start)) + orig.skip(0));
            lemma_on_channel_empty(self@);
        }
        loop
            invariant
                before == old(self)@,
                orig == old(buf)@,
                len == buf@.len(),
                len == orig.len(),
                mps == before.mps,
                mps > 0,
                t0 <= 1,
                start == before.trace.len(),
                t0 == before.toggle,
                self@.dest == before.dest,
                self@.ep_type == before.ep_type,
                self@.mps == before.mps,
                self@.waits == before.waits,
                before.trace.is_prefix_of(self@.trace),
                on_channel(self@.trace.skip(start), before, self@),
                off <= len,
                off < len || (off == 0 && len == 0),
                parts == chunks(orig, mps as nat),
                parts == done + chunks(orig.skip(off as int), mps as nat),
                self@.trace.len() == start + done.len(),
                forall|i: int|
                    0 <= i < done.len() ==> #[trigger] sent_as(
                        self@.trace[start + i],
                        TransactionToken::In,
                        toggle_at(t0, i),
                        self@.trace[start + i].data,
                    ),
                forall|i: int|
                    0 <= i < done.len() ==> self@.trace[start + i].data.len() == (
                    #[trigger] done[i]).len(),
                self@.toggle == toggle_at(t0, done.len() as int),
                joined(self@.trace.skip(start)).len() == off,
                buf@ == joined(self@.trace.skip(start)) + orig.skip(off as int),
            decreases len - off,
        {
            let end = if len - off > mps {
                off + mps
            } else {
                len
            };
            let ghost rest = orig.skip(off as int);
            let ghost cpart = orig.subrange(off as int, end as int);
            proof {
                lemma_chunks_unfold(rest, mps as nat);
                if rest.len() <= mps {
                    assert(cpart =~= rest);
                } else {
                    assert(cpart =~= rest.take(mps as int));
                    assert(rest.skip(mps as int) =~= orig.skip(end as int));
                }
                assert(parts =~= done.push(cpart) + (if rest.len() <= mps {
                    Seq::empty()
                } else {
                    chunks(orig.skip(end as int), mps as nat)
                }));
            }
            let ghost prev = self@.trace;
            let ghost pv = self@;
            let (r, data) = self.recv_packet(end - off);
            let ghost recs = self@.trace.skip(start);
            proof {
                lemma_on_channel_append(prev.skip(start), seq![self@.trace.last()], before, pv, self@);
                assert(prev.skip(start) + seq![self@.trace.last()] =~= recs);
                assert(prev.is_prefix_of(self@.trace));
                assert(recs =~= prev.skip(start).push(self@.trace.last()));
                lemma_joined_push(prev.skip(start), self@.trace.last());
                let pdata = Seq::new(done.len(), |i: int| prev[start + i].data);
                assert forall|i: int| 0 <= i < done.len() implies #[trigger] sent_as(
                    prev[start + i],
                    TransactionToken::In,
                    toggle_at(t0, i),
                    pdata[i],
                ) by {
                    assert(sent_as(
                        prev[start + i],
                        TransactionToken::In,
                        toggle_at(t0, i),
                        prev[start + i].data,
                    ));
                }
                assert forall|i: int| 0 <= i < done.len() implies (#[trigger] parts[i]).len()
                    == pdata[i].len() by {
                    assert(prev[start + i].data.len() == done[i].len());
                    assert(parts[i] == done[i]);
                }
                lemma_run_step(
                    prev,
                    self@.trace,
                    start,
                    TransactionToken::In,
                    t0,
                    pdata,
                    parts,
                    self@.trace.last(),
                );
            }
            if let Err(_) = r {
                proof {
                    assert(recs.take(ok_count(recs) as int) =~= prev.skip(start));
                }
                return r;
            }
            copy_into(buf, off, &data);
            proof {
                assert(buf@ =~= joined(recs) + orig.skip(end as int));
                let ndone = done.push(cpart);
                assert forall|i: int| 0 <= i < ndone.len() implies #[trigger] sent_as(
                    self@.trace[start + i],
                    TransactionToken::In,
                    toggle_at(t0, i),
                    self@.trace[start + i].data,
                ) by {
                    if i < done.len() {
                        assert(self@.trace[start + i] == prev[start + i]);
                        assert(sent_as(
                            prev[start + i],
                            TransactionToken::In,
                            toggle_at(t0, i),
                            prev[start + i].data,
                        ));
                    } else {
                        assert(self@.trace[start + i] == self@.trace.last());
                    }
                }
                assert forall|i: int| 0 <= i < ndone.len() implies self@.trace[start
                    + i].data.len() == (#[trigger] ndone[i]).len() by {
                    if i < done.len() {
                        assert(self@.trace[start + i] == prev[start + i]);
                        assert(ndone[i] == done[i]);
                    } else {
                        assert(self@.trace[start + i] == self@.trace.last());
                        assert(ndone[i] == cpart);
                    }
                }
                done = done.push(cpart);
            }
            off = end;
            if off >= len {
                proof {
                    assert(rest.len() <= mps);
                    assert(parts =~= done);
                    assert(recs.take(ok_count(recs) as int) =~= recs);
                    assert(orig.skip(len as int) =~= Seq::<u8>::empty());
                }
                return r;
            }
        }
    }

    /// Moves the endpoint to device address `new_address`: the channel is bound anew to
    /// the new destination, with the same endpoint number, transfer type and max packet size.
    pub fn set_address(&mut self, new_address: u8) -> (r: TransactionResult<()>)
        ensures
            r is Ok,
            final(self)@ == (EndpointView {
                dest: TransactionDestination { dev: new_address, ep: old(self)@.dest.ep },
                submitted: Seq::empty(),
                statuses: Seq::empty(),
                ..old(self)@
            }),
            final(self).channel().dest_of() == final(self)@.dest,
            final(self).channel().ep_type_of() == old(self)@.ep_type,
            final(self).channel().mps_of() == old(self)@.mps as u32,
    {
        self.dest = TransactionDestination { dev: new_address, ep: self.dest.ep };
        self.hc = Box::new(H::new(self.dest, self.ep_type, self.state.mps as u32));
        proof {
            assert(self@.submitted =~= Seq::<Submission>::empty());
            assert(self@.statuses =~= Seq::<URBStatus>::empty());
        }
        Ok(())
    }

    /// Waits `ms` milliseconds on the channel's time base.
    pub fn sleep_ms(&mut self, ms: u32)
        ensures
            final(self)@ == (EndpointView { waits: old(self)@.waits.push(ms), ..old(self)@ }),
    {
        self.hc.sleep_ms(ms);
        self.waits = Ghost(self.waits@.push(ms));
    }

    pub fn set_data_toggle(&mut self, toggle: u8)
        requires
            toggle <= 1,
        ensures
            final(self)@ == (EndpointView { toggle, ..old(self)@ }),
    {
        proof {
            use_type_invariant(&self.state);
        }
        self.state = PipeState { mps: self.state.mps, toggle };
    }

    pub fn set_max_packet_size(&mut self, mps: u8)
        requires
            mps > 0,
        ensures
            final(self)@ == (EndpointView { mps, ..old(self)@ }),
            final(self).channel().mps_of() == mps as u32,
            final(self).channel().dest_of() == old(self).channel().dest_of(),
            final(self).channel().ep_type_of() == old(self).channel().ep_type_of(),
    {
        proof {
            use_type_invariant(&self.state);
        }
        self.state = PipeState { mps, toggle: self.state.toggle };
        self.hc.set_max_packet_size(mps as u32);
    }
}

/// Packets a buffer of `len` bytes is sent in at max packet size `mps`.
pub open spec fn packet_count(len: nat, mps: nat) -> nat {
    if len == 0 {
        1
    } else if len % mps == 0 {
        len / mps
    } else {
        len / mps + 1
    }
}

/// A buffer of `L` bytes is split into ceil(L / M) packets at max packet size M when L is
/// not a multiple of M, into L / M packets when it is a nonzero multiple, and into one empty
/// packet when it is empty.
pub proof fn lemma_packet_count(s: Seq<u8>, mps: nat)
    requires
        mps > 0,
    ensures
        chunks(s, mps).len() == packet_count(s.len(), mps),
        s.len() == 0 ==> chunks(s, mps) == seq![Seq::<u8>::empty()],
    decreases s.len(),
{
    if s.len() <= mps {
        if s.len() == mps {
            lemma_div_by_self(mps as int);
            lemma_mod_self_0(mps as int);
        } else if s.len() > 0 {
            lemma_small_mod(s.len(), mps);
            assert(s.len() / mps == 0) by (nonlinear_arith)
                requires
                    s.len() < mps,
            ;
        } else {
            assert(s =~= Seq::<u8>::empty());
        }
    } else {
        lemma_packet_count(s.skip(mps as int), mps);
        lemma_div_minus_one(s.len() as int, mps as int);
        lemma_mod_sub_multiples_vanish(s.len() as int, mps as int);
    }
}

/// A transfer of a buffer of `L` bytes that succeeds issues exactly as many packets as
/// `packet_count` gives for `L`.
pub proof fn lemma_packets_issued(
    before: EndpointView,
    after: EndpointView,
    token: TransactionToken,
    s: Seq<u8>,
    r: TransactionResult<()>,
)
    requires
        before.mps > 0,
        transfer(before, after, token, chunks(s, before.mps as nat), r),
        r is Ok,
    ensures
        after.trace.len() - before.trace.len() == packet_count(s.len(), before.mps as nat),
{
    lemma_packet_count(s, before.mps as nat);
}

/// In a transfer the first packet uses the toggle the endpoint had, each packet after a
/// successful one uses the other toggle, and the toggle left behind is the other one after
/// a success and the failed packet's own after a failure.
pub proof fn lemma_toggle_alternation(
    before: EndpointView,
    after: EndpointView,
    token: TransactionToken,
    parts: Seq<Seq<u8>>,
    r: TransactionResult<()>,
)
    requires
        before.toggle <= 1,
        transfer(before, after, token, parts, r),
    ensures
        ({
            let recs = after.trace.skip(before.trace.len() as int);
            &&& recs[0].toggle == before.toggle
            &&& forall|i: int|
                #![trigger recs[i], recs[i + 1]]
                0 <= i < recs.len() - 1 ==> recs[i + 1].toggle == flip(recs[i].toggle)
            &&& r is Ok ==> after.toggle == flip(recs.last().toggle)
            &&& r is Err ==> after.toggle == recs.last().toggle
        }),
{
    let recs = after.trace.skip(before.trace.len() as int);
    assert forall|i: int|
        #![trigger recs[i], recs[i + 1]]
        0 <= i < recs.len() - 1 implies recs[i + 1].toggle == flip(recs[i].toggle) by {
        assert(recs[i].toggle == toggle_at(before.toggle, i));
        assert(recs[i + 1].toggle == toggle_at(before.toggle, i + 1));
    }
    assert(recs.last() == recs[recs.len() - 1]);
}

} // verus!
