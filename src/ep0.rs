//! Endpoint 0 as the descriptor decoder sees it: fetch a descriptor, fetch a string.

use vstd::prelude::*;
use crate::control::{control_attempt, control_transfer_outcome, setup_request, transfer_end, transfer_result, Attempt, ControlEndpoint, ControlRequest};
use crate::endpoint::{ControlEP, EndpointView};
use crate::hc::{TransactionDestination, TransactionError, TransactionResult, HC};
use crate::std_request::{Direction, Recipient, RequestByte, RequestKind};

verus! {

/// Descriptor type of a string descriptor.
pub const STRING_DESCRIPTOR: u8 = 3;

/// One request made through endpoint 0, with what came of it.
pub enum Ep0Event {
    /// A descriptor fetch of `length` bytes; `data` is the buffer once it ended.
    Descriptor {
        descriptor_type: u8,
        index: u8,
        length: nat,
        result: TransactionResult<()>,
        data: Seq<u8>,
    },
    /// A string fetch and the text it gave.
    Text { index: u8, text: Result<Seq<char>, TransactionError> },
    /// A new max packet size for endpoint 0.
    MaxPacketSize { mps: u8 },
    /// A change of the device's address.
    Address { address: u8, result: TransactionResult<()> },
}

/// What an endpoint 0 answers from, where that is known: the descriptor and string tables
/// of a simulated endpoint, in the order they were filled; both empty for a device.
pub struct Ep0Source {
    pub descriptors: Seq<(u8, u8, Seq<u8>)>,
    pub strings: Seq<(u8, Seq<char>)>,
}

/// The text of a string fetch, or its failure.
pub open spec fn text_result(r: TransactionResult<String>) -> Result<Seq<char>, TransactionError> {
    match r {
        Ok(s) => Ok(s@),
        Err(e) => Err(e),
    }
}

/// The source of descriptor bytes and strings. Every request is appended to `events`.
pub trait EP0 {
    /// The requests made so far, in order.
    spec fn events(&self) -> Seq<Ep0Event>;

    /// What the endpoint answers from; no request changes it.
    spec fn source(&self) -> Ep0Source;

    /// Fetches descriptor `descriptor_type` number `index` into `buf`, as many bytes as `buf`
    /// holds.
    fn get_descriptor(&mut self, descriptor_type: u8, index: u8, buf: &mut [u8]) -> (r:
        TransactionResult<()>)
        requires
            old(buf)@.len() <= u16::MAX,
        ensures
            final(buf)@.len() == old(buf)@.len(),
            final(self).events() == old(self).events().push(
                Ep0Event::Descriptor {
                    descriptor_type,
                    index,
                    length: old(buf)@.len(),
                    result: r,
                    data: final(buf)@,
                },
            ),
            final(self).source() == old(self).source(),
    ;

    /// Fetches string descriptor `index` and decodes it.
    fn get_string(&mut self, index: u8) -> (r: TransactionResult<String>)
        ensures
            final(self).events() == old(self).events().push(
                Ep0Event::Text { index, text: text_result(r) },
            ),
            final(self).source() == old(self).source(),
    ;
}

/// Endpoint 0 of a device that is being enumerated.
pub trait PhysicalEP0: EP0 {
    fn set_max_packet_size(&mut self, mps: u8)
        requires
            mps > 0,
        ensures
            final(self).events() == old(self).events().push(Ep0Event::MaxPacketSize { mps }),
            final(self).source() == old(self).source(),
    ;

    fn set_address(&mut self, new_address: u8) -> (r: TransactionResult<()>)
        ensures
            final(self).events() == old(self).events().push(
                Ep0Event::Address { address: new_address, result: r },
            ),
            final(self).source() == old(self).source(),
    ;
}

/// What the decoding of UTF-16 code units gives, each unpaired surrogate read as U+FFFD.
pub uninterp spec fn utf16_lossy(units: Seq<u16>) -> Seq<char>;

/// Relies on `String::from_utf16_lossy`: it decodes the code units, replacing each unpaired
/// surrogate by U+FFFD; the result depends on the units alone, and no units give the empty
/// string.
#[verifier::external_body]
fn from_utf16_lossy(units: &[u16]) -> (r: String)
    ensures
        r@ == utf16_lossy(units@),
        units@.len() == 0 ==> r@.len() == 0,
{
    String::from_utf16_lossy(units)
}

/// The UTF-16 code units of little-endian bytes; a trailing odd byte becomes U+FFFD.
pub open spec fn utf16le_units(b: Seq<u8>) -> Seq<u16> {
    Seq::new(
        ((b.len() + 1) / 2) as nat,
        |i: int|
            if 2 * i + 1 < b.len() {
                (b[2 * i] as int + 256 * b[2 * i + 1] as int) as u16
            } else {
                0xFFFDu16
            },
    )
}

/// Decodes UTF-16LE bytes, replacing invalid data by U+FFFD.
pub fn decode_utf16le_lossy(bytes: &[u8]) -> (r: String)
    ensures
        r@ == utf16_lossy(utf16le_units(bytes@)),
        bytes@.len() == 0 ==> r@.len() == 0,
{
    let n = bytes.len();
    let m = n / 2 + n % 2;
    let mut units: Vec<u16> = Vec::new();
    let mut k: usize = 0;
    while k < m
        invariant
            n == bytes@.len(),
            m == (n + 1) / 2,
            k <= m,
            units@.len() == k,
            forall|j: int| 0 <= j < k ==> units@[j] == utf16le_units(bytes@)[j],
        decreases m - k,
    {
        let unit: u16 = if 2 * k + 1 < n {
            bytes[2 * k] as u16 + 256 * (bytes[2 * k + 1] as u16)
        } else {
            0xFFFD
        };
        units.push(unit);
        k = k + 1;
    }
    proof {
        assert(units@ =~= utf16le_units(bytes@));
    }
    from_utf16_lossy(units.as_slice())
}

/// The text bytes of a string descriptor: what follows bLength and bDescriptorType.
pub open spec fn string_payload(b: Seq<u8>) -> Seq<u8> {
    if b.len() <= 2 {
        Seq::empty()
    } else {
        b.skip(2)
    }
}

/// The text of the string descriptor `bytes`, its payload decoded as UTF-16LE.
pub fn string_from_descriptor(bytes: &[u8]) -> (r: String)
    ensures
        r@ == utf16_lossy(utf16le_units(string_payload(bytes@))),
        bytes@.len() <= 2 ==> r@.len() == 0,
{
    let n = bytes.len();
    let start: usize = if n <= 2 {
        n
    } else {
        2
    };
    let payload = vstd::slice::slice_subrange(bytes, start, n);
    proof {
        assert(payload@ =~= string_payload(bytes@));
    }
    decode_utf16le_lossy(payload)
}

/// The text given for string index 0, which names no string.
pub const NO_STRING: &'static str = "-----";

/// A reference to a string descriptor, by index.
pub struct UsbString(pub u8);

impl UsbString {
    pub fn new(id: u8) -> (r: UsbString)
        ensures
            r.0 == id,
    {
        UsbString(id)
    }

    /// The string: `NO_STRING` for index 0, with nothing fetched; otherwise one string
    /// request for the index, whose result is returned as it came.
    pub fn read<T: EP0>(&self, ctx: &mut T) -> (r: TransactionResult<String>)
        ensures
            self.0 == 0 ==> r is Ok && r->Ok_0@ == NO_STRING@ && *final(ctx) == *old(ctx),
            self.0 != 0 ==> final(ctx).events() == old(ctx).events().push(
                Ep0Event::Text { index: self.0, text: text_result(r) },
            ),
            read_names(seq![self.0], final(ctx).events(), old(ctx).events().len() as int)
                == Some((final(ctx).events().len() as int, names_result1(r))),
            final(ctx).source() == old(ctx).source(),
    {
        let r = if self.0 != 0 {
            ctx.get_string(self.0)
        } else {
            Ok(String::from_str(NO_STRING))
        };
        proof {
            assert(seq![self.0][0] == self.0);
            assert(seq![self.0].drop_first() =~= Seq::<u8>::empty());
            let q = final(ctx).events().len() as int;
            assert(read_names(Seq::<u8>::empty(), final(ctx).events(), q) == Some(
                (q, Ok::<Seq<Seq<char>>, TransactionError>(Seq::empty())),
            ));
            if self.0 != 0 {
                assert(final(ctx).events()[old(ctx).events().len() as int] == Ep0Event::Text {
                    index: self.0,
                    text: text_result(r),
                });
            }
            if r is Ok {
                assert(seq![r->Ok_0@] + Seq::<Seq<char>>::empty() =~= seq![r->Ok_0@]);
            }
        }
        r
    }
}

/// The next name from position `p` of the request log: an index 0 names `NO_STRING` with no
/// request; any other index takes the next request, which must be a string request for it,
/// and gives its text or its failure.
pub open spec fn name_step(i: u8, ev: Seq<Ep0Event>, p: int) -> Option<
    (int, Result<Seq<char>, TransactionError>),
> {
    if i == 0 {
        Some((p, Ok(NO_STRING@)))
    } else if 0 <= p < ev.len() && ev[p] is Text && ev[p]->Text_index == i {
        Some((p + 1, ev[p]->text))
    } else {
        None
    }
}

/// The names of `indices` read from position `p` of the request log, one after the other,
/// until the first failure: where the reading ends and the texts, or the failure. `None`
/// when the log does not hold these requests.
pub open spec fn read_names(indices: Seq<u8>, ev: Seq<Ep0Event>, p: int) -> Option<
    (int, Result<Seq<Seq<char>>, TransactionError>),
>
    decreases indices.len(),
{
    if indices.len() == 0 {
        Some((p, Ok(Seq::empty())))
    } else {
        match name_step(indices[0], ev, p) {
            None => None,
            Some((q, Err(e))) => Some((q, Err(e))),
            Some((q, Ok(t))) => match read_names(indices.drop_first(), ev, q) {
                None => None,
                Some((q2, Err(e))) => Some((q2, Err(e))),
                Some((q2, Ok(ts))) => Some((q2, Ok(seq![t] + ts))),
            },
        }
    }
}

/// The texts of resolved names, or the failure.
pub open spec fn names_result(r: Result<Vec<String>, TransactionError>) -> Result<
    Seq<Seq<char>>,
    TransactionError,
> {
    match r {
        Ok(v) => Ok(v@.map_values(|s: String| s@)),
        Err(e) => Err(e),
    }
}

/// The text of one resolved name, as a list of one, or the failure.
pub open spec fn names_result1(r: TransactionResult<String>) -> Result<Seq<Seq<char>>, TransactionError> {
    match r {
        Ok(s) => Ok(seq![s@]),
        Err(e) => Err(e),
    }
}

/// Reading names from a log reads the same from any longer log.
pub proof fn lemma_read_names_extend(ind: Seq<u8>, ev: Seq<Ep0Event>, ev2: Seq<Ep0Event>, p: int)
    requires
        ev.is_prefix_of(ev2),
        read_names(ind, ev, p) is Some,
    ensures
        read_names(ind, ev2, p) == read_names(ind, ev, p),
    decreases ind.len(),
{
    if ind.len() > 0 {
        if ind[0] != 0 && 0 <= p < ev.len() {
            assert(ev2[p] == ev[p]);
        }
        match name_step(ind[0], ev, p) {
            Some((q, Ok(_))) => {
                lemma_read_names_extend(ind.drop_first(), ev, ev2, q);
            },
            _ => {},
        }
    }
}

/// Reading the names of `a + b` reads those of `a`, then, unless one failed, those of `b`.
pub proof fn lemma_read_names_append(a: Seq<u8>, b: Seq<u8>, ev: Seq<Ep0Event>, p: int)
    ensures
        read_names(a + b, ev, p) == match read_names(a, ev, p) {
            None => None,
            Some((q, Err(e))) => Some((q, Err(e))),
            Some((q, Ok(ts))) => match read_names(b, ev, q) {
                None => None,
                Some((q2, Err(e))) => Some((q2, Err(e))),
                Some((q2, Ok(us))) => Some((q2, Ok(ts + us))),
            },
        },
    decreases a.len(),
{
    if a.len() == 0 {
        assert(a + b =~= b);
        match read_names(b, ev, p) {
            Some((q2, Ok(us))) => {
                assert(Seq::<Seq<char>>::empty() + us =~= us);
            },
            _ => {},
        }
    } else {
        assert((a + b).drop_first() =~= a.drop_first() + b);
        assert((a + b)[0] == a[0]);
        match name_step(a[0], ev, p) {
            Some((q, Ok(t))) => {
                lemma_read_names_append(a.drop_first(), b, ev, q);
                match read_names(a.drop_first(), ev, q) {
                    Some((q1, Ok(ts))) => {
                        match read_names(b, ev, q1) {
                            Some((q2, Ok(us))) => {
                                assert(seq![t] + (ts + us) =~= (seq![t] + ts) + us);
                            },
                            _ => {},
                        }
                    },
                    _ => {},
                }
            },
            _ => {},
        }
    }
}

/// Names that are all index 0 are read with no request.
pub proof fn lemma_read_names_zero(ind: Seq<u8>, ev: Seq<Ep0Event>, p: int)
    requires
        forall|j: int| 0 <= j < ind.len() ==> ind[j] == 0,
    ensures
        read_names(ind, ev, p) == Some(
            (p, Ok::<Seq<Seq<char>>, TransactionError>(Seq::new(ind.len(), |j: int| NO_STRING@))),
        ),
    decreases ind.len(),
{
    if ind.len() == 0 {
        assert(Seq::new(ind.len(), |j: int| NO_STRING@) =~= Seq::<Seq<char>>::empty());
    } else {
        assert forall|j: int| 0 <= j < ind.drop_first().len() implies ind.drop_first()[j] == 0 by {
            assert(ind.drop_first()[j] == ind[j + 1]);
        }
        lemma_read_names_zero(ind.drop_first(), ev, p);
        assert(seq![NO_STRING@] + Seq::new(ind.drop_first().len(), |j: int| NO_STRING@) =~= Seq::new(
            ind.len(),
            |j: int| NO_STRING@,
        ));
    }
}

/// Resolves the strings `indices` in order, stopping at the first failed fetch.
pub fn resolve_names<T: EP0>(ctx: &mut T, indices: &[u8]) -> (r: Result<Vec<String>, TransactionError>)
    ensures
        old(ctx).events().is_prefix_of(final(ctx).events()),
        read_names(indices@, final(ctx).events(), old(ctx).events().len() as int) == Some(
            (final(ctx).events().len() as int, names_result(r)),
        ),
        r is Ok ==> r->Ok_0@.len() == indices@.len(),
        final(ctx).source() == old(ctx).source(),
{
    let ghost start = ctx.events().len() as int;
    let n = indices.len();
    let mut names: Vec<String> = Vec::new();
    let mut k: usize = 0;
    proof {
        assert(indices@.take(0) =~= Seq::<u8>::empty());
        assert(names@.map_values(|s: String| s@) =~= Seq::<Seq<char>>::empty());
    }
    while k < n
        invariant
            n == indices@.len(),
            k <= n,
            names@.len() == k,
            start == old(ctx).events().len(),
            old(ctx).events().is_prefix_of(ctx.events()),
            ctx.source() == old(ctx).source(),
            read_names(indices@.take(k as int), ctx.events(), start) == Some(
                (
                    ctx.events().len() as int,
                    Ok::<Seq<Seq<char>>, TransactionError>(names@.map_values(|s: String| s@)),
                ),
            ),
        decreases n - k,
    {
        let ghost ev0 = ctx.events();
        let i = indices[k];
        let r1 = UsbString::new(i).read(ctx);
        proof {
            lemma_read_names_extend(indices@.take(k as int), ev0, ctx.events(), start);
            lemma_read_names_append(indices@.take(k as int), seq![i], ctx.events(), start);
            assert(indices@.take(k + 1) =~= indices@.take(k as int) + seq![i]);
        }
        match r1 {
            Ok(s) => {
                proof {
                    assert(names@.push(s).map_values(|s: String| s@) =~= names@.map_values(
                        |s: String| s@,
                    ) + seq![s@]);
                }
                names.push(s);
                k = k + 1;
            },
            Err(e) => {
                proof {
                    lemma_read_names_append(
                        indices@.take(k + 1),
                        indices@.skip(k + 1),
                        ctx.events(),
                        start,
                    );
                    assert(indices@.take(k + 1) + indices@.skip(k + 1) =~= indices@);
                }
                return Err(e);
            },
        }
    }
    proof {
        assert(indices@.take(n as int) =~= indices@);
    }
    Ok(names)
}

/// Endpoint 0 of a device: control transfers with retries, descriptor and string fetches,
/// and the change of address.
pub struct USBEP0<H: HC> {
    ctrl: ControlEndpoint<H>,
    dev: u8,
    events: Ghost<Seq<Ep0Event>>,
}

impl<H: HC> USBEP0<H> {
    /// The control endpoint.
    pub closed spec fn control(&self) -> ControlEndpoint<H> {
        self.ctrl
    }

    /// The device address.
    pub closed spec fn address(&self) -> u8 {
        self.dev
    }

    pub fn dev(&self) -> (r: u8)
        ensures
            r == self.address(),
    {
        self.dev
    }

    pub fn new(hc: Box<H>) -> (r: USBEP0<H>)
        ensures
            r.control().ep()@.mps == 8,
            r.control().ep()@.toggle == 0,
            r.control().ep()@.trace.len() == 0,
            r.control().log().len() == 0,
            r.events().len() == 0,
            r.address() == hc.dest_of().dev,
            r.control().ep()@.dest == hc.dest_of(),
            r.control().ep().channel() == *hc,
    {
        let dev = hc.get_dest().dev;
        USBEP0 { ctrl: ControlEndpoint::new(ControlEP::new(hc)), dev, events: Ghost(Seq::empty()) }
    }

    /// One attempt of a control transfer.
    pub fn transaction_(
        &mut self,
        direction: Direction,
        req_type: RequestKind,
        recipient: Recipient,
        request: RequestByte,
        value: u16,
        index: u16,
        buf: &mut [u8],
    ) -> (r: TransactionResult<()>)
        requires
            old(buf)@.len() <= u16::MAX,
        ensures
            control_attempt(
                old(self).control().ep()@,
                final(self).control().ep()@,
                setup_request(
                    ControlRequest { req_type, recipient, request, value, index },
                    direction,
                    old(buf)@.len(),
                ),
                old(buf)@,
                final(buf)@,
                r,
            ),
            final(buf)@.len() == old(buf)@.len(),
            final(self).address() == old(self).address(),
            final(self).events() == old(self).events(),
    {
        let req = ControlRequest { req_type, recipient, request, value, index };
        self.ctrl.control_transfer_(buf, direction, &req)
    }

    /// A control transfer, tried again after a transient error as
    /// `ControlEndpoint::control_transfer` does.
    pub fn transaction(
        &mut self,
        direction: Direction,
        req_type: RequestKind,
        recipient: Recipient,
        request: RequestByte,
        value: u16,
        index: u16,
        buf: &mut [u8],
    ) -> (r: TransactionResult<()>)
        requires
            old(buf)@.len() <= u16::MAX,
        ensures
            final(buf)@.len() == old(buf)@.len(),
            old(self).control().log().is_prefix_of(final(self).control().log()),
            control_transfer_outcome(
                final(self).control().log().skip(old(self).control().log().len() as int),
                old(self).control().ep()@,
                final(self).control().ep()@,
                old(buf)@,
                final(buf)@,
                ControlRequest { req_type, recipient, request, value, index },
                direction,
                r,
            ),
            final(self).address() == old(self).address(),
            final(self).events() == old(self).events(),
            final(self).control().ep()@.dest == old(self).control().ep()@.dest,
            final(self).control().ep()@.mps == old(self).control().ep()@.mps,
    {
        let req = ControlRequest { req_type, recipient, request, value, index };
        self.ctrl.control_transfer(buf, direction, req)
    }

    /// The endpoint.
    pub fn get_ep(&mut self) -> (r: &mut ControlEP<H>)
        ensures
            *r == old(self).control().ep(),
            final(self).control().ep() == *final(r),
            final(self).control().log() == old(self).control().log(),
            final(self).address() == old(self).address(),
            final(self).events() == old(self).events(),
    {
        self.ctrl.endpoint_mut()
    }
}

/// The GetDescriptor request for descriptor `descriptor_type` number `index`.
pub open spec fn descriptor_request(descriptor_type: u8, index: u8) -> ControlRequest {
    ControlRequest {
        req_type: RequestKind::Standard,
        recipient: Recipient::Device,
        request: RequestByte::GetDescriptor,
        value: (descriptor_type * 256 + index) as u16,
        index: 0,
    }
}

/// `n` zero bytes.
pub open spec fn zeros(n: nat) -> Seq<u8> {
    Seq::new(n, |i: int| 0u8)
}

impl<H: HC> USBEP0<H> {
    /// GetDescriptor to the device, with the type in the high byte of wValue and the index
    /// in the low byte, into `buf`.
    fn fetch(&mut self, descriptor_type: u8, index: u8, buf: &mut [u8]) -> (r: TransactionResult<()>)
        requires
            old(buf)@.len() <= u16::MAX,
        ensures
            final(buf)@.len() == old(buf)@.len(),
            old(self).control().log().is_prefix_of(final(self).control().log()),
            control_transfer_outcome(
                final(self).control().log().skip(old(self).control().log().len() as int),
                old(self).control().ep()@,
                final(self).control().ep()@,
                old(buf)@,
                final(buf)@,
                descriptor_request(descriptor_type, index),
                Direction::DeviceToHost,
                r,
            ),
            final(self).address() == old(self).address(),
            final(self).events() == old(self).events(),
    {
        let value: u16 = descriptor_type as u16 * 256 + index as u16;
        self.transaction(
            Direction::DeviceToHost,
            RequestKind::Standard,
            Recipient::Device,
            RequestByte::GetDescriptor,
            value,
            0,
            buf,
        )
    }
}

/// `a` are the attempts of the GetDescriptor transfers of string `index`, from endpoint
/// state `before` to `after`, and `r` what came of them: a transfer of 2 bytes to learn
/// bLength; if it went through and bLength is at least 2, a transfer of bLength bytes; if
/// that went through, the text of those bytes. A failed transfer ends the fetch with its
/// error; a bLength under 2, shorter than the descriptor's own header, is malformed and
/// gives `Error` with no second transfer.
pub open spec fn string_fetch(
    a: Seq<Attempt>,
    before: EndpointView,
    after: EndpointView,
    index: u8,
    r: Result<Seq<char>, TransactionError>,
) -> bool {
    let req = descriptor_request(STRING_DESCRIPTOR, index);
    exists|k: int|
        #![trigger a.take(k)]
        0 < k <= a.len() && {
            let first = a.take(k);
            let rest = a.skip(k);
            let length = first.last().buf_after[0];
            &&& control_transfer_outcome(
                first,
                before,
                transfer_end(first),
                zeros(2),
                first.last().buf_after,
                req,
                Direction::DeviceToHost,
                transfer_result(first),
            )
            &&& transfer_result(first) is Err ==> k == a.len() && after == transfer_end(first)
                && r == Err::<Seq<char>, TransactionError>(transfer_result(first)->Err_0)
            &&& transfer_result(first) is Ok && length < 2 ==> k == a.len() && after
                == transfer_end(first) && r == Err::<Seq<char>, TransactionError>(
                TransactionError::Error,
            )
            &&& transfer_result(first) is Ok && length >= 2 ==> {
                &&& k < a.len()
                &&& control_transfer_outcome(
                    rest,
                    transfer_end(first),
                    after,
                    zeros(length as nat),
                    rest.last().buf_after,
                    req,
                    Direction::DeviceToHost,
                    transfer_result(rest),
                )
                &&& transfer_result(rest) is Err ==> r == Err::<Seq<char>, TransactionError>(
                    transfer_result(rest)->Err_0,
                )
                &&& transfer_result(rest) is Ok ==> r == Ok::<Seq<char>, TransactionError>(
                    utf16_lossy(utf16le_units(string_payload(rest.last().buf_after))),
                )
                &&& transfer_result(rest) is Ok && length == 2 ==> r == Ok::<
                    Seq<char>,
                    TransactionError,
                >(Seq::empty())
            }
        }
}

impl<H: HC> PhysicalEP0 for USBEP0<H> {
    fn set_max_packet_size(&mut self, mps: u8)
        ensures
            final(self).control().ep()@.mps == mps,
            final(self).address() == old(self).address(),
    {
        self.ctrl.endpoint_mut().set_max_packet_size(mps);
        self.events = Ghost(self.events@.push(Ep0Event::MaxPacketSize { mps }));
    }

    /// Sends SetAddress to the current address, then moves the endpoint to the new one.
    fn set_address(&mut self, new_address: u8) -> (r: TransactionResult<()>)
        ensures
            old(self).control().log().is_prefix_of(final(self).control().log()),
            ({
                let a = final(self).control().log().skip(old(self).control().log().len() as int);
                &&& control_transfer_outcome(
                    a,
                    old(self).control().ep()@,
                    transfer_end(a),
                    Seq::empty(),
                    Seq::empty(),
                    ControlRequest {
                        req_type: RequestKind::Standard,
                        recipient: Recipient::Device,
                        request: RequestByte::SetAddress,
                        value: new_address as u16,
                        index: 0,
                    },
                    Direction::HostToDevice,
                    r,
                )
                &&& r is Ok ==> final(self).control().ep()@ == (EndpointView {
                    dest: TransactionDestination {
                        dev: new_address,
                        ep: old(self).control().ep()@.dest.ep,
                    },
                    submitted: Seq::empty(),
                    statuses: Seq::empty(),
                    ..transfer_end(a)
                })
                &&& r is Ok ==> final(self).address() == new_address
                &&& r is Err ==> final(self).control().ep()@ == transfer_end(a) && final(self).address()
                    == old(self).address()
            }),
    {
        let mut empty: Vec<u8> = Vec::new();
        let r = self.transaction(
            Direction::HostToDevice,
            RequestKind::Standard,
            Recipient::Device,
            RequestByte::SetAddress,
            new_address as u16,
            0,
            empty.as_mut_slice(),
        );
        proof {
            assert(empty@ =~= Seq::<u8>::empty());
        }
        if r.is_ok() {
            self.dev = new_address;
            self.ctrl.endpoint_mut().set_address(new_address);
        }
        self.events = Ghost(self.events@.push(Ep0Event::Address { address: new_address, result: r }));
        r
    }
}

impl<H: HC> EP0 for USBEP0<H> {
    closed spec fn events(&self) -> Seq<Ep0Event> {
        self.events@
    }

    open spec fn source(&self) -> Ep0Source {
        Ep0Source { descriptors: Seq::empty(), strings: Seq::empty() }
    }

    /// GetDescriptor to the device, with the type in the high byte of wValue and the index
    /// in the low byte.
    fn get_descriptor(&mut self, descriptor_type: u8, index: u8, buf: &mut [u8]) -> (r:
        TransactionResult<()>)
        ensures
            old(self).control().log().is_prefix_of(final(self).control().log()),
            control_transfer_outcome(
                final(self).control().log().skip(old(self).control().log().len() as int),
                old(self).control().ep()@,
                final(self).control().ep()@,
                old(buf)@,
                final(buf)@,
                descriptor_request(descriptor_type, index),
                Direction::DeviceToHost,
                r,
            ),
            final(self).address() == old(self).address(),
    {
        let ghost length = buf@.len();
        let r = self.fetch(descriptor_type, index, buf);
        self.events = Ghost(
            self.events@.push(
                Ep0Event::Descriptor { descriptor_type, index, length, result: r, data: buf@ },
            ),
        );
        r
    }

    /// Fetches the first two bytes of the string descriptor to learn its length, then the
    /// whole descriptor, and decodes its text. A bLength under 2 is malformed and gives
    /// `Error`; a bLength of 2 carries no text and gives the empty string.
    fn get_string(&mut self, index: u8) -> (r: TransactionResult<String>)
        ensures
            old(self).control().log().is_prefix_of(final(self).control().log()),
            string_fetch(
                final(self).control().log().skip(old(self).control().log().len() as int),
                old(self).control().ep()@,
                final(self).control().ep()@,
                index,
                text_result(r),
            ),
            final(self).address() == old(self).address(),
    {
        let ghost a0 = self.control().log();
        let ghost e0 = self.control().ep()@;
        let mut probe = vec![0u8; 2];
        proof {
            assert(probe@ =~= zeros(2));
        }
        let r1 = self.fetch(STRING_DESCRIPTOR, index, probe.as_mut_slice());
        let ghost a1 = self.control().log();
        let ghost k = a1.len() - a0.len();
        proof {
            let a = a1.skip(a0.len() as int);
            assert(a.take(k) =~= a);
        }
        match r1 {
            Ok(()) => {},
            Err(e) => {
                self.events = Ghost(self.events@.push(Ep0Event::Text { index, text: Err(e) }));
                return Err(e);
            },
        }
        let length = probe[0] as usize;
        if length < 2 {
            proof {
                let a = self.control().log().skip(a0.len() as int);
                assert(a.take(k) =~= a);
                assert(string_fetch(
                    a,
                    e0,
                    self.control().ep()@,
                    index,
                    Err::<Seq<char>, TransactionError>(TransactionError::Error),
                ));
            }
            self.events = Ghost(
                self.events@.push(Ep0Event::Text { index, text: Err(TransactionError::Error) }),
            );
            return Err(TransactionError::Error);
        }
        let mut buf = vec![0u8; length];
        proof {
            assert(buf@ =~= zeros(length as nat));
        }
        let r2 = self.fetch(STRING_DESCRIPTOR, index, buf.as_mut_slice());
        proof {
            let a = self.control().log().skip(a0.len() as int);
            assert(a.take(k) =~= a1.skip(a0.len() as int));
            assert(a.skip(k) =~= self.control().log().skip(a1.len() as int));
        }
        let ghost probe_view = probe@;
        let r = match r2 {
            Ok(()) => Ok(string_from_descriptor(buf.as_slice())),
            Err(e) => Err(e),
        };
        proof {
            let a = self.control().log().skip(a0.len() as int);
            let first = a.take(k);
            assert(first.last().buf_after == probe_view);
            assert(buf@.len() == probe_view[0] as nat);
            assert(0 < k <= a.len());
            if r is Ok && buf@.len() <= 2 {
                assert(r->Ok_0@ =~= Seq::<char>::empty());
            }
            assert(string_fetch(a, e0, self.control().ep()@, index, text_result(r)));
        }
        self.events = Ghost(self.events@.push(Ep0Event::Text { index, text: text_result(r) }));
        r
    }
}

} // verus!
