//! The descriptor tree a device returns during enumeration, decoded from its wire bytes.

use vstd::prelude::*;
use crate::ep0::{read_names, resolve_names, Ep0Event, PhysicalEP0, UsbString, EP0, NO_STRING};
use crate::hc::TransactionError;

verus! {

/// Why a descriptor could not be had.
#[derive(Debug, Clone, Copy, PartialEq, Eq, Structural)]
pub enum DescriptorError {
    TransactionError(TransactionError),
    GeneralParseError,
    InvalidLength,
    InvalidType,
}

pub type DescriptorResult<T> = Result<T, DescriptorError>;

/// The transport failure behind a descriptor error; `Error` for the others.
pub open spec fn transport_error(e: DescriptorError) -> TransactionError {
    match e {
        DescriptorError::TransactionError(t) => t,
        _ => TransactionError::Error,
    }
}

/// `e` is a fetch of `length` bytes of descriptor `descriptor_type` number `index`.
pub open spec fn fetched(e: Ep0Event, descriptor_type: u8, index: u8, length: nat) -> bool {
    &&& e is Descriptor
    &&& e->Descriptor_descriptor_type == descriptor_type
    &&& e->Descriptor_index == index
    &&& e->Descriptor_length == length
}

impl DescriptorError {
    /// A transport failure met while fetching a descriptor.
    pub fn from_transaction(e: TransactionError) -> (r: DescriptorError)
        ensures
            r == DescriptorError::TransactionError(e),
    {
        DescriptorError::TransactionError(e)
    }
}

pub const DEVICE_DESCRIPTOR: u8 = 1;

pub const CONFIGURATION_DESCRIPTOR: u8 = 2;

pub const INTERFACE_DESCRIPTOR: u8 = 4;

pub const ENDPOINT_DESCRIPTOR: u8 = 5;

pub const HID_DESCRIPTOR: u8 = 0x21;

pub const HID_REPORT_DESCRIPTOR: u8 = 0x22;

pub const HID_PHYSICAL_DESCRIPTOR: u8 = 0x23;

/// The little-endian 16-bit field at `i`.
pub open spec fn le16(s: Seq<u8>, i: int) -> u16 {
    (s[i] as int + 256 * s[i + 1] as int) as u16
}

/// Reads the little-endian 16-bit field at `i`.
fn read_le16(input: &[u8], i: usize) -> (r: u16)
    requires
        i + 1 < input@.len(),
    ensures
        r == le16(input@, i as int),
{
    input[i] as u16 + 256 * (input[i + 1] as u16)
}

/// An endpoint descriptor.
#[derive(Debug, Clone, Copy, PartialEq, Eq, Structural)]
pub struct EndpointDescriptor {
    pub address: u8,
    pub attributes: u8,
    pub mps: u16,
    pub interval: u8,
}

/// Bytes of an endpoint descriptor.
pub const ENDPOINT_LENGTH: usize = 7;

/// The endpoint descriptor at `p`: bLength, bDescriptorType, bEndpointAddress, bmAttributes,
/// wMaxPacketSize, bInterval.
pub open spec fn endpoint_at(s: Seq<u8>, p: int) -> EndpointDescriptor {
    EndpointDescriptor {
        address: s[p + 2],
        attributes: s[p + 3],
        mps: le16(s, p + 4),
        interval: s[p + 6],
    }
}

impl EndpointDescriptor {
    pub fn get_type() -> (r: u8)
        ensures
            r == ENDPOINT_DESCRIPTOR,
    {
        ENDPOINT_DESCRIPTOR
    }

    pub fn get_length() -> (r: Option<usize>)
        ensures
            r == Some(ENDPOINT_LENGTH),
    {
        Some(ENDPOINT_LENGTH)
    }

    fn parse_at(input: &[u8], pos: usize) -> (r: Option<(usize, EndpointDescriptor)>)
        ensures
            pos + ENDPOINT_LENGTH <= input@.len() ==> r is Some && r->Some_0.0 == pos
                + ENDPOINT_LENGTH && r->Some_0.1 == endpoint_at(input@, pos as int),
            pos + ENDPOINT_LENGTH > input@.len() ==> r is None,
    {
        if pos > input.len() || input.len() - pos < ENDPOINT_LENGTH {
            return None;
        }
        let d = EndpointDescriptor {
            address: input[pos + 2],
            attributes: input[pos + 3],
            mps: read_le16(input, pos + 4),
            interval: input[pos + 6],
        };
        Some((pos + ENDPOINT_LENGTH, d))
    }

    /// Decodes the endpoint descriptor at the start of `input`; returns the bytes after it.
    pub fn parse(input: &[u8]) -> (r: DescriptorResult<(&[u8], EndpointDescriptor)>)
        ensures
            input@.len() >= ENDPOINT_LENGTH ==> r is Ok && r->Ok_0.0@ == input@.skip(
                ENDPOINT_LENGTH as int,
            ) && r->Ok_0.1 == endpoint_at(input@, 0),
            input@.len() < ENDPOINT_LENGTH ==> r == Err::<(&[u8], EndpointDescriptor), DescriptorError>(
                DescriptorError::GeneralParseError,
            ),
    {
        match Self::parse_at(input, 0) {
            Some((end, d)) => {
                let rest = vstd::slice::slice_subrange(input, end, input.len());
                proof {
                    assert(rest@ =~= input@.skip(ENDPOINT_LENGTH as int));
                }
                Ok((rest, d))
            },
            None => Err(DescriptorError::GeneralParseError),
        }
    }
}

/// A class descriptor announced by a HID descriptor.
#[derive(Debug, Clone, Copy, PartialEq, Eq, Structural)]
pub enum HIDClassDescriptor {
    Report { size: u16 },
    Physical { size: u16 },
    Unknown { kind: u8, size: u16 },
}

/// Bytes of one class descriptor entry of a HID descriptor.
pub const HID_CLASS_LENGTH: usize = 3;

/// The class descriptor of type `kind` and length `size`.
pub open spec fn hid_class_of(kind: u8, size: u16) -> HIDClassDescriptor {
    if kind == HID_REPORT_DESCRIPTOR {
        HIDClassDescriptor::Report { size }
    } else if kind == HID_PHYSICAL_DESCRIPTOR {
        HIDClassDescriptor::Physical { size }
    } else {
        HIDClassDescriptor::Unknown { kind, size }
    }
}

/// The class descriptor entry at `p`: bDescriptorType, wDescriptorLength.
pub open spec fn hid_class_at(s: Seq<u8>, p: int) -> HIDClassDescriptor {
    hid_class_of(s[p], le16(s, p + 1))
}

impl HIDClassDescriptor {
    fn parse_at(input: &[u8], pos: usize) -> (r: HIDClassDescriptor)
        requires
            pos + HID_CLASS_LENGTH <= input@.len(),
        ensures
            r == hid_class_at(input@, pos as int),
    {
        let kind = input[pos];
        let size = read_le16(input, pos + 1);
        if kind == HID_REPORT_DESCRIPTOR {
            HIDClassDescriptor::Report { size }
        } else if kind == HID_PHYSICAL_DESCRIPTOR {
            HIDClassDescriptor::Physical { size }
        } else {
            HIDClassDescriptor::Unknown { kind, size }
        }
    }

    /// Decodes the class descriptor entry at the start of `input`; returns the bytes after it.
    pub fn parse(input: &[u8]) -> (r: DescriptorResult<(&[u8], HIDClassDescriptor)>)
        ensures
            input@.len() >= HID_CLASS_LENGTH ==> r is Ok && r->Ok_0.0@ == input@.skip(
                HID_CLASS_LENGTH as int,
            ) && r->Ok_0.1 == hid_class_at(input@, 0),
            input@.len() < HID_CLASS_LENGTH ==> r == Err::<(&[u8], HIDClassDescriptor), DescriptorError>(
                DescriptorError::GeneralParseError,
            ),
    {
        if input.len() < HID_CLASS_LENGTH {
            return Err(DescriptorError::GeneralParseError);
        }
        let d = Self::parse_at(input, 0);
        let rest = vstd::slice::slice_subrange(input, HID_CLASS_LENGTH, input.len());
        proof {
            assert(rest@ =~= input@.skip(HID_CLASS_LENGTH as int));
        }
        Ok((rest, d))
    }
}

/// A HID descriptor.
#[derive(Debug)]
pub struct HIDDescriptor {
    pub bcd_hid: u16,
    pub country_code: u8,
    pub class_descriptors: Vec<HIDClassDescriptor>,
}

/// A HID descriptor's fields.
pub struct HIDDescriptorView {
    pub bcd_hid: u16,
    pub country_code: u8,
    pub class_descriptors: Seq<HIDClassDescriptor>,
}

impl View for HIDDescriptor {
    type V = HIDDescriptorView;

    open spec fn view(&self) -> HIDDescriptorView {
        HIDDescriptorView {
            bcd_hid: self.bcd_hid,
            country_code: self.country_code,
            class_descriptors: self.class_descriptors@,
        }
    }
}

/// Bytes of a HID descriptor before its class descriptor entries.
pub const HID_HEADER_LENGTH: usize = 6;

/// Bytes of a HID descriptor with one class descriptor entry.
pub const HID_LENGTH: usize = 9;

/// Bytes of the HID descriptor at `p`: the header and one entry per class descriptor.
pub open spec fn hid_len(s: Seq<u8>, p: int) -> int {
    HID_HEADER_LENGTH + HID_CLASS_LENGTH * s[p + 5]
}

/// There is a whole HID descriptor at `p`.
pub open spec fn hid_fits(s: Seq<u8>, p: int) -> bool {
    0 <= p && p + HID_HEADER_LENGTH <= s.len() && p + hid_len(s, p) <= s.len()
}

/// The HID descriptor at `p`: bLength, bDescriptorType, bcdHID, bCountryCode,
/// bNumDescriptors, then bNumDescriptors class descriptor entries.
pub open spec fn hid_at(s: Seq<u8>, p: int) -> HIDDescriptorView {
    HIDDescriptorView {
        bcd_hid: le16(s, p + 2),
        country_code: s[p + 4],
        class_descriptors: Seq::new(
            s[p + 5] as nat,
            |i: int| hid_class_at(s, p + HID_HEADER_LENGTH + HID_CLASS_LENGTH * i),
        ),
    }
}

impl HIDDescriptor {
    pub fn get_type() -> (r: u8)
        ensures
            r == HID_DESCRIPTOR,
    {
        HID_DESCRIPTOR
    }

    pub fn get_length() -> (r: Option<usize>)
        ensures
            r == Some(HID_LENGTH),
    {
        Some(HID_LENGTH)
    }

    fn parse_at(input: &[u8], pos: usize) -> (r: Option<(usize, HIDDescriptor)>)
        ensures
            hid_fits(input@, pos as int) ==> r is Some && r->Some_0.0 == pos + hid_len(
                input@,
                pos as int,
            ) && r->Some_0.1@ == hid_at(input@, pos as int),
            !hid_fits(input@, pos as int) ==> r is None,
    {
        if pos > input.len() || input.len() - pos < HID_HEADER_LENGTH {
            return None;
        }
        let count = input[pos + 5] as usize;
        if input.len() - pos - HID_HEADER_LENGTH < HID_CLASS_LENGTH * count {
            return None;
        }
        let bcd_hid = read_le16(input, pos + 2);
        let country_code = input[pos + 4];
        let mut class_descriptors: Vec<HIDClassDescriptor> = Vec::new();
        let n = input.len();
        let mut i: usize = 0;
        while i < count
            invariant
                n == input@.len(),
                count == input@[pos + 5],
                pos + HID_HEADER_LENGTH + HID_CLASS_LENGTH * count <= input@.len(),
                i <= count,
                class_descriptors@.len() == i,
                forall|k: int|
                    0 <= k < i ==> class_descriptors@[k] == hid_class_at(
                        input@,
                        pos + HID_HEADER_LENGTH + HID_CLASS_LENGTH * k,
                    ),
            decreases count - i,
        {
            let d = HIDClassDescriptor::parse_at(input, pos + HID_HEADER_LENGTH + HID_CLASS_LENGTH * i);
            class_descriptors.push(d);
            i = i + 1;
        }
        let d = HIDDescriptor { bcd_hid, country_code, class_descriptors };
        proof {
            assert(d@.class_descriptors =~= hid_at(input@, pos as int).class_descriptors);
        }
        Some((pos + HID_HEADER_LENGTH + HID_CLASS_LENGTH * count, d))
    }

    /// Decodes the HID descriptor at the start of `input`; returns the bytes after it.
    pub fn parse(input: &[u8]) -> (r: DescriptorResult<(&[u8], HIDDescriptor)>)
        ensures
            hid_fits(input@, 0) ==> r is Ok && r->Ok_0.0@ == input@.skip(hid_len(input@, 0))
                && r->Ok_0.1@ == hid_at(input@, 0),
            !hid_fits(input@, 0) ==> r is Err && r->Err_0 == DescriptorError::GeneralParseError,
    {
        match Self::parse_at(input, 0) {
            Some((end, d)) => {
                let rest = vstd::slice::slice_subrange(input, end, input.len());
                proof {
                    assert(rest@ =~= input@.skip(hid_len(input@, 0)));
                }
                Ok((rest, d))
            },
            None => Err(DescriptorError::GeneralParseError),
        }
    }
}

/// The view of an optional HID descriptor.
pub open spec fn hid_view(h: Option<HIDDescriptor>) -> Option<HIDDescriptorView> {
    match h {
        Some(d) => Some(d@),
        None => None,
    }
}

/// The sub-descriptors of an interface from `p` on, while `left` endpoints are still to
/// come, with `eps` and `hid` found so far: returns the endpoints, the HID descriptor and
/// where the interface ends. The type byte of each sub-descriptor is read before its length:
/// a HID descriptor does not count as an endpoint, and only the first one is kept; anything
/// else is read as an endpoint. The sub-descriptors end when the last endpoint is read.
pub open spec fn sub_descriptors(
    s: Seq<u8>,
    p: int,
    left: nat,
    eps: Seq<EndpointDescriptor>,
    hid: Option<HIDDescriptorView>,
) -> Option<(Seq<EndpointDescriptor>, Option<HIDDescriptorView>, int)>
    decreases left, s.len() - p,
{
    if left == 0 {
        Some((eps, hid, p))
    } else if p < 0 || p + 2 > s.len() {
        None
    } else if s[p + 1] == HID_DESCRIPTOR {
        if hid_fits(s, p) {
            sub_descriptors(
                s,
                p + hid_len(s, p),
                left,
                eps,
                if hid is Some {
                    hid
                } else {
                    Some(hid_at(s, p))
                },
            )
        } else {
            None
        }
    } else if p + ENDPOINT_LENGTH <= s.len() {
        sub_descriptors(s, p + ENDPOINT_LENGTH, (left - 1) as nat, eps.push(endpoint_at(s, p)), hid)
    } else {
        None
    }
}

/// How many HID descriptors after the first the sub-descriptors of an interface hold, read
/// as `sub_descriptors` reads them; `seen` tells whether one was already kept.
pub open spec fn discarded_hid(s: Seq<u8>, p: int, left: nat, seen: bool) -> nat
    decreases left, s.len() - p,
{
    if left == 0 || p < 0 || p + 2 > s.len() {
        0
    } else if s[p + 1] == HID_DESCRIPTOR {
        if hid_fits(s, p) {
            (if seen {
                1nat
            } else {
                0nat
            }) + discarded_hid(s, p + hid_len(s, p), left, true)
        } else {
            0
        }
    } else if p + ENDPOINT_LENGTH <= s.len() {
        discarded_hid(s, p + ENDPOINT_LENGTH, (left - 1) as nat, seen)
    } else {
        0
    }
}

/// The sub-descriptors end within the bytes, no earlier than where they start.
proof fn lemma_sub_descriptors_end(
    s: Seq<u8>,
    p: int,
    left: nat,
    eps: Seq<EndpointDescriptor>,
    hid: Option<HIDDescriptorView>,
)
    requires
        0 <= p <= s.len(),
    ensures
        sub_descriptors(s, p, left, eps, hid) matches Some((_, _, end)) ==> p <= end <= s.len(),
    decreases left, s.len() - p,
{
    if left == 0 {
    } else if p + 2 > s.len() {
    } else if s[p + 1] == HID_DESCRIPTOR {
        if hid_fits(s, p) {
            lemma_sub_descriptors_end(
                s,
                p + hid_len(s, p),
                left,
                eps,
                if hid is Some {
                    hid
                } else {
                    Some(hid_at(s, p))
                },
            );
        }
    } else if p + ENDPOINT_LENGTH <= s.len() {
        lemma_sub_descriptors_end(
            s,
            p + ENDPOINT_LENGTH,
            (left - 1) as nat,
            eps.push(endpoint_at(s, p)),
            hid,
        );
    }
}

/// An interface descriptor and what follows it.
#[derive(Debug)]
pub struct InterfaceDescriptor {
    pub id: u8,
    pub name: String,
    pub if_class: u8,
    pub if_subclass: u8,
    pub if_proto: u8,
    pub alt_setting: u8,
    pub endpoints: Vec<EndpointDescriptor>,
    pub hid_desc: Option<HIDDescriptor>,
    /// HID descriptors found after the first, which are not kept.
    pub discarded_hid: usize,
}

/// An interface's fields but its name.
pub struct InterfaceView {
    pub id: u8,
    pub if_class: u8,
    pub if_subclass: u8,
    pub if_proto: u8,
    pub alt_setting: u8,
    pub endpoints: Seq<EndpointDescriptor>,
    pub hid_desc: Option<HIDDescriptorView>,
    pub discarded_hid: nat,
}

impl View for InterfaceDescriptor {
    type V = InterfaceView;

    open spec fn view(&self) -> InterfaceView {
        InterfaceView {
            id: self.id,
            if_class: self.if_class,
            if_subclass: self.if_subclass,
            if_proto: self.if_proto,
            alt_setting: self.alt_setting,
            endpoints: self.endpoints@,
            hid_desc: hid_view(self.hid_desc),
            discarded_hid: self.discarded_hid as nat,
        }
    }
}

/// Bytes of an interface descriptor's header.
pub const INTERFACE_LENGTH: usize = 9;

/// The interface at `p`: bLength, bDescriptorType, bInterfaceNumber, bAlternateSetting,
/// bNumEndpoints, bInterfaceClass, bInterfaceSubClass, bInterfaceProtocol, iInterface, then
/// its sub-descriptors. Returns the interface, its string index and where it ends.
pub open spec fn interface_at(s: Seq<u8>, p: int) -> Option<(InterfaceView, u8, int)> {
    if p < 0 || p + INTERFACE_LENGTH > s.len() {
        None
    } else {
        match sub_descriptors(s, p + INTERFACE_LENGTH, s[p + 4] as nat, Seq::empty(), None) {
            None => None,
            Some((eps, hid, end)) => Some(
                (
                    InterfaceView {
                        id: s[p + 2],
                        alt_setting: s[p + 3],
                        if_class: s[p + 5],
                        if_subclass: s[p + 6],
                        if_proto: s[p + 7],
                        endpoints: eps,
                        hid_desc: hid,
                        discarded_hid: discarded_hid(s, p + INTERFACE_LENGTH, s[p + 4] as nat, false),
                    },
                    s[p + 8],
                    end,
                ),
            ),
        }
    }
}

/// Reads the sub-descriptors of an interface from `pos` on, until `num_endpoints`
/// endpoints are read.
fn parse_sub_descriptors(input: &[u8], pos: usize, num_endpoints: u8) -> (r: Option<
    (usize, Vec<EndpointDescriptor>, Option<HIDDescriptor>, usize),
>)
    requires
        pos <= input@.len(),
    ensures
        match sub_descriptors(input@, pos as int, num_endpoints as nat, Seq::empty(), None) {
            None => r is None,
            Some((eps, hid, end)) => r is Some && r->Some_0.0 == end && r->Some_0.1@ == eps
                && hid_view(r->Some_0.2) == hid && r->Some_0.3 == discarded_hid(
                input@,
                pos as int,
                num_endpoints as nat,
                false,
            ),
        },
{
    let mut p = pos;
    let mut count: u8 = 0;
    let mut eps: Vec<EndpointDescriptor> = Vec::new();
    let mut hid: Option<HIDDescriptor> = None;
    let mut dup: usize = 0;
    let n = input.len();
    while count < num_endpoints
        invariant
            n == input@.len(),
            p <= n,
            count <= num_endpoints,
            sub_descriptors(input@, pos as int, num_endpoints as nat, Seq::empty(), None)
                == sub_descriptors(input@, p as int, (num_endpoints - count) as nat, eps@, hid_view(hid)),
            dup <= p,
            discarded_hid(input@, pos as int, num_endpoints as nat, false) == dup + discarded_hid(
                input@,
                p as int,
                (num_endpoints - count) as nat,
                hid is Some,
            ),
        decreases num_endpoints - count, n - p,
    {
        if n - p < 2 {
            return None;
        }
        if input[p + 1] == HID_DESCRIPTOR {
            match HIDDescriptor::parse_at(input, p) {
                None => {
                    return None;
                },
                Some((end, d)) => {
                    if hid.is_none() {
                        hid = Some(d);
                    } else {
                        dup = dup + 1;
                    }
                    p = end;
                },
            }
        } else {
            match EndpointDescriptor::parse_at(input, p) {
                None => {
                    return None;
                },
                Some((end, d)) => {
                    eps.push(d);
                    count = count + 1;
                    p = end;
                },
            }
        }
    }
    Some((p, eps, hid, dup))
}

impl InterfaceDescriptor {
    pub fn get_type() -> (r: u8)
        ensures
            r == INTERFACE_DESCRIPTOR,
    {
        INTERFACE_DESCRIPTOR
    }

    pub fn get_length() -> (r: Option<usize>)
        ensures
            r == Some(INTERFACE_LENGTH),
    {
        Some(INTERFACE_LENGTH)
    }

    /// Decodes the interface at `pos` but its name; returns it with its string index and
    /// where it ends.
    fn parse_shape_at(input: &[u8], pos: usize) -> (r: Option<(usize, InterfaceDescriptor, u8)>)
        ensures
            match interface_at(input@, pos as int) {
                None => r is None,
                Some((v, si, end)) => r is Some && r->Some_0.0 == end && r->Some_0.1@ == v
                    && r->Some_0.2 == si,
            },
    {
        if pos > input.len() || input.len() - pos < INTERFACE_LENGTH {
            return None;
        }
        let num_endpoints = input[pos + 4];
        match parse_sub_descriptors(input, pos + INTERFACE_LENGTH, num_endpoints) {
            None => None,
            Some((end, endpoints, hid_desc, discarded_hid)) => {
                let d = InterfaceDescriptor {
                    id: input[pos + 2],
                    name: String::new(),
                    alt_setting: input[pos + 3],
                    if_class: input[pos + 5],
                    if_subclass: input[pos + 6],
                    if_proto: input[pos + 7],
                    endpoints,
                    hid_desc,
                    discarded_hid,
                };
                Some((end, d, input[pos + 8]))
            },
        }
    }

    /// Decodes the interface at `pos`, then fetches its name; returns where it ends.
    /// Malformed bytes give `GeneralParseError` with nothing fetched; a failed fetch of the
    /// name gives its transport error.
    pub fn parse_at<T: EP0>(ctx: &mut T, input: &[u8], pos: usize) -> (r: DescriptorResult<
        (usize, InterfaceDescriptor),
    >)
        ensures
            final(ctx).source() == old(ctx).source(),
            match interface_at(input@, pos as int) {
                None => r == Err::<(usize, InterfaceDescriptor), DescriptorError>(
                    DescriptorError::GeneralParseError,
                ) && *final(ctx) == *old(ctx),
                Some((v, si, end)) => {
                    &&& pos + INTERFACE_LENGTH <= end <= input@.len()
                    &&& old(ctx).events().is_prefix_of(final(ctx).events())
                    &&& read_names(seq![si], final(ctx).events(), old(ctx).events().len() as int)
                        == Some(
                        (
                            final(ctx).events().len() as int,
                            if r is Ok {
                                Ok(seq![r->Ok_0.1.name@])
                            } else {
                                Err(transport_error(r->Err_0))
                            },
                        ),
                    )
                    &&& r is Ok ==> r->Ok_0.0 == end && r->Ok_0.1@ == v
                    &&& r is Err ==> r->Err_0 is TransactionError
                    &&& si == 0 ==> r is Ok && r->Ok_0.1.name@ == NO_STRING@
                },
            },
    {
        if pos <= input.len() && input.len() - pos >= INTERFACE_LENGTH {
            proof {
                lemma_sub_descriptors_end(
                    input@,
                    pos + INTERFACE_LENGTH,
                    input@[pos + 4] as nat,
                    Seq::empty(),
                    None,
                );
            }
        }
        match Self::parse_shape_at(input, pos) {
            None => Err(DescriptorError::GeneralParseError),
            Some((end, d, si)) => {
                let mut d = d;
                let r1 = UsbString::new(si).read(ctx);
                proof {
                    if si == 0 {
                        assert(ctx.events().is_prefix_of(ctx.events()));
                    }
                }
                match r1 {
                    Ok(name) => {
                        d.name = name;
                        Ok((end, d))
                    },
                    Err(e) => Err(DescriptorError::from_transaction(e)),
                }
            },
        }
    }

    /// Decodes the interface at the start of `input`, then fetches its name; returns the
    /// bytes after it.
    pub fn parse<'a, T: EP0>(ctx: &mut T, input: &'a [u8]) -> (r: DescriptorResult<
        (&'a [u8], InterfaceDescriptor),
    >)
        ensures
            final(ctx).source() == old(ctx).source(),
            match interface_at(input@, 0) {
                None => r is Err && r->Err_0 == DescriptorError::GeneralParseError && *final(ctx)
                    == *old(ctx),
                Some((v, si, end)) => {
                    &&& old(ctx).events().is_prefix_of(final(ctx).events())
                    &&& read_names(seq![si], final(ctx).events(), old(ctx).events().len() as int)
                        == Some(
                        (
                            final(ctx).events().len() as int,
                            if r is Ok {
                                Ok(seq![r->Ok_0.1.name@])
                            } else {
                                Err(transport_error(r->Err_0))
                            },
                        ),
                    )
                    &&& r is Ok ==> r->Ok_0.0@ == input@.skip(end) && r->Ok_0.1@ == v
                    &&& r is Err ==> r->Err_0 is TransactionError
                    &&& si == 0 ==> r is Ok && r->Ok_0.1.name@ == NO_STRING@
                },
            },
    {
        match Self::parse_at(ctx, input, 0) {
            Ok((end, d)) => {
                let rest = vstd::slice::slice_subrange(input, end, input.len());
                proof {
                    assert(rest@ =~= input@.skip(end as int));
                }
                Ok((rest, d))
            },
            Err(e) => Err(e),
        }
    }
}

/// An endpoint descriptor reads the same wherever its bytes stand.
proof fn lemma_endpoint_at_shift(s: Seq<u8>, p: int, e: Seq<u8>)
    requires
        0 <= p,
        e.len() == ENDPOINT_LENGTH,
        p + e.len() <= s.len(),
        s.subrange(p, p + e.len()) == e,
    ensures
        endpoint_at(s, p) == endpoint_at(e, 0),
        s[p + 1] == e[1],
{
    assert forall|k: int| 0 <= k < e.len() implies s[p + k] == e[k] by {
        assert(s.subrange(p, p + e.len())[k] == s[p + k]);
    }
}

/// A HID descriptor reads the same wherever its bytes stand.
proof fn lemma_hid_at_shift(s: Seq<u8>, p: int, h: Seq<u8>)
    requires
        0 <= p,
        h.len() >= HID_HEADER_LENGTH,
        h.len() == hid_len(h, 0),
        p + h.len() <= s.len(),
        s.subrange(p, p + h.len()) == h,
    ensures
        hid_fits(s, p),
        hid_len(s, p) == h.len(),
        hid_at(s, p) == hid_at(h, 0),
        s[p + 1] == h[1],
{
    assert forall|k: int| 0 <= k < h.len() implies s[p + k] == h[k] by {
        assert(s.subrange(p, p + h.len())[k] == s[p + k]);
    }
    let a = hid_at(s, p).class_descriptors;
    let b = hid_at(h, 0).class_descriptors;
    assert forall|i: int| 0 <= i < a.len() implies a[i] == b[i] by {
        let q = HID_HEADER_LENGTH + HID_CLASS_LENGTH * i;
        assert(q + 2 < h.len());
        assert(s[p + q] == h[q]);
        assert(s[p + q + 1] == h[q + 1]);
        assert(s[p + q + 2] == h[q + 2]);
    }
    assert(a =~= b);
}

/// An interface announcing two endpoints, whose HID descriptor stands before the first
/// endpoint or between the two, is read whole: its three sub-descriptors are consumed, the
/// HID descriptor is attached once, none is discarded, and both endpoints are collected in
/// order. (A HID
/// descriptor after the last endpoint is not part of the interface: reading stops once the
/// announced endpoints are read.)
pub proof fn lemma_interface_interleaving(
    hdr: Seq<u8>,
    h: Seq<u8>,
    e1: Seq<u8>,
    e2: Seq<u8>,
    hid_first: bool,
)
    requires
        hdr.len() == INTERFACE_LENGTH,
        hdr[4] == 2,
        h.len() >= HID_HEADER_LENGTH,
        h.len() == hid_len(h, 0),
        h[1] == HID_DESCRIPTOR,
        e1.len() == ENDPOINT_LENGTH,
        e1[1] != HID_DESCRIPTOR,
        e2.len() == ENDPOINT_LENGTH,
        e2[1] != HID_DESCRIPTOR,
    ensures
        ({
            let s = if hid_first {
                hdr + h + e1 + e2
            } else {
                hdr + e1 + h + e2
            };
            interface_at(s, 0) == Some(
                (
                    InterfaceView {
                        id: hdr[2],
                        alt_setting: hdr[3],
                        if_class: hdr[5],
                        if_subclass: hdr[6],
                        if_proto: hdr[7],
                        endpoints: seq![endpoint_at(e1, 0), endpoint_at(e2, 0)],
                        hid_desc: Some(hid_at(h, 0)),
                        discarded_hid: 0,
                    },
                    hdr[8],
                    s.len() as int,
                ),
            )
        }),
{
    let ep1 = endpoint_at(e1, 0);
    let ep2 = endpoint_at(e2, 0);
    let hv = hid_at(h, 0);
    let none = Seq::<EndpointDescriptor>::empty();
    let hl = h.len() as int;
    let el = ENDPOINT_LENGTH as int;
    let il = INTERFACE_LENGTH as int;
    assert(none.push(ep1).push(ep2) =~= seq![ep1, ep2]);
    if hid_first {
        let s = hdr + h + e1 + e2;
        assert forall|k: int| 0 <= k < il implies s[k] == hdr[k] by {}
        assert(s.subrange(il, il + hl) =~= h);
        assert(s.subrange(il + hl, il + hl + el) =~= e1);
        assert(s.subrange(il + hl + el, il + hl + 2 * el) =~= e2);
        lemma_hid_at_shift(s, il, h);
        lemma_endpoint_at_shift(s, il + hl, e1);
        lemma_endpoint_at_shift(s, il + hl + el, e2);
        assert(sub_descriptors(s, il + hl + 2 * el, 0, none.push(ep1).push(ep2), Some(hv))
            == Some((none.push(ep1).push(ep2), Some(hv), s.len() as int)));
        assert(sub_descriptors(s, il + hl + el, 1, none.push(ep1), Some(hv)) == sub_descriptors(
            s,
            il + hl + 2 * el,
            0,
            none.push(ep1).push(ep2),
            Some(hv),
        ));
        assert(sub_descriptors(s, il + hl, 2, none, Some(hv)) == sub_descriptors(
            s,
            il + hl + el,
            1,
            none.push(ep1),
            Some(hv),
        ));
        assert(sub_descriptors(s, il, 2, none, None) == sub_descriptors(
            s,
            il + hl,
            2,
            none,
            Some(hv),
        ));
        assert(discarded_hid(s, il + hl + 2 * el, 0, true) == 0);
        assert(discarded_hid(s, il + hl + el, 1, true) == 0);
        assert(discarded_hid(s, il + hl, 2, true) == 0);
        assert(discarded_hid(s, il, 2, false) == 0);
    } else {
        let s = hdr + e1 + h + e2;
        assert forall|k: int| 0 <= k < il implies s[k] == hdr[k] by {}
        assert(s.subrange(il, il + el) =~= e1);
        assert(s.subrange(il + el, il + el + hl) =~= h);
        assert(s.subrange(il + el + hl, il + hl + 2 * el) =~= e2);
        lemma_endpoint_at_shift(s, il, e1);
        lemma_hid_at_shift(s, il + el, h);
        lemma_endpoint_at_shift(s, il + el + hl, e2);
        assert(sub_descriptors(s, il + hl + 2 * el, 0, none.push(ep1).push(ep2), Some(hv))
            == Some((none.push(ep1).push(ep2), Some(hv), s.len() as int)));
        assert(sub_descriptors(s, il + el + hl, 1, none.push(ep1), Some(hv)) == sub_descriptors(
            s,
            il + hl + 2 * el,
            0,
            none.push(ep1).push(ep2),
            Some(hv),
        ));
        assert(sub_descriptors(s, il + el, 1, none.push(ep1), None) == sub_descriptors(
            s,
            il + el + hl,
            1,
            none.push(ep1),
            Some(hv),
        ));
        assert(sub_descriptors(s, il, 2, none, None) == sub_descriptors(
            s,
            il + el,
            1,
            none.push(ep1),
            None,
        ));
        assert(discarded_hid(s, il + hl + 2 * el, 0, true) == 0);
        assert(discarded_hid(s, il + el + hl, 1, true) == 0);
        assert(discarded_hid(s, il + el, 1, false) == 0);
        assert(discarded_hid(s, il, 2, false) == 0);
    }
}

/// The interfaces from `p` on, while `left` are still to come after `acc`, whose string
/// indices are `names`: returns the interfaces, their string indices and where the last one
/// ends.
pub open spec fn interfaces_from(
    s: Seq<u8>,
    p: int,
    left: nat,
    acc: Seq<InterfaceView>,
    names: Seq<u8>,
) -> Option<(Seq<InterfaceView>, Seq<u8>, int)>
    decreases left,
{
    if left == 0 {
        Some((acc, names, p))
    } else {
        match interface_at(s, p) {
            None => None,
            Some((v, si, end)) => interfaces_from(
                s,
                end,
                (left - 1) as nat,
                acc.push(v),
                names.push(si),
            ),
        }
    }
}

/// A configuration descriptor and its interfaces.
#[derive(Debug)]
pub struct ConfigurationDescriptor {
    pub id: u8,
    pub name: String,
    pub attributes: u8,
    pub max_power: u8,
    pub interfaces: Vec<InterfaceDescriptor>,
}

/// A configuration's fields but the names.
pub struct ConfigurationView {
    pub id: u8,
    pub attributes: u8,
    pub max_power: u8,
    pub interfaces: Seq<InterfaceView>,
}

/// The views of interfaces.
pub open spec fn interface_views(v: Seq<InterfaceDescriptor>) -> Seq<InterfaceView> {
    v.map_values(|d: InterfaceDescriptor| d@)
}

impl View for ConfigurationDescriptor {
    type V = ConfigurationView;

    open spec fn view(&self) -> ConfigurationView {
        ConfigurationView {
            id: self.id,
            attributes: self.attributes,
            max_power: self.max_power,
            interfaces: interface_views(self.interfaces@),
        }
    }
}

/// Bytes of a configuration descriptor's header.
pub const CONFIGURATION_HEADER_LENGTH: usize = 9;

/// Bytes fetched to learn a configuration's total length.
pub const CONFIGURATION_PROBE_LENGTH: usize = 4;

/// The configuration in `s`: bLength, bDescriptorType, wTotalLength, bNumInterfaces,
/// bConfigurationValue, iConfiguration, bmAttributes, bMaxPower, then bNumInterfaces
/// interfaces one after the other. Returns it, the string indices to resolve (those of the
/// interfaces in order, then its own) and where it ends.
pub open spec fn configuration_at(s: Seq<u8>) -> Option<(ConfigurationView, Seq<u8>, int)> {
    if s.len() < CONFIGURATION_HEADER_LENGTH {
        None
    } else {
        match interfaces_from(
            s,
            CONFIGURATION_HEADER_LENGTH as int,
            s[4] as nat,
            Seq::empty(),
            Seq::empty(),
        ) {
            None => None,
            Some((ifs, names, end)) => Some(
                (
                    ConfigurationView {
                        id: s[5],
                        attributes: s[7],
                        max_power: s[8],
                        interfaces: ifs,
                    },
                    names.push(s[6]),
                    end,
                ),
            ),
        }
    }
}

/// The names of a configuration, in the order they are fetched: its interfaces', then its
/// own.
pub open spec fn configuration_names(d: ConfigurationDescriptor) -> Seq<Seq<char>> {
    Seq::new(d.interfaces@.len(), |j: int| d.interfaces@[j].name@).push(d.name@)
}

/// `r` is what decoding the configuration bytes `b` gives when its names are read from
/// position `q` of the request log `ev`, which ends with them.
pub open spec fn configuration_outcome(
    b: Seq<u8>,
    ev: Seq<Ep0Event>,
    q: int,
    r: DescriptorResult<ConfigurationDescriptor>,
) -> bool {
    match configuration_at(b) {
        None => ev.len() == q && r == Err::<ConfigurationDescriptor, DescriptorError>(
            DescriptorError::GeneralParseError,
        ),
        Some((v, names, _end)) => {
            &&& read_names(names, ev, q) == Some(
                (
                    ev.len() as int,
                    if r is Ok {
                        Ok(configuration_names(r->Ok_0))
                    } else {
                        Err(transport_error(r->Err_0))
                    },
                ),
            )
            &&& r is Ok ==> r->Ok_0@ == v
            &&& r is Err ==> r->Err_0 is TransactionError
            &&& (forall|j: int| 0 <= j < names.len() ==> names[j] == 0) ==> r is Ok
        },
    }
}

impl ConfigurationDescriptor {
    pub fn get_type() -> (r: u8)
        ensures
            r == CONFIGURATION_DESCRIPTOR,
    {
        CONFIGURATION_DESCRIPTOR
    }

    /// A configuration has no fixed length: its header gives it.
    pub fn get_length() -> (r: Option<usize>)
        ensures
            r is None,
    {
        None
    }

    /// Decodes the configuration at the start of `input`, then fetches the names of its
    /// interfaces and its own; returns the bytes after it. Malformed bytes give
    /// `GeneralParseError` with nothing fetched; a failed fetch gives its transport error.
    pub fn parse<'a, T: EP0>(ctx: &mut T, input: &'a [u8]) -> (r: DescriptorResult<
        (&'a [u8], ConfigurationDescriptor),
    >)
        ensures
            final(ctx).source() == old(ctx).source(),
            match configuration_at(input@) {
                None => r is Err && r->Err_0 == DescriptorError::GeneralParseError && *final(ctx)
                    == *old(ctx),
                Some((v, names, end)) => {
                    &&& old(ctx).events().is_prefix_of(final(ctx).events())
                    &&& read_names(names, final(ctx).events(), old(ctx).events().len() as int)
                        == Some(
                        (
                            final(ctx).events().len() as int,
                            if r is Ok {
                                Ok(configuration_names(r->Ok_0.1))
                            } else {
                                Err(transport_error(r->Err_0))
                            },
                        ),
                    )
                    &&& r is Ok ==> r->Ok_0.1@ == v && r->Ok_0.0@ == input@.skip(end)
                    &&& r is Err ==> r->Err_0 is TransactionError
                    &&& (forall|j: int| 0 <= j < names.len() ==> names[j] == 0) ==> r is Ok
                },
            },
    {
        let n = input.len();
        if n < CONFIGURATION_HEADER_LENGTH {
            return Err(DescriptorError::GeneralParseError);
        }
        let num_interfaces = input[4];
        let mut shapes: Vec<InterfaceDescriptor> = Vec::new();
        let mut indices: Vec<u8> = Vec::new();
        let mut p: usize = CONFIGURATION_HEADER_LENGTH;
        let mut i: u8 = 0;
        proof {
            assert(interface_views(shapes@) =~= Seq::<InterfaceView>::empty());
        }
        while i < num_interfaces
            invariant
                n == input@.len(),
                n >= CONFIGURATION_HEADER_LENGTH,
                num_interfaces == input@[4],
                i <= num_interfaces,
                p <= n,
                shapes@.len() == i,
                indices@.len() == i,
                interfaces_from(
                    input@,
                    CONFIGURATION_HEADER_LENGTH as int,
                    num_interfaces as nat,
                    Seq::empty(),
                    Seq::empty(),
                ) == interfaces_from(
                    input@,
                    p as int,
                    (num_interfaces - i) as nat,
                    interface_views(shapes@),
                    indices@,
                ),
            decreases num_interfaces - i,
        {
            if p <= n && n - p >= INTERFACE_LENGTH {
                proof {
                    lemma_sub_descriptors_end(
                        input@,
                        p + INTERFACE_LENGTH,
                        input@[p + 4] as nat,
                        Seq::empty(),
                        None,
                    );
                }
            }
            match InterfaceDescriptor::parse_shape_at(input, p) {
                Some((end, d, si)) => {
                    proof {
                        assert(interface_views(shapes@.push(d)) =~= interface_views(shapes@).push(
                            d@,
                        ));
                    }
                    shapes.push(d);
                    indices.push(si);
                    p = end;
                    i = i + 1;
                },
                None => {
                    return Err(DescriptorError::GeneralParseError);
                },
            }
        }
        let ghost sv = interface_views(shapes@);
        let ghost if_names = indices@;
        indices.push(input[6]);
        proof {
            assert(configuration_at(input@) == Some(
                (
                    ConfigurationView {
                        id: input@[5],
                        attributes: input@[7],
                        max_power: input@[8],
                        interfaces: sv,
                    },
                    indices@,
                    p as int,
                ),
            ));
        }
        let ghost ev0 = ctx.events();
        let names = match resolve_names(ctx, indices.as_slice()) {
            Ok(names) => names,
            Err(e) => {
                proof {
                    if forall|j: int| 0 <= j < indices@.len() ==> indices@[j] == 0 {
                        crate::ep0::lemma_read_names_zero(indices@, ctx.events(), ev0.len() as int);
                    }
                }
                return Err(DescriptorError::from_transaction(e));
            },
        };
        let ghost all = names@;
        let k = shapes.len();
        let mut names = names;
        let mut interfaces: Vec<InterfaceDescriptor> = Vec::new();
        let mut j: usize = 0;
        while j < k
            invariant
                k == sv.len(),
                all.len() == k + 1,
                j <= k,
                shapes@.len() == k - j,
                names@.len() == k + 1 - j,
                interfaces@.len() == j,
                forall|t: int|
                    0 <= t < j ==> (#[trigger] interfaces@[t])@ == sv[t] && interfaces@[t].name@
                        == all[t]@,
                forall|t: int| 0 <= t < k - j ==> (#[trigger] shapes@[t])@ == sv[j + t],
                forall|t: int| 0 <= t < k + 1 - j ==> #[trigger] names@[t] == all[j + t],
            decreases k - j,
        {
            let mut d = shapes.remove(0);
            let name = names.remove(0);
            d.name = name;
            interfaces.push(d);
            j = j + 1;
        }
        let name = names.remove(0);
        let d = ConfigurationDescriptor {
            id: input[5],
            name,
            attributes: input[7],
            max_power: input[8],
            interfaces,
        };
        proof {
            assert(interface_views(d.interfaces@) =~= sv);
            assert(configuration_names(d) =~= all.map_values(|s: String| s@));
        }
        let rest = vstd::slice::slice_subrange(input, p, n);
        proof {
            assert(rest@ =~= input@.skip(p as int));
        }
        Ok((rest, d))
    }

    /// Fetches configuration `index`: first the start of its header, whose bytes 2..3 give
    /// its total length, then that many bytes, which are decoded as `parse` decodes them.
    /// A failed fetch gives its transport error.
    pub fn new<T: EP0>(ctx: &mut T, index: u8) -> (r: DescriptorResult<ConfigurationDescriptor>)
        ensures
            final(ctx).source() == old(ctx).source(),
            ({
                let ev = final(ctx).events();
                let p0 = old(ctx).events().len() as int;
                &&& old(ctx).events().is_prefix_of(ev)
                &&& p0 < ev.len()
                &&& fetched(
                    ev[p0],
                    CONFIGURATION_DESCRIPTOR,
                    index,
                    CONFIGURATION_PROBE_LENGTH as nat,
                )
                &&& ev[p0]->Descriptor_result is Err ==> ev.len() == p0 + 1 && r == Err::<
                    ConfigurationDescriptor,
                    DescriptorError,
                >(DescriptorError::TransactionError(ev[p0]->Descriptor_result->Err_0))
                &&& ev[p0]->Descriptor_result is Ok ==> {
                    &&& p0 + 1 < ev.len()
                    &&& fetched(
                        ev[p0 + 1],
                        CONFIGURATION_DESCRIPTOR,
                        index,
                        le16(ev[p0]->Descriptor_data, 2) as nat,
                    )
                    &&& ev[p0 + 1]->Descriptor_result is Err ==> ev.len() == p0 + 2 && r == Err::<
                        ConfigurationDescriptor,
                        DescriptorError,
                    >(DescriptorError::TransactionError(ev[p0 + 1]->Descriptor_result->Err_0))
                    &&& ev[p0 + 1]->Descriptor_result is Ok ==> configuration_outcome(
                        ev[p0 + 1]->Descriptor_data,
                        ev,
                        p0 + 2,
                        r,
                    )
                }
            }),
    {
        let ghost p0 = ctx.events().len() as int;
        let mut probe = vec![0u8; CONFIGURATION_PROBE_LENGTH];
        match ctx.get_descriptor(CONFIGURATION_DESCRIPTOR, index, probe.as_mut_slice()) {
            Ok(()) => {},
            Err(e) => {
                return Err(DescriptorError::from_transaction(e));
            },
        }
        let total = probe[2] as usize + 256 * (probe[3] as usize);
        let mut buf = vec![0u8; total];
        match ctx.get_descriptor(CONFIGURATION_DESCRIPTOR, index, buf.as_mut_slice()) {
            Ok(()) => {},
            Err(e) => {
                return Err(DescriptorError::from_transaction(e));
            },
        }
        let ghost ev1 = ctx.events();
        let r = Self::parse(ctx, buf.as_slice());
        proof {
            assert(ctx.events()[p0] == ev1[p0]);
            assert(ctx.events()[p0 + 1] == ev1[p0 + 1]);
        }
        match r {
            Ok((_rest, d)) => Ok(d),
            Err(e) => Err(e),
        }
    }
}

/// Fetches `length` bytes of descriptor `descriptor_type` number `index`. A descriptor
/// type without a fixed length, or one longer than a control transfer can carry, gives
/// `InvalidLength` with nothing fetched.
pub fn fetch_fixed<T: EP0>(ctx: &mut T, descriptor_type: u8, length: Option<usize>, index: u8) -> (r:
    DescriptorResult<Vec<u8>>)
    ensures
        final(ctx).source() == old(ctx).source(),
        length is None || length->Some_0 > u16::MAX ==> r == Err::<Vec<u8>, DescriptorError>(
            DescriptorError::InvalidLength,
        ) && *final(ctx) == *old(ctx),
        length is Some && length->Some_0 <= u16::MAX ==> ({
            let ev = final(ctx).events();
            let p0 = old(ctx).events().len() as int;
            &&& old(ctx).events().is_prefix_of(ev)
            &&& ev.len() == p0 + 1
            &&& fetched(ev[p0], descriptor_type, index, length->Some_0 as nat)
            &&& ev[p0]->Descriptor_result is Ok ==> r is Ok && r->Ok_0@ == ev[p0]->Descriptor_data
                && r->Ok_0@.len() == length->Some_0
            &&& ev[p0]->Descriptor_result is Err ==> r == Err::<Vec<u8>, DescriptorError>(
                DescriptorError::TransactionError(ev[p0]->Descriptor_result->Err_0),
            )
        }),
{
    let n = match length {
        Some(n) => n,
        None => {
            return Err(DescriptorError::InvalidLength);
        },
    };
    if n > 0xFFFF {
        return Err(DescriptorError::InvalidLength);
    }
    let mut buf = vec![0u8; n];
    match ctx.get_descriptor(descriptor_type, index, buf.as_mut_slice()) {
        Ok(()) => Ok(buf),
        Err(e) => Err(DescriptorError::from_transaction(e)),
    }
}

impl EndpointDescriptor {
    /// Fetches endpoint descriptor `index` and decodes it.
    pub fn new<T: EP0>(ctx: &mut T, index: u8) -> (r: DescriptorResult<EndpointDescriptor>)
        ensures
            final(ctx).source() == old(ctx).source(),
            ({
                let ev = final(ctx).events();
                let p0 = old(ctx).events().len() as int;
                &&& old(ctx).events().is_prefix_of(ev)
                &&& ev.len() == p0 + 1
                &&& fetched(ev[p0], ENDPOINT_DESCRIPTOR, index, ENDPOINT_LENGTH as nat)
                &&& ev[p0]->Descriptor_result is Ok ==> r == Ok::<EndpointDescriptor, DescriptorError>(
                    endpoint_at(ev[p0]->Descriptor_data, 0),
                )
                &&& ev[p0]->Descriptor_result is Err ==> r == Err::<EndpointDescriptor, DescriptorError>(
                    DescriptorError::TransactionError(ev[p0]->Descriptor_result->Err_0),
                )
            }),
    {
        let buf = match fetch_fixed(ctx, Self::get_type(), Self::get_length(), index) {
            Ok(buf) => buf,
            Err(e) => {
                return Err(e);
            },
        };
        match Self::parse(buf.as_slice()) {
            Ok((_rest, d)) => Ok(d),
            Err(e) => Err(e),
        }
    }
}

/// A device descriptor, with its strings.
#[derive(Debug)]
pub struct DeviceDescriptor {
    pub bcd_usb: u16,
    pub usb_class: u8,
    pub usb_subclass: u8,
    pub usb_proto: u8,
    pub mps: u8,
    pub vid: u16,
    pub pid: u16,
    pub bcd: u16,
    pub manufacturer: String,
    pub product: String,
    pub serial: String,
    pub num_configurations: u8,
}

/// A device descriptor's fields but its strings.
pub struct DeviceView {
    pub bcd_usb: u16,
    pub usb_class: u8,
    pub usb_subclass: u8,
    pub usb_proto: u8,
    pub mps: u8,
    pub vid: u16,
    pub pid: u16,
    pub bcd: u16,
    pub num_configurations: u8,
}

impl View for DeviceDescriptor {
    type V = DeviceView;

    open spec fn view(&self) -> DeviceView {
        DeviceView {
            bcd_usb: self.bcd_usb,
            usb_class: self.usb_class,
            usb_subclass: self.usb_subclass,
            usb_proto: self.usb_proto,
            mps: self.mps,
            vid: self.vid,
            pid: self.pid,
            bcd: self.bcd,
            num_configurations: self.num_configurations,
        }
    }
}

/// Bytes of a device descriptor.
pub const DEVICE_LENGTH: usize = 18;

/// Bytes fetched to learn endpoint 0's max packet size.
pub const DEVICE_PROBE_LENGTH: usize = 8;

/// The device descriptor in `s`: bLength, bDescriptorType (which must be 1), bcdUSB,
/// bDeviceClass, bDeviceSubClass, bDeviceProtocol, bMaxPacketSize0, idVendor, idProduct,
/// bcdDevice, iManufacturer, iProduct, iSerialNumber, bNumConfigurations. Returns it and its
/// three string indices.
pub open spec fn device_at(s: Seq<u8>) -> Option<(DeviceView, (u8, u8, u8))> {
    if s.len() < DEVICE_LENGTH || s[1] != DEVICE_DESCRIPTOR {
        None
    } else {
        Some(
            (
                DeviceView {
                    bcd_usb: le16(s, 2),
                    usb_class: s[4],
                    usb_subclass: s[5],
                    usb_proto: s[6],
                    mps: s[7],
                    vid: le16(s, 8),
                    pid: le16(s, 10),
                    bcd: le16(s, 12),
                    num_configurations: s[17],
                },
                (s[14], s[15], s[16]),
            ),
        )
    }
}

/// The three strings of a device, in the order they are fetched.
pub open spec fn device_names(d: DeviceDescriptor) -> Seq<Seq<char>> {
    seq![d.manufacturer@, d.product@, d.serial@]
}

/// `r` is what decoding the device descriptor bytes `b` gives when its strings are read
/// from position `q` of the request log `ev`, which ends with them.
pub open spec fn device_outcome(
    b: Seq<u8>,
    ev: Seq<Ep0Event>,
    q: int,
    r: DescriptorResult<DeviceDescriptor>,
) -> bool {
    match device_at(b) {
        None => ev.len() == q && r == Err::<DeviceDescriptor, DescriptorError>(
            DescriptorError::GeneralParseError,
        ),
        Some((v, (im, ip, is))) => {
            &&& read_names(seq![im, ip, is], ev, q) == Some(
                (
                    ev.len() as int,
                    if r is Ok {
                        Ok(device_names(r->Ok_0))
                    } else {
                        Err(transport_error(r->Err_0))
                    },
                ),
            )
            &&& r is Ok ==> r->Ok_0@ == v
            &&& r is Err ==> r->Err_0 is TransactionError
            &&& im == 0 && ip == 0 && is == 0 ==> r is Ok
        },
    }
}

/// The max packet size of endpoint 0 that a probe of a device descriptor announces: its byte
/// 7, when the probe holds it and it is not 0.
pub open spec fn probe_mps(p: Seq<u8>) -> Option<u8> {
    if p.len() >= DEVICE_PROBE_LENGTH && p[7] != 0 {
        Some(p[7])
    } else {
        None
    }
}

/// Reads the max packet size of endpoint 0 from a probe of a device descriptor.
pub fn probe_max_packet_size(probe: &[u8]) -> (r: Option<u8>)
    ensures
        r == probe_mps(probe@),
{
    if probe.len() >= DEVICE_PROBE_LENGTH && probe[7] != 0 {
        Some(probe[7])
    } else {
        None
    }
}

impl DeviceDescriptor {
    pub fn get_type() -> (r: u8)
        ensures
            r == DEVICE_DESCRIPTOR,
    {
        DEVICE_DESCRIPTOR
    }

    pub fn get_length() -> (r: Option<usize>)
        ensures
            r == Some(DEVICE_LENGTH),
    {
        Some(DEVICE_LENGTH)
    }

    /// Decodes the device descriptor at the start of `input`, then fetches its three
    /// strings; returns the bytes after it. Malformed bytes give `GeneralParseError` with
    /// nothing fetched; a failed fetch gives its transport error.
    pub fn parse<'a, T: EP0>(ctx: &mut T, input: &'a [u8]) -> (r: DescriptorResult<
        (&'a [u8], DeviceDescriptor),
    >)
        ensures
            final(ctx).source() == old(ctx).source(),
            match device_at(input@) {
                None => r is Err && r->Err_0 == DescriptorError::GeneralParseError && *final(ctx)
                    == *old(ctx),
                Some((v, (im, ip, is))) => {
                    &&& old(ctx).events().is_prefix_of(final(ctx).events())
                    &&& read_names(
                        seq![im, ip, is],
                        final(ctx).events(),
                        old(ctx).events().len() as int,
                    ) == Some(
                        (
                            final(ctx).events().len() as int,
                            if r is Ok {
                                Ok(device_names(r->Ok_0.1))
                            } else {
                                Err(transport_error(r->Err_0))
                            },
                        ),
                    )
                    &&& r is Ok ==> r->Ok_0.0@ == input@.skip(DEVICE_LENGTH as int) && r->Ok_0.1@
                        == v
                    &&& r is Err ==> r->Err_0 is TransactionError
                    &&& im == 0 && ip == 0 && is == 0 ==> r is Ok
                },
            },
    {
        let n = input.len();
        if n < DEVICE_LENGTH || input[1] != DEVICE_DESCRIPTOR {
            return Err(DescriptorError::GeneralParseError);
        }
        let indices = vec![input[14], input[15], input[16]];
        let ghost ev0 = ctx.events();
        proof {
            assert(indices@ =~= seq![input@[14], input@[15], input@[16]]);
        }
        let names = match resolve_names(ctx, indices.as_slice()) {
            Ok(names) => names,
            Err(e) => {
                proof {
                    if input@[14] == 0 && input@[15] == 0 && input@[16] == 0 {
                        crate::ep0::lemma_read_names_zero(indices@, ctx.events(), ev0.len() as int);
                    }
                }
                return Err(DescriptorError::from_transaction(e));
            },
        };
        let d = DeviceDescriptor {
            bcd_usb: read_le16(input, 2),
            usb_class: input[4],
            usb_subclass: input[5],
            usb_proto: input[6],
            mps: input[7],
            vid: read_le16(input, 8),
            pid: read_le16(input, 10),
            bcd: read_le16(input, 12),
            manufacturer: names[0].clone(),
            product: names[1].clone(),
            serial: names[2].clone(),
            num_configurations: input[17],
        };
        proof {
            assert(device_names(d) =~= names@.map_values(|s: String| s@));
        }
        let rest = vstd::slice::slice_subrange(input, DEVICE_LENGTH, n);
        proof {
            assert(rest@ =~= input@.skip(DEVICE_LENGTH as int));
        }
        Ok((rest, d))
    }

    /// Fetches device descriptor `index`: first its first 8 bytes, whose last gives endpoint
    /// 0's max packet size, which is applied; then all 18 bytes, which are decoded as `parse`
    /// decodes them. A max packet size of 0 gives `GeneralParseError`; a failed fetch gives its
    /// transport error.
    pub fn new<T: EP0 + PhysicalEP0>(ctx: &mut T, index: u8) -> (r: DescriptorResult<DeviceDescriptor>)
        ensures
            final(ctx).source() == old(ctx).source(),
            ({
                let ev = final(ctx).events();
                let p0 = old(ctx).events().len() as int;
                &&& old(ctx).events().is_prefix_of(ev)
                &&& p0 < ev.len()
                &&& fetched(ev[p0], DEVICE_DESCRIPTOR, index, DEVICE_PROBE_LENGTH as nat)
                &&& ev[p0]->Descriptor_result is Err ==> ev.len() == p0 + 1 && r == Err::<
                    DeviceDescriptor,
                    DescriptorError,
                >(DescriptorError::TransactionError(ev[p0]->Descriptor_result->Err_0))
                &&& ev[p0]->Descriptor_result is Ok && probe_mps(ev[p0]->Descriptor_data) is None
                    ==> ev.len() == p0 + 1 && r == Err::<DeviceDescriptor, DescriptorError>(
                    DescriptorError::GeneralParseError,
                )
                &&& ev[p0]->Descriptor_result is Ok && probe_mps(ev[p0]->Descriptor_data) is Some
                    ==> {
                    &&& p0 + 2 < ev.len()
                    &&& ev[p0 + 1] == Ep0Event::MaxPacketSize {
                        mps: probe_mps(ev[p0]->Descriptor_data)->Some_0,
                    }
                    &&& fetched(ev[p0 + 2], DEVICE_DESCRIPTOR, index, DEVICE_LENGTH as nat)
                    &&& ev[p0 + 2]->Descriptor_result is Err ==> ev.len() == p0 + 3 && r == Err::<
                        DeviceDescriptor,
                        DescriptorError,
                    >(DescriptorError::TransactionError(ev[p0 + 2]->Descriptor_result->Err_0))
                    &&& ev[p0 + 2]->Descriptor_result is Ok ==> device_outcome(
                        ev[p0 + 2]->Descriptor_data,
                        ev,
                        p0 + 3,
                        r,
                    )
                }
            }),
    {
        let ghost p0 = ctx.events().len() as int;
        let mut probe = vec![0u8; DEVICE_PROBE_LENGTH];
        match ctx.get_descriptor(DEVICE_DESCRIPTOR, index, probe.as_mut_slice()) {
            Ok(()) => {},
            Err(e) => {
                return Err(DescriptorError::from_transaction(e));
            },
        }
        let mps = match probe_max_packet_size(probe.as_slice()) {
            Some(mps) => mps,
            None => {
                return Err(DescriptorError::GeneralParseError);
            },
        };
        ctx.set_max_packet_size(mps);
        let mut buf = vec![0u8; DEVICE_LENGTH];
        match ctx.get_descriptor(DEVICE_DESCRIPTOR, index, buf.as_mut_slice()) {
            Ok(()) => {},
            Err(e) => {
                return Err(DescriptorError::from_transaction(e));
            },
        }
        let ghost ev1 = ctx.events();
        let r = Self::parse(ctx, buf.as_slice());
        proof {
            assert(ctx.events()[p0] == ev1[p0]);
            assert(ctx.events()[p0 + 1] == ev1[p0 + 1]);
            assert(ctx.events()[p0 + 2] == ev1[p0 + 2]);
        }
        match r {
            Ok((_rest, d)) => Ok(d),
            Err(e) => Err(e),
        }
    }
}

} // verus!
