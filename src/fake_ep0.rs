//! A simulated endpoint 0 that answers from a table of descriptors and strings.

use vstd::prelude::*;
use crate::ep0::{text_result, Ep0Event, Ep0Source, PhysicalEP0, EP0};
use crate::hc::{TransactionError, TransactionResult};

verus! {

/// The descriptor types the table is keyed by.
#[derive(Debug, Clone, Copy, PartialEq, Eq, Structural)]
pub enum DescriptorType {
    Device,
    Configuration,
    String,
    Interface,
    Endpoint,
}

/// The descriptor type code of each kind.
pub open spec fn type_code(t: DescriptorType) -> u8 {
    match t {
        DescriptorType::Device => 1,
        DescriptorType::Configuration => 2,
        DescriptorType::String => 3,
        DescriptorType::Interface => 4,
        DescriptorType::Endpoint => 5,
    }
}

impl DescriptorType {
    pub fn code(self) -> (r: u8)
        ensures
            r == type_code(self),
    {
        match self {
            DescriptorType::Device => 1,
            DescriptorType::Configuration => 2,
            DescriptorType::String => 3,
            DescriptorType::Interface => 4,
            DescriptorType::Endpoint => 5,
        }
    }

    /// The kind with descriptor type code `code`, if any.
    pub fn from_code(code: u8) -> (r: Option<DescriptorType>)
        ensures
            r matches Some(t) ==> type_code(t) == code,
            r is None ==> 1 > code || code > 5,
    {
        match code {
            1 => Some(DescriptorType::Device),
            2 => Some(DescriptorType::Configuration),
            3 => Some(DescriptorType::String),
            4 => Some(DescriptorType::Interface),
            5 => Some(DescriptorType::Endpoint),
            _ => None,
        }
    }
}

/// The bytes of the entry for `(code, index)` added last, if any.
pub open spec fn find_descriptor(e: Seq<(u8, u8, Seq<u8>)>, code: u8, index: u8) -> Option<Seq<u8>>
    decreases e.len(),
{
    if e.len() == 0 {
        None
    } else if e.last().0 == code && e.last().1 == index {
        Some(e.last().2)
    } else {
        find_descriptor(e.drop_last(), code, index)
    }
}

/// The stored descriptors as values.
pub open spec fn descriptor_table(v: Seq<(u8, u8, Vec<u8>)>) -> Seq<(u8, u8, Seq<u8>)> {
    v.map_values(|t: (u8, u8, Vec<u8>)| (t.0, t.1, t.2@))
}

/// The stored strings as values.
pub open spec fn string_table(v: Seq<(u8, String)>) -> Seq<(u8, Seq<char>)> {
    v.map_values(|t: (u8, String)| (t.0, t.1@))
}

/// The string added last for `index`, if any.
pub open spec fn find_string(e: Seq<(u8, Seq<char>)>, index: u8) -> Option<Seq<char>>
    decreases e.len(),
{
    if e.len() == 0 {
        None
    } else if e.last().0 == index {
        Some(e.last().1)
    } else {
        find_string(e.drop_last(), index)
    }
}

/// A simulated endpoint 0. A descriptor request copies the start of the stored bytes (a
/// short descriptor fills only the start of the buffer); an unknown descriptor or string
/// fails with `Error`.
pub struct FakeEP0 {
    descriptors: Vec<(u8, u8, Vec<u8>)>,
    strings: Vec<(u8, String)>,
    request_fired: u32,
    events: Ghost<Seq<Ep0Event>>,
}

/// `e` is what the tables of `ep0` answer: a descriptor fetch copies the start of the stored
/// bytes and fails with `Error` for an unknown descriptor; a string fetch gives the stored
/// text and fails with `Error` for an unknown string; a change of address succeeds.
pub open spec fn event_agrees(e: Ep0Event, ep0: FakeEP0) -> bool {
    match e {
        Ep0Event::Descriptor { descriptor_type, index, length, result, data } => match ep0.descriptor(
            descriptor_type,
            index,
        ) {
            None => result == Err::<(), TransactionError>(TransactionError::Error),
            Some(b) => {
                &&& result is Ok
                &&& data.len() == length
                &&& b.len() >= length ==> data == b.take(length as int)
                &&& b.len() < length ==> data.take(b.len() as int) == b
            },
        },
        Ep0Event::Text { index, text } => match ep0.string(index) {
            None => text == Err::<Seq<char>, TransactionError>(TransactionError::Error),
            Some(t) => text == Ok::<Seq<char>, TransactionError>(t),
        },
        Ep0Event::MaxPacketSize { .. } => true,
        Ep0Event::Address { result, .. } => result is Ok,
    }
}

/// Agreement with the tables depends on the tables alone.
proof fn lemma_agrees_same_tables(a: FakeEP0, b: FakeEP0, e: Ep0Event)
    requires
        a.descriptors == b.descriptors,
        a.strings == b.strings,
    ensures
        event_agrees(e, a) == event_agrees(e, b),
{
}

/// The events of `ep0` with one more that agrees with its tables all agree with them.
proof fn lemma_agrees_push(old_ep0: FakeEP0, ep0: FakeEP0, e: Ep0Event)
    requires
        old_ep0.descriptors == ep0.descriptors,
        old_ep0.strings == ep0.strings,
        forall|i: int|
            0 <= i < old_ep0.events@.len() ==> event_agrees(#[trigger] old_ep0.events@[i], old_ep0),
        ep0.events@ == old_ep0.events@.push(e),
        event_agrees(e, ep0),
    ensures
        forall|i: int| 0 <= i < ep0.events@.len() ==> event_agrees(#[trigger] ep0.events@[i], ep0),
{
    assert forall|i: int| 0 <= i < ep0.events@.len() implies event_agrees(
        #[trigger] ep0.events@[i],
        ep0,
    ) by {
        if i < old_ep0.events@.len() {
            assert(ep0.events@[i] == old_ep0.events@[i]);
            lemma_agrees_same_tables(old_ep0, ep0, ep0.events@[i]);
        }
    }
}

impl FakeEP0 {
    #[verifier::type_invariant]
    spec fn answers_from_tables(&self) -> bool {
        forall|i: int| 0 <= i < self.events@.len() ==> event_agrees(#[trigger] self.events@[i], *self)
    }

    /// Every request made so far was answered from the tables.
    pub fn consistent(&self)
        ensures
            forall|i: int|
                0 <= i < self.events().len() ==> event_agrees(#[trigger] self.events()[i], *self),
    {
        proof {
            use_type_invariant(self);
        }
    }

    pub open spec fn descriptor(&self, code: u8, index: u8) -> Option<Seq<u8>> {
        find_descriptor(self.source().descriptors, code, index)
    }

    pub open spec fn string(&self, index: u8) -> Option<Seq<char>> {
        find_string(self.source().strings, index)
    }

    /// Descriptor and string requests answered so far.
    pub closed spec fn requests(&self) -> u32 {
        self.request_fired
    }

    pub fn request_fired(&self) -> (r: u32)
        ensures
            r == self.requests(),
    {
        self.request_fired
    }

    pub fn new() -> (r: FakeEP0)
        ensures
            forall|c: u8, i: u8| r.descriptor(c, i) is None,
            forall|i: u8| r.string(i) is None,
            r.requests() == 0,
            r.events().len() == 0,
    {
        FakeEP0 {
            descriptors: Vec::new(),
            strings: Vec::new(),
            request_fired: 0,
            events: Ghost(Seq::empty()),
        }
    }

    /// Stores `data` as descriptor `index` of kind `kind`, replacing what was stored there.
    /// The tables are filled before the first request.
    pub fn add_descriptor(&mut self, kind: DescriptorType, index: u8, data: Vec<u8>)
        requires
            old(self).events().len() == 0,
        ensures
            forall|c: u8, i: u8|
                #[trigger] final(self).descriptor(c, i) == if c == type_code(kind) && i == index {
                    Some(data@)
                } else {
                    old(self).descriptor(c, i)
                },
            forall|i: u8| #[trigger] final(self).string(i) == old(self).string(i),
            final(self).requests() == old(self).requests(),
            final(self).events() == old(self).events(),
    {
        let ghost d = data@;
        let mut descriptors: Vec<(u8, u8, Vec<u8>)> = Vec::new();
        std::mem::swap(&mut descriptors, &mut self.descriptors);
        descriptors.push((kind.code(), index, data));
        std::mem::swap(&mut descriptors, &mut self.descriptors);
        proof {
            assert forall|c: u8, i: u8| #[trigger] self.descriptor(c, i) == if c == type_code(kind)
                && i == index {
                Some(d)
            } else {
                old(self).descriptor(c, i)
            } by {
                assert(descriptor_table(self.descriptors@).drop_last() =~= descriptor_table(
                    old(self).descriptors@,
                ));
            }
        }
    }

    /// Stores `data` as string `index`, replacing what was stored there. The tables are
    /// filled before the first request.
    pub fn add_string(&mut self, index: u8, data: String)
        requires
            old(self).events().len() == 0,
        ensures
            forall|i: u8|
                #[trigger] final(self).string(i) == if i == index {
                    Some(data@)
                } else {
                    old(self).string(i)
                },
            forall|c: u8, i: u8| #[trigger] final(self).descriptor(c, i) == old(self).descriptor(c, i),
            final(self).requests() == old(self).requests(),
            final(self).events() == old(self).events(),
    {
        let ghost d = data@;
        let mut strings: Vec<(u8, String)> = Vec::new();
        std::mem::swap(&mut strings, &mut self.strings);
        strings.push((index, data));
        std::mem::swap(&mut strings, &mut self.strings);
        proof {
            assert forall|i: u8| #[trigger] self.string(i) == if i == index {
                Some(d)
            } else {
                old(self).string(i)
            } by {
                assert(string_table(self.strings@).drop_last() =~= string_table(old(self).strings@));
            }
        }
    }

    fn count_request(&mut self)
        ensures
            final(self).descriptors == old(self).descriptors,
            final(self).strings == old(self).strings,
            final(self).events == old(self).events,
            final(self).request_fired == if old(self).request_fired < u32::MAX {
                old(self).request_fired + 1
            } else {
                old(self).request_fired as int
            },
    {
        proof {
            use_type_invariant(&*self);
        }
        let ghost before = *self;
        if self.request_fired < u32::MAX {
            proof {
                assert forall|i: int| 0 <= i < self.events@.len() implies event_agrees(
                    #[trigger] self.events@[i],
                    FakeEP0 { request_fired: (self.request_fired + 1) as u32, ..*self },
                ) by {
                    lemma_agrees_same_tables(
                        before,
                        FakeEP0 { request_fired: (self.request_fired + 1) as u32, ..*self },
                        self.events@[i],
                    );
                }
            }
            self.request_fired = self.request_fired + 1;
        }
    }
}

impl Default for FakeEP0 {
    fn default() -> (r: FakeEP0)
        ensures
            forall|c: u8, i: u8| r.descriptor(c, i) is None,
            forall|i: u8| r.string(i) is None,
            r.requests() == 0,
            r.events().len() == 0,
    {
        FakeEP0::new()
    }
}

impl FakeEP0 {
    fn lookup_descriptor(&mut self, descriptor_type: u8, index: u8, buf: &mut [u8]) -> (r:
        TransactionResult<()>)
        ensures
            final(self).descriptors == old(self).descriptors,
            final(self).strings == old(self).strings,
            final(self).events == old(self).events,
            final(buf)@.len() == old(buf)@.len(),
            old(self).descriptor(descriptor_type, index) is None ==> r == Err::<(), TransactionError>(
                TransactionError::Error,
            ),
            old(self).descriptor(descriptor_type, index) matches Some(d) ==> r is Ok && final(buf)@
                =~= if d.len() >= old(buf)@.len() {
                d.take(old(buf)@.len() as int)
            } else {
                d + old(buf)@.skip(d.len() as int)
            },
    {
        self.count_request();
        let n = self.descriptors.len();
        let mut j = n;
        proof {
            assert(descriptor_table(self.descriptors@).take(n as int) =~= descriptor_table(
                self.descriptors@,
            ));
        }
        while j > 0
            invariant
                n == self.descriptors@.len(),
                j <= n,
                buf@ == old(buf)@,
                find_descriptor(descriptor_table(self.descriptors@), descriptor_type, index)
                    == find_descriptor(
                    descriptor_table(self.descriptors@).take(j as int),
                    descriptor_type,
                    index,
                ),
                self.descriptors == old(self).descriptors,
                self.strings == old(self).strings,
                self.events == old(self).events,
            decreases j,
        {
            j = j - 1;
            proof {
                assert(descriptor_table(self.descriptors@).take(j + 1).drop_last() =~= descriptor_table(
                    self.descriptors@,
                ).take(j as int));
            }
            if self.descriptors[j].0 == descriptor_type && self.descriptors[j].1 == index {
                let data = &self.descriptors[j].2;
                let m = if data.len() < buf.len() {
                    data.len()
                } else {
                    buf.len()
                };
                let mut k: usize = 0;
                while k < m
                    invariant
                        m <= data@.len(),
                        m <= buf@.len(),
                        buf@.len() == old(buf)@.len(),
                        k <= m,
                        forall|t: int|
                            0 <= t < buf@.len() ==> buf@[t] == if t < k {
                                data@[t]
                            } else {
                                old(buf)@[t]
                            },
                    decreases m - k,
                {
                    buf[k] = data[k];
                    k = k + 1;
                }
                return Ok(());
            }
        }
        Err(TransactionError::Error)
    }

    fn lookup_string(&mut self, index: u8) -> (r: TransactionResult<String>)
        ensures
            final(self).descriptors == old(self).descriptors,
            final(self).strings == old(self).strings,
            final(self).events == old(self).events,
            old(self).string(index) is None ==> r == Err::<String, TransactionError>(
                TransactionError::Error,
            ),
            old(self).string(index) matches Some(s) ==> r is Ok && r->Ok_0@ == s,
    {
        self.count_request();
        let n = self.strings.len();
        let mut j = n;
        proof {
            assert(string_table(self.strings@).take(n as int) =~= string_table(self.strings@));
        }
        while j > 0
            invariant
                n == self.strings@.len(),
                j <= n,
                find_string(string_table(self.strings@), index) == find_string(
                    string_table(self.strings@).take(j as int),
                    index,
                ),
                self.strings == old(self).strings,
                self.descriptors == old(self).descriptors,
                self.events == old(self).events,
            decreases j,
        {
            j = j - 1;
            proof {
                assert(string_table(self.strings@).take(j + 1).drop_last() =~= string_table(
                    self.strings@,
                ).take(j as int));
            }
            if self.strings[j].0 == index {
                return Ok(self.strings[j].1.clone());
            }
        }
        Err(TransactionError::Error)
    }
}

impl EP0 for FakeEP0 {
    closed spec fn events(&self) -> Seq<Ep0Event> {
        self.events@
    }

    closed spec fn source(&self) -> Ep0Source {
        Ep0Source {
            descriptors: descriptor_table(self.descriptors@),
            strings: string_table(self.strings@),
        }
    }

    /// Copies the start of the stored descriptor; an unknown descriptor fails with `Error`.
    fn get_descriptor(&mut self, descriptor_type: u8, index: u8, buf: &mut [u8]) -> (r:
        TransactionResult<()>)
        ensures
            old(self).descriptor(descriptor_type, index) is None ==> r == Err::<(), TransactionError>(
                TransactionError::Error,
            ),
            old(self).descriptor(descriptor_type, index) matches Some(d) ==> r is Ok && final(buf)@
                =~= if d.len() >= old(buf)@.len() {
                d.take(old(buf)@.len() as int)
            } else {
                d + old(buf)@.skip(d.len() as int)
            },
            forall|c: u8, i: u8| #[trigger] final(self).descriptor(c, i) == old(self).descriptor(c, i),
            forall|i: u8| #[trigger] final(self).string(i) == old(self).string(i),
    {
        proof {
            use_type_invariant(&*self);
        }
        let ghost length = buf@.len();
        let r = self.lookup_descriptor(descriptor_type, index, buf);
        proof {
            use_type_invariant(&*self);
            let e = Ep0Event::Descriptor { descriptor_type, index, length, result: r, data: buf@ };
            match self.descriptor(descriptor_type, index) {
                Some(b) => {
                    if b.len() < length {
                        assert(buf@.take(b.len() as int) =~= b);
                    }
                },
                None => {},
            }
            lemma_agrees_push(*self, FakeEP0 { events: Ghost(self.events@.push(e)), ..*self }, e);
        }
        self.events = Ghost(
            self.events@.push(
                Ep0Event::Descriptor { descriptor_type, index, length, result: r, data: buf@ },
            ),
        );
        r
    }

    /// The stored string; an unknown string fails with `Error`.
    fn get_string(&mut self, index: u8) -> (r: TransactionResult<String>)
        ensures
            old(self).string(index) is None ==> r == Err::<String, TransactionError>(
                TransactionError::Error,
            ),
            old(self).string(index) matches Some(s) ==> r is Ok && r->Ok_0@ == s,
            forall|c: u8, i: u8| #[trigger] final(self).descriptor(c, i) == old(self).descriptor(c, i),
            forall|i: u8| #[trigger] final(self).string(i) == old(self).string(i),
    {
        let r = self.lookup_string(index);
        proof {
            use_type_invariant(&*self);
            let e = Ep0Event::Text { index, text: text_result(r) };
            lemma_agrees_push(*self, FakeEP0 { events: Ghost(self.events@.push(e)), ..*self }, e);
        }
        self.events = Ghost(self.events@.push(Ep0Event::Text { index, text: text_result(r) }));
        r
    }
}

impl PhysicalEP0 for FakeEP0 {
    fn set_max_packet_size(&mut self, mps: u8) {
        proof {
            use_type_invariant(&*self);
            let e = Ep0Event::MaxPacketSize { mps };
            lemma_agrees_push(*self, FakeEP0 { events: Ghost(self.events@.push(e)), ..*self }, e);
        }
        self.events = Ghost(self.events@.push(Ep0Event::MaxPacketSize { mps }));
    }

    fn set_address(&mut self, new_address: u8) -> (r: TransactionResult<()>)
        ensures
            r is Ok,
    {
        let r = Ok(());
        proof {
            use_type_invariant(&*self);
            let e = Ep0Event::Address { address: new_address, result: r };
            lemma_agrees_push(*self, FakeEP0 { events: Ghost(self.events@.push(e)), ..*self }, e);
        }
        self.events = Ghost(self.events@.push(Ep0Event::Address { address: new_address, result: r }));
        r
    }
}

} // verus!
