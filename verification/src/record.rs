//! Resource records and the data they carry.

use vstd::prelude::*;
use vstd::std_specs::convert::FromSpecImpl;
use crate::codes::{Class, ResourceRecordType};
use crate::domain::{
    domain_encodable, domain_wire, lemma_domain_round_trip, lemma_parsed_domain_encodable,
    parse_domain, Domain,
};
use crate::streams::{
    done, fail, lemma_bytes_round_trip, lemma_regroup_five, lemma_regroup_two,
    lemma_u16_round_trip, lemma_u32_round_trip, parse_bytes, parse_u16, parse_u32, u16_wire,
    u32_wire, yields, DecodeError, IStream, OStream, Parse,
};

verus! {

/// An IPv4 address: its four octets in network order.
#[derive(Clone, Copy, Debug, PartialEq, Eq, Structural)]
pub struct IPV4(pub u8, pub u8, pub u8, pub u8);

/// The octets of an address: its four octets in order.
pub open spec fn ipv4_wire(ip: IPV4) -> Seq<u8> {
    seq![ip.0, ip.1, ip.2, ip.3]
}

/// Reading an address: four octets.
pub open spec fn parse_ipv4(s: Seq<u8>) -> Parse<IPV4> {
    if s.len() < 4 {
        fail(DecodeError::EndOfStream, Seq::empty())
    } else {
        done(IPV4(s[0], s[1], s[2], s[3]), s.skip(4))
    }
}

/// An address is read back from its octets, whatever follows them.
pub proof fn lemma_ipv4_round_trip(ip: IPV4, tail: Seq<u8>)
    ensures
        parse_ipv4(ipv4_wire(ip) + tail) == done(ip, tail),
{
    assert((ipv4_wire(ip) + tail).skip(4) =~= tail);
}

impl IPV4 {
    /// Reads the four octets of an address.
    pub fn read_from_stream<S: IStream + ?Sized>(stream: &mut S) -> (r: Result<Self, DecodeError>)
        ensures
            r == parse_ipv4(old(stream).pending()).outcome,
            final(stream).pending() == parse_ipv4(old(stream).pending()).rest,
    {
        let first = stream.read_u8()?;
        let second = stream.read_u8()?;
        let third = stream.read_u8()?;
        let fourth = stream.read_u8()?;
        Ok(IPV4(first, second, third, fourth))
    }

    /// Writes the four octets of the address.
    pub fn write_to_stream<S: OStream + ?Sized>(&self, stream: &mut S)
        ensures
            final(stream).written() == old(stream).written() + ipv4_wire(*self),
    {
        stream.write_u8(self.0);
        stream.write_u8(self.1);
        stream.write_u8(self.2);
        stream.write_u8(self.3);
    }
}

/// What a resource record carries.
#[derive(Debug, PartialEq, Eq)]
pub enum ResourceRecordData {
    /// A host address.
    A(IPV4),
    /// The opaque octets of an OPT pseudo-record.
    Options(Vec<u8>),
}

/// The mathematical value of a [`ResourceRecordData`].
pub enum RecordDataView {
    A(IPV4),
    Options(Seq<u8>),
}

impl View for ResourceRecordData {
    type V = RecordDataView;

    open spec fn view(&self) -> RecordDataView {
        match self {
            ResourceRecordData::A(ip) => RecordDataView::A(*ip),
            ResourceRecordData::Options(options) => RecordDataView::Options(options@),
        }
    }
}

impl ResourceRecordData {
    /// Reads record data of type `typ`: the length field, then the data.
    pub fn read_from_stream<S: IStream + ?Sized>(
        stream: &mut S,
        typ: &ResourceRecordType,
    ) -> (r: Result<Self, DecodeError>)
        ensures
            yields(r, parse_data(old(stream).pending(), *typ).outcome),
            final(stream).pending() == parse_data(old(stream).pending(), *typ).rest,
    {
        let size = stream.read_u16()?;
        match typ {
            ResourceRecordType::A => {
                let ip = IPV4::read_from_stream(stream)?;
                Ok(ResourceRecordData::A(ip))
            },
            ResourceRecordType::Options => {
                let options = stream.read_bytes(size as usize)?;
                Ok(ResourceRecordData::Options(options))
            },
        }
    }

    /// Writes the length field and the data.
    pub fn write_to_stream<S: OStream + ?Sized>(&self, stream: &mut S)
        ensures
            final(stream).written() == old(stream).written() + data_wire(self@),
    {
        stream.write_u16((self.len() % 65536) as u16);
        match self {
            ResourceRecordData::A(ip) => ip.write_to_stream(stream),
            ResourceRecordData::Options(options) => stream.write_bytes(options.clone()),
        }
    }

    /// How many octets the data takes on the wire, behind its length field.
    pub fn len(&self) -> (n: usize)
        ensures
            n == data_len(self@),
    {
        match self {
            ResourceRecordData::A(_) => 4,
            ResourceRecordData::Options(options) => options.len(),
        }
    }

    /// The record type that the data belongs to.
    pub fn record_type(&self) -> (t: ResourceRecordType)
        ensures
            t == data_type(self@),
    {
        match self {
            ResourceRecordData::A(_) => ResourceRecordType::A,
            ResourceRecordData::Options(_) => ResourceRecordType::Options,
        }
    }
}

impl From<ResourceRecordData> for ResourceRecordType {
    /// The record type that the data belongs to.
    fn from(data: ResourceRecordData) -> (r: ResourceRecordType) {
        data.record_type()
    }
}

impl FromSpecImpl<ResourceRecordData> for ResourceRecordType {
    open spec fn obeys_from_spec() -> bool {
        true
    }

    open spec fn from_spec(data: ResourceRecordData) -> ResourceRecordType {
        data_type(data@)
    }
}

impl Clone for ResourceRecordData {
    fn clone(&self) -> (r: Self)
        ensures
            r@ == self@,
    {
        match self {
            ResourceRecordData::A(ip) => ResourceRecordData::A(*ip),
            ResourceRecordData::Options(options) => ResourceRecordData::Options(options.clone()),
        }
    }
}

/// The record type that the data belongs to.
pub open spec fn data_type(data: RecordDataView) -> ResourceRecordType {
    match data {
        RecordDataView::A(_) => ResourceRecordType::A,
        RecordDataView::Options(_) => ResourceRecordType::Options,
    }
}

/// How many octets the data takes on the wire, behind its length field.
pub open spec fn data_len(data: RecordDataView) -> nat {
    match data {
        RecordDataView::A(_) => 4,
        RecordDataView::Options(options) => options.len(),
    }
}

/// The octets of the data itself, without the length field.
pub open spec fn data_body(data: RecordDataView) -> Seq<u8> {
    match data {
        RecordDataView::A(ip) => ipv4_wire(ip),
        RecordDataView::Options(options) => options,
    }
}

/// The octets of record data: a 16-bit length field, then the data.
///
/// The length field holds the length modulo 65536, which is the length
/// itself for all data that [`data_encodable`] admits.
pub open spec fn data_wire(data: RecordDataView) -> Seq<u8> {
    u16_wire((data_len(data) % 65536) as u16) + data_body(data)
}

/// Whether the length of the data fits its 16-bit length field.
pub open spec fn data_encodable(data: RecordDataView) -> bool {
    data_len(data) <= 65535
}

/// Reading record data of the given type: the length field, then an
/// address, whatever the length field says, or as many opaque octets as it
/// says.
pub open spec fn parse_data(s: Seq<u8>, typ: ResourceRecordType) -> Parse<RecordDataView> {
    match parse_u16(s).outcome {
        Err(error) => fail(error, parse_u16(s).rest),
        Ok(size) => match typ {
            ResourceRecordType::A => {
                let address = parse_ipv4(parse_u16(s).rest);
                match address.outcome {
                    Err(error) => fail(error, address.rest),
                    Ok(ip) => done(RecordDataView::A(ip), address.rest),
                }
            },
            ResourceRecordType::Options => {
                let block = parse_bytes(parse_u16(s).rest, size as nat);
                match block.outcome {
                    Err(error) => fail(error, block.rest),
                    Ok(options) => done(RecordDataView::Options(options), block.rest),
                }
            },
        },
    }
}

/// Data whose length fits the length field is read back from its octets
/// under its own type, whatever follows them.
pub proof fn lemma_data_round_trip(data: RecordDataView, tail: Seq<u8>)
    requires
        data_encodable(data),
    ensures
        parse_data(data_wire(data) + tail, data_type(data)) == done(data, tail),
{
    let size = (data_len(data) % 65536) as u16;
    let s = data_wire(data) + tail;
    lemma_regroup_two(u16_wire(size), data_body(data), tail);
    lemma_u16_round_trip(size, data_body(data) + tail);
    match data {
        RecordDataView::A(ip) => {
            lemma_ipv4_round_trip(ip, tail);
        },
        RecordDataView::Options(options) => {
            lemma_bytes_round_trip(options, tail);
        },
    }
}

/// The values of a sequence of record data, item by item.
pub open spec fn data_views(items: Seq<ResourceRecordData>) -> Seq<RecordDataView> {
    Seq::new(items.len(), |i: int| items[i]@)
}

/// A copy of `items` with the same values in the same order.
pub fn clone_data(items: &Vec<ResourceRecordData>) -> (r: Vec<ResourceRecordData>)
    ensures
        data_views(r@) == data_views(items@),
{
    let mut out: Vec<ResourceRecordData> = Vec::new();
    let mut i: usize = 0;
    while i < items.len()
        invariant
            i <= items.len(),
            out.len() == i,
            forall|j: int| 0 <= j < i ==> out[j]@ == items[j]@,
        decreases items.len() - i,
    {
        out.push(items[i].clone());
        i += 1;
    }
    out
}

/// A resource record: one answer entry. Its type is that of its data and
/// is not stored beside it.
#[derive(Debug, PartialEq, Eq)]
pub struct ResourceRecord {
    pub name: Domain,
    pub class: Class,
    pub time_to_live: u32,
    pub data: ResourceRecordData,
}

/// The mathematical value of a [`ResourceRecord`].
pub struct RecordView {
    pub name: Seq<Seq<char>>,
    pub class: Class,
    pub time_to_live: u32,
    pub data: RecordDataView,
}

impl View for ResourceRecord {
    type V = RecordView;

    open spec fn view(&self) -> RecordView {
        RecordView {
            name: self.name@,
            class: self.class,
            time_to_live: self.time_to_live,
            data: self.data@,
        }
    }
}

/// The octets of a record: name, type, class, time to live, data.
pub open spec fn record_wire(record: RecordView) -> Seq<u8> {
    domain_wire(record.name) + u16_wire(data_type(record.data).wire_code()) + u16_wire(
        record.class.wire_code(),
    ) + u32_wire(record.time_to_live) + data_wire(record.data)
}

/// Whether a record can be told from its octets: its name and its data
/// can, and its class is the one that its code stands for.
pub open spec fn record_encodable(record: RecordView) -> bool {
    domain_encodable(record.name) && record.class.canonical() && data_encodable(record.data)
}

/// Reading a record: name, type, class, time to live, then the data under
/// that type. A type code that is not known fails the read once it has
/// been read.
pub open spec fn parse_record(s: Seq<u8>) -> Parse<RecordView> {
    let name = parse_domain(s);
    match name.outcome {
        Err(error) => fail(error, name.rest),
        Ok(labels) => {
            let code = parse_u16(name.rest);
            match code.outcome {
                Err(error) => fail(error, code.rest),
                Ok(type_code) => match ResourceRecordType::of_code(type_code) {
                    None => fail(DecodeError::UnknownRecordType(type_code), code.rest),
                    Some(typ) => {
                        let class = parse_u16(code.rest);
                        match class.outcome {
                            Err(error) => fail(error, class.rest),
                            Ok(class_code) => {
                                let ttl = parse_u32(class.rest);
                                match ttl.outcome {
                                    Err(error) => fail(error, ttl.rest),
                                    Ok(time_to_live) => {
                                        let data = parse_data(ttl.rest, typ);
                                        match data.outcome {
                                            Err(error) => fail(error, data.rest),
                                            Ok(value) => done(
                                                RecordView {
                                                    name: labels,
                                                    class: Class::of_code(class_code),
                                                    time_to_live,
                                                    data: value,
                                                },
                                                data.rest,
                                            ),
                                        }
                                    },
                                }
                            },
                        }
                    },
                },
            }
        },
    }
}

/// A record that [`record_encodable`] admits is read back from its octets,
/// whatever follows them.
pub proof fn lemma_record_round_trip(record: RecordView, tail: Seq<u8>)
    requires
        record_encodable(record),
    ensures
        parse_record(record_wire(record) + tail) == done(record, tail),
{
    let typ = data_type(record.data);
    let after_ttl = data_wire(record.data) + tail;
    let after_class = u32_wire(record.time_to_live) + after_ttl;
    let after_type = u16_wire(record.class.wire_code()) + after_class;
    let after_name = u16_wire(typ.wire_code()) + after_type;
    lemma_regroup_five(
        domain_wire(record.name),
        u16_wire(typ.wire_code()),
        u16_wire(record.class.wire_code()),
        u32_wire(record.time_to_live),
        data_wire(record.data),
        tail,
    );
    let s = domain_wire(record.name) + after_name;
    assert(parse_domain(s) == done(record.name, after_name)) by {
        lemma_domain_round_trip(record.name, after_name);
    }
    assert(parse_u16(after_name) == done(typ.wire_code(), after_type)) by {
        lemma_u16_round_trip(typ.wire_code(), after_type);
    }
    assert(ResourceRecordType::of_code(typ.wire_code()) == Some(typ)) by {
        typ.lemma_code_round_trip(typ.wire_code());
    }
    assert(parse_u16(after_type) == done(record.class.wire_code(), after_class)) by {
        lemma_u16_round_trip(record.class.wire_code(), after_class);
    }
    assert(parse_u32(after_class) == done(record.time_to_live, after_ttl)) by {
        lemma_u32_round_trip(record.time_to_live, after_ttl);
    }
    assert(parse_data(after_ttl, typ) == done(record.data, tail)) by {
        lemma_data_round_trip(record.data, tail);
    }
}

/// A record that was read can be told from its octets.
pub proof fn lemma_parsed_record_encodable(s: Seq<u8>)
    ensures
        parse_record(s).outcome matches Ok(record) ==> record_encodable(record),
{
    lemma_parsed_domain_encodable(s);
    if let Ok(record) = parse_record(s).outcome {
        let after_type = parse_u16(parse_domain(s).rest).rest;
        let class_code = parse_u16(after_type).outcome->Ok_0;
        Class::lemma_code_round_trip(class_code);
    }
}

impl ResourceRecord {
    /// A record with the given fields.
    pub fn new(name: Domain, class: Class, time_to_live: u32, data: ResourceRecordData) -> (r:
        Self)
        ensures
            r == (ResourceRecord { name, class, time_to_live, data }),
    {
        ResourceRecord { name, class, time_to_live, data }
    }

    /// Reads a record: name, type, class, time to live, data.
    pub fn read_from_stream<S: IStream + ?Sized>(stream: &mut S) -> (r: Result<Self, DecodeError>)
        ensures
            yields(r, parse_record(old(stream).pending()).outcome),
            final(stream).pending() == parse_record(old(stream).pending()).rest,
    {
        let name = Domain::read_from_stream(stream)?;
        let type_code = stream.read_u16()?;
        let typ = match ResourceRecordType::from_code(type_code) {
            Some(typ) => typ,
            None => {
                return Err(DecodeError::UnknownRecordType(type_code));
            },
        };
        let class = Class::from_code(stream.read_u16()?);
        let time_to_live = stream.read_u32()?;
        let data = ResourceRecordData::read_from_stream(stream, &typ)?;
        Ok(ResourceRecord { name, class, time_to_live, data })
    }

    /// Writes a record: name, type of the data, class, time to live, data.
    pub fn write_to_stream<S: OStream + ?Sized>(&self, stream: &mut S)
        ensures
            final(stream).written() == old(stream).written() + record_wire(self@),
    {
        self.name.write_to_stream(stream);
        stream.write_u16(self.data.record_type().code());
        stream.write_u16(self.class.code());
        stream.write_u32(self.time_to_live);
        self.data.write_to_stream(stream);
    }
}

impl Clone for ResourceRecord {
    fn clone(&self) -> (r: Self)
        ensures
            r@ == self@,
    {
        ResourceRecord {
            name: self.name.clone(),
            class: self.class,
            time_to_live: self.time_to_live,
            data: self.data.clone(),
        }
    }
}

/// The values of a sequence of records, item by item.
pub open spec fn record_views(items: Seq<ResourceRecord>) -> Seq<RecordView> {
    Seq::new(items.len(), |i: int| items[i]@)
}

} // verus!
