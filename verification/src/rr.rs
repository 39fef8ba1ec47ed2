//! Base types for dealing with resource records.

use crate::bytes::{i32_bytes, u16_bytes, u32_bytes};
use crate::errors::WriteError;
use crate::names::Name;
use vstd::prelude::*;
use vstd::utf8::encode_utf8;

pub mod parser;
pub mod writer;

verus! {

/// A `Type` field indicates the structure and content of a resource record.
#[derive(Debug, PartialEq, Eq, Clone, Copy)]
pub enum Type {
    /// The `A` resource type, holding an IPv4 host address resource record.
    A,
    /// The `AAAA` resource type, holding an IPv6 host address resource record.
    AAAA,
    /// The `CNAME` resource type, holding the canonical name for an alias.
    CNAME,
    /// The `PTR` resource type, pointing to a canonical name.
    PTR,
    /// The `SOA` resource type, marks the start of a zone of authority.
    SOA,
    /// The `OPT` pseudo-RR type, adding EDNS(0) information to a message.
    OPT,
    /// The `MX` resource type, holding mail exchange information.
    MX,
    /// The `NS` resource type, holding an authoritative name server.
    NS,
    /// The `TXT` resource type, holding text strings.
    TXT,
    /// Indicates that the type is not known to this parser.
    Unknown {
        /// The value of the unknown type.
        value: u16,
    },
}

/// Enum for valid `class` values from DNS resource records.
#[derive(Debug, PartialEq, Eq, Clone, Copy)]
pub enum Class {
    /// The "Internet" class.
    Internet,
    /// The "CHAOS" class.
    Chaos,
    /// The "Hesoid" class.
    Hesoid,
    /// An unknown class value.
    Unknown {
        /// The value of the unknown class.
        value: u16,
    },
}

/// The type that a 16-bit code stands for.
pub open spec fn spec_type_from(value: u16) -> Type {
    if value == 1 {
        Type::A
    } else if value == 2 {
        Type::NS
    } else if value == 5 {
        Type::CNAME
    } else if value == 6 {
        Type::SOA
    } else if value == 12 {
        Type::PTR
    } else if value == 15 {
        Type::MX
    } else if value == 16 {
        Type::TXT
    } else if value == 28 {
        Type::AAAA
    } else if value == 41 {
        Type::OPT
    } else {
        Type::Unknown { value }
    }
}

/// The 16-bit code of a type.
pub open spec fn spec_type_code(t: Type) -> u16 {
    match t {
        Type::A => 1,
        Type::NS => 2,
        Type::CNAME => 5,
        Type::SOA => 6,
        Type::PTR => 12,
        Type::MX => 15,
        Type::TXT => 16,
        Type::AAAA => 28,
        Type::OPT => 41,
        Type::Unknown { value } => value,
    }
}

/// The class that a 16-bit code stands for.
pub open spec fn spec_class_from(value: u16) -> Class {
    if value == 1 {
        Class::Internet
    } else if value == 3 {
        Class::Chaos
    } else if value == 4 {
        Class::Hesoid
    } else {
        Class::Unknown { value }
    }
}

/// The 16-bit code of a class.
pub open spec fn spec_class_code(c: Class) -> u16 {
    match c {
        Class::Internet => 1,
        Class::Chaos => 3,
        Class::Hesoid => 4,
        Class::Unknown { value } => value,
    }
}

impl Type {
    /// `Unknown` holds no code that has a variant of its own, so the type is
    /// the one that its code stands for.
    pub open spec fn wf(self) -> bool {
        spec_type_from(spec_type_code(self)) == self
    }
}

impl Class {
    /// `Unknown` holds no code that has a variant of its own, so the class is
    /// the one that its code stands for.
    pub open spec fn wf(self) -> bool {
        spec_class_from(spec_class_code(self)) == self
    }
}

/// The type that a 16-bit code stands for.
pub fn type_from(value: u16) -> (t: Type)
    ensures
        t == spec_type_from(value),
        t.wf(),
        spec_type_code(t) == value,
{
    match value {
        1u16 => Type::A,
        2u16 => Type::NS,
        5u16 => Type::CNAME,
        6u16 => Type::SOA,
        12u16 => Type::PTR,
        15u16 => Type::MX,
        16u16 => Type::TXT,
        28u16 => Type::AAAA,
        41u16 => Type::OPT,
        _ => Type::Unknown { value },
    }
}

/// The 16-bit code of a type.
pub fn type_code(t: Type) -> (value: u16)
    ensures
        value == spec_type_code(t),
{
    match t {
        Type::A => 1u16,
        Type::NS => 2u16,
        Type::CNAME => 5u16,
        Type::SOA => 6u16,
        Type::PTR => 12u16,
        Type::MX => 15u16,
        Type::TXT => 16u16,
        Type::AAAA => 28u16,
        Type::OPT => 41u16,
        Type::Unknown { value } => value,
    }
}

/// The class that a 16-bit code stands for.
pub fn class_from(value: u16) -> (c: Class)
    ensures
        c == spec_class_from(value),
        c.wf(),
        spec_class_code(c) == value,
{
    match value {
        1u16 => Class::Internet,
        3u16 => Class::Chaos,
        4u16 => Class::Hesoid,
        _ => Class::Unknown { value },
    }
}

/// The 16-bit code of a class.
pub fn class_code(c: Class) -> (value: u16)
    ensures
        value == spec_class_code(c),
{
    match c {
        Class::Internet => 1u16,
        Class::Chaos => 3u16,
        Class::Hesoid => 4u16,
        Class::Unknown { value } => value,
    }
}

/// A resource record associates a `Name` within a `Class` with `Type` dependent data.
#[allow(inconsistent_fields)]
#[derive(Debug, PartialEq, Eq, Clone)]
pub enum ResourceRecord {
    /// An IPv4 host address resource record.
    A {
        /// The `Name` this record applies to.
        name: Name,
        /// The `Class` this record applies to.
        class: Class,
        /// The "time to live" for this data, in seconds.
        ttl: i32,
        /// The four octets of the IPv4 host address.
        addr: [u8; 4],
    },
    /// An IPv6 host address resource record.
    AAAA {
        /// The `Name` this record applies to.
        name: Name,
        /// The `Class` this record applies to.
        class: Class,
        /// The "time to live" for this data, in seconds.
        ttl: i32,
        /// The sixteen octets of the IPv6 host address.
        addr: [u8; 16],
    },
    /// The canonical name for an alias.
    CNAME {
        /// The `Name` this record applies to.
        name: Name,
        /// The `Class` this record applies to.
        class: Class,
        /// The "time to live" for this data, in seconds.
        ttl: i32,
        /// The canonical name for the alias referred to in `name`.
        cname: Name,
    },
    /// The start of a zone of authority.
    SOA {
        /// The `Name` this record applies to.
        name: Name,
        /// The `Class` this record applies to.
        class: Class,
        /// The "time to live" for this data, in seconds.
        ttl: i32,
        /// The name server that is the primary source of data for this zone.
        mname: Name,
        /// The mailbox of the person responsible for this zone.
        rname: Name,
        /// The unsigned 32 bit version number of the zone's data.
        serial: u32,
        /// A 32 bit time interval before the zone should be refreshed.
        refresh: u32,
        /// A 32 bit time interval that should elapse before a failed refresh
        /// should be retried.
        retry: u32,
        /// A 32 bit time value that specifies the upper limit on the time
        /// interval that can elapse before the zone is no longer authoritative.
        expire: u32,
        /// The unsigned 32 bit minimum TTL field that should be exported with
        /// any RR from this zone.
        minimum: u32,
    },
    /// Pointer to a canonical name.
    PTR {
        /// The `Name` this record applies to.
        name: Name,
        /// The `Class` this record applies to.
        class: Class,
        /// The "time to live" for this data, in seconds.
        ttl: i32,
        /// The canonical name pointed to in `name`.
        ptrname: Name,
    },
    /// Mail Exchange information.
    MX {
        /// The `Name` this record applies to.
        name: Name,
        /// The `Class` this record applies to.
        class: Class,
        /// The "time to live" for this data, in seconds.
        ttl: i32,
        /// The preference given to this RR - lower values are preferred.
        preference: u16,
        /// A host willing to act as a mail exchange for the owner name.
        exchange: Name,
    },
    /// An authoritative name server.
    NS {
        /// The `Name` this record applies to.
        name: Name,
        /// The `Class` this record applies to.
        class: Class,
        /// The "time to live" for this data, in seconds.
        ttl: i32,
        /// A host which should be authoritative for the specified class and
        /// domain.
        ns_name: Name,
    },
    /// A pseudo-record containing additional EDNS(0) information.
    OPT {
        /// The requestor's UDP payload size.
        payload_size: u16,
        /// An extended response code.
        extended_rcode: u8,
        /// The specification version supported.
        version: u8,
        /// The `DNSSEC OK` bit.
        dnssec_ok: bool,
        /// Additional data in the form of attribute, value pairs.
        data: Vec<u8>,
    },
    /// Text string record information.
    TXT {
        /// The `Name` this record applies to.
        name: Name,
        /// The `Class` this record applies to.
        class: Class,
        /// The "time to live" for this data, in seconds.
        ttl: i32,
        /// One or more character strings.
        data: Vec<String>,
    },
    /// A yet-unknown type of resource record.
    Unknown {
        /// The `Name` this record applies to.
        name: Name,
        /// The type code for this unknown data.
        rtype: Type,
        /// The `Class` this record applies to.
        class: Class,
        /// The "time to live" for this data, in seconds.
        ttl: i32,
        /// The data contained by the unknown record type.
        data: Vec<u8>,
    },
}

/// What a resource record says: names as their labels, data as bytes, texts
/// as characters.
#[allow(inconsistent_fields)]
pub enum RecordView {
    A { name: Seq<Seq<u8>>, class: Class, ttl: i32, addr: Seq<u8> },
    AAAA { name: Seq<Seq<u8>>, class: Class, ttl: i32, addr: Seq<u8> },
    CNAME { name: Seq<Seq<u8>>, class: Class, ttl: i32, cname: Seq<Seq<u8>> },
    SOA {
        name: Seq<Seq<u8>>,
        class: Class,
        ttl: i32,
        mname: Seq<Seq<u8>>,
        rname: Seq<Seq<u8>>,
        serial: u32,
        refresh: u32,
        retry: u32,
        expire: u32,
        minimum: u32,
    },
    PTR { name: Seq<Seq<u8>>, class: Class, ttl: i32, ptrname: Seq<Seq<u8>> },
    MX { name: Seq<Seq<u8>>, class: Class, ttl: i32, preference: u16, exchange: Seq<Seq<u8>> },
    NS { name: Seq<Seq<u8>>, class: Class, ttl: i32, ns_name: Seq<Seq<u8>> },
    OPT { payload_size: u16, extended_rcode: u8, version: u8, dnssec_ok: bool, data: Seq<u8> },
    TXT { name: Seq<Seq<u8>>, class: Class, ttl: i32, data: Seq<Seq<char>> },
    Unknown { name: Seq<Seq<u8>>, rtype: Type, class: Class, ttl: i32, data: Seq<u8> },
}

/// Largest value of a 16-bit length or count field.
pub const MAX_U16: usize = 0xffff;

/// Longest character string of a TXT record, in bytes.
pub const MAX_STRING_LENGTH: usize = 255;

/// The texts of a list of strings.
pub open spec fn texts(strings: Seq<String>) -> Seq<Seq<char>> {
    strings.map_values(|s: String| s@)
}

/// The character strings of a TXT record on the wire: each string's bytes
/// behind a length byte.
pub open spec fn txt_wire(strings: Seq<Seq<char>>) -> Seq<u8>
    decreases strings.len(),
{
    if strings.len() == 0 {
        Seq::empty()
    } else {
        seq![encode_utf8(strings[0]).len() as u8] + encode_utf8(strings[0]) + txt_wire(
            strings.drop_first(),
        )
    }
}

/// Each string has at most 255 bytes.
pub open spec fn strings_fit(strings: Seq<Seq<char>>) -> bool {
    forall|i: int|
        0 <= i < strings.len() ==> encode_utf8(#[trigger] strings[i]).len() <= MAX_STRING_LENGTH
}

/// What stands before the data of a record: the owner's name, the type, the
/// class and the time to live.
pub open spec fn record_head(name: Seq<u8>, rtype: Type, class: Class, ttl: i32) -> Seq<u8> {
    name + u16_bytes(spec_type_code(rtype)) + u16_bytes(spec_class_code(class)) + i32_bytes(ttl)
}

/// Data behind its 16-bit length.
pub open spec fn framed(body: Seq<u8>) -> Seq<u8> {
    u16_bytes(body.len() as u16) + body
}

/// The flags of an OPT record: bit 15 is the `DNSSEC OK` bit.
pub open spec fn opt_flags(dnssec_ok: bool) -> u16 {
    if dnssec_ok {
        0x8000
    } else {
        0
    }
}

impl View for ResourceRecord {
    type V = RecordView;

    open spec fn view(&self) -> RecordView {
        match *self {
            ResourceRecord::A { name, class, ttl, addr } => RecordView::A {
                name: name@,
                class,
                ttl,
                addr: addr@,
            },
            ResourceRecord::AAAA { name, class, ttl, addr } => RecordView::AAAA {
                name: name@,
                class,
                ttl,
                addr: addr@,
            },
            ResourceRecord::CNAME { name, class, ttl, cname } => RecordView::CNAME {
                name: name@,
                class,
                ttl,
                cname: cname@,
            },
            ResourceRecord::SOA {
                name,
                class,
                ttl,
                mname,
                rname,
                serial,
                refresh,
                retry,
                expire,
                minimum,
            } => RecordView::SOA {
                name: name@,
                class,
                ttl,
                mname: mname@,
                rname: rname@,
                serial,
                refresh,
                retry,
                expire,
                minimum,
            },
            ResourceRecord::PTR { name, class, ttl, ptrname } => RecordView::PTR {
                name: name@,
                class,
                ttl,
                ptrname: ptrname@,
            },
            ResourceRecord::MX { name, class, ttl, preference, exchange } => RecordView::MX {
                name: name@,
                class,
                ttl,
                preference,
                exchange: exchange@,
            },
            ResourceRecord::NS { name, class, ttl, ns_name } => RecordView::NS {
                name: name@,
                class,
                ttl,
                ns_name: ns_name@,
            },
            ResourceRecord::OPT {
                payload_size,
                extended_rcode,
                version,
                dnssec_ok,
                data,
            } => RecordView::OPT { payload_size, extended_rcode, version, dnssec_ok, data: data@ },
            ResourceRecord::TXT { name, class, ttl, data } => RecordView::TXT {
                name: name@,
                class,
                ttl,
                data: texts(data@),
            },
            ResourceRecord::Unknown { name, rtype, class, ttl, data } => RecordView::Unknown {
                name: name@,
                rtype,
                class,
                ttl,
                data: data@,
            },
        }
    }
}

impl ResourceRecord {
    /// The data of the record as it stands on the wire behind the length.
    /// Names are spelled out: no compression pointer is ever produced.
    pub open spec fn rdata(&self) -> Seq<u8> {
        match *self {
            ResourceRecord::A { addr, .. } => addr@,
            ResourceRecord::AAAA { addr, .. } => addr@,
            ResourceRecord::CNAME { cname, .. } => cname.name@,
            ResourceRecord::SOA { mname, rname, serial, refresh, retry, expire, minimum, .. } => {
                mname.name@ + rname.name@ + u32_bytes(serial) + u32_bytes(refresh) + u32_bytes(
                    retry,
                ) + u32_bytes(expire) + u32_bytes(minimum)
            },
            ResourceRecord::PTR { ptrname, .. } => ptrname.name@,
            ResourceRecord::MX { preference, exchange, .. } => u16_bytes(preference)
                + exchange.name@,
            ResourceRecord::NS { ns_name, .. } => ns_name.name@,
            ResourceRecord::OPT { data, .. } => data@,
            ResourceRecord::TXT { data, .. } => txt_wire(texts(data@)),
            ResourceRecord::Unknown { data, .. } => data@,
        }
    }

    /// What stands before the length of the data. An OPT record has the root
    /// name there, and its payload size, extended response code, version and
    /// flags in the place of class and time to live.
    pub open spec fn head(&self) -> Seq<u8> {
        match *self {
            ResourceRecord::A { name, class, ttl, .. } => record_head(
                name.name@,
                Type::A,
                class,
                ttl,
            ),
            ResourceRecord::AAAA { name, class, ttl, .. } => record_head(
                name.name@,
                Type::AAAA,
                class,
                ttl,
            ),
            ResourceRecord::CNAME { name, class, ttl, .. } => record_head(
                name.name@,
                Type::CNAME,
                class,
                ttl,
            ),
            ResourceRecord::SOA { name, class, ttl, .. } => record_head(
                name.name@,
                Type::SOA,
                class,
                ttl,
            ),
            ResourceRecord::PTR { name, class, ttl, .. } => record_head(
                name.name@,
                Type::PTR,
                class,
                ttl,
            ),
            ResourceRecord::MX { name, class, ttl, .. } => record_head(
                name.name@,
                Type::MX,
                class,
                ttl,
            ),
            ResourceRecord::NS { name, class, ttl, .. } => record_head(
                name.name@,
                Type::NS,
                class,
                ttl,
            ),
            ResourceRecord::OPT { payload_size, extended_rcode, version, dnssec_ok, .. } => {
                seq![0u8] + u16_bytes(spec_type_code(Type::OPT)) + u16_bytes(payload_size)
                    + seq![extended_rcode, version] + u16_bytes(opt_flags(dnssec_ok))
            },
            ResourceRecord::TXT { name, class, ttl, .. } => record_head(
                name.name@,
                Type::TXT,
                class,
                ttl,
            ),
            ResourceRecord::Unknown { name, rtype, class, ttl, .. } => record_head(
                name.name@,
                rtype,
                class,
                ttl,
            ),
        }
    }

    /// The record on the wire.
    pub open spec fn wire(&self) -> Seq<u8> {
        self.head() + framed(self.rdata())
    }

    /// Why the record cannot be written: a string of a TXT record does not
    /// fit its length byte, or the data does not fit the 16-bit length; or
    /// nothing.
    pub open spec fn write_error(&self) -> Option<WriteError> {
        if self matches ResourceRecord::TXT { data, .. } && !strings_fit(texts(data@)) {
            Some(WriteError::StringTooLong)
        } else if self.rdata().len() > MAX_U16 {
            Some(WriteError::DataTooLong)
        } else {
            None
        }
    }

    /// The record can be written.
    pub open spec fn fits(&self) -> bool {
        self.write_error() is None
    }

    /// The names, the class and the type of the record are well-formed.
    pub open spec fn parts_wf(&self) -> bool {
        match *self {
            ResourceRecord::A { name, class, .. } => name.wf() && class.wf(),
            ResourceRecord::AAAA { name, class, .. } => name.wf() && class.wf(),
            ResourceRecord::CNAME { name, class, cname, .. } => name.wf() && class.wf()
                && cname.wf(),
            ResourceRecord::SOA { name, class, mname, rname, .. } => name.wf() && class.wf()
                && mname.wf() && rname.wf(),
            ResourceRecord::PTR { name, class, ptrname, .. } => name.wf() && class.wf()
                && ptrname.wf(),
            ResourceRecord::MX { name, class, exchange, .. } => name.wf() && class.wf()
                && exchange.wf(),
            ResourceRecord::NS { name, class, ns_name, .. } => name.wf() && class.wf()
                && ns_name.wf(),
            ResourceRecord::OPT { .. } => true,
            ResourceRecord::TXT { name, class, .. } => name.wf() && class.wf(),
            ResourceRecord::Unknown { name, rtype, class, .. } => name.wf() && class.wf()
                && rtype.wf() && rtype is Unknown,
        }
    }

    /// The record can be written, and reading it back gives the same record.
    pub open spec fn wf(&self) -> bool {
        self.fits() && self.parts_wf()
    }

    /// The name that the record applies to. An OPT record has none.
    pub fn name(&self) -> (r: Option<&Name>)
        ensures
            r == match *self {
                ResourceRecord::A { name, .. } => Some(&name),
                ResourceRecord::AAAA { name, .. } => Some(&name),
                ResourceRecord::CNAME { name, .. } => Some(&name),
                ResourceRecord::SOA { name, .. } => Some(&name),
                ResourceRecord::PTR { name, .. } => Some(&name),
                ResourceRecord::MX { name, .. } => Some(&name),
                ResourceRecord::NS { name, .. } => Some(&name),
                ResourceRecord::OPT { .. } => None,
                ResourceRecord::TXT { name, .. } => Some(&name),
                ResourceRecord::Unknown { name, .. } => Some(&name),
            },
    {
        match self {
            ResourceRecord::A { name, .. } => Some(name),
            ResourceRecord::AAAA { name, .. } => Some(name),
            ResourceRecord::CNAME { name, .. } => Some(name),
            ResourceRecord::SOA { name, .. } => Some(name),
            ResourceRecord::PTR { name, .. } => Some(name),
            ResourceRecord::MX { name, .. } => Some(name),
            ResourceRecord::NS { name, .. } => Some(name),
            ResourceRecord::OPT { .. } => None,
            ResourceRecord::TXT { name, .. } => Some(name),
            ResourceRecord::Unknown { name, .. } => Some(name),
        }
    }

    /// The type of the record.
    pub open spec fn spec_rtype(&self) -> Type {
        match *self {
            ResourceRecord::A { .. } => Type::A,
            ResourceRecord::AAAA { .. } => Type::AAAA,
            ResourceRecord::CNAME { .. } => Type::CNAME,
            ResourceRecord::SOA { .. } => Type::SOA,
            ResourceRecord::PTR { .. } => Type::PTR,
            ResourceRecord::MX { .. } => Type::MX,
            ResourceRecord::NS { .. } => Type::NS,
            ResourceRecord::OPT { .. } => Type::OPT,
            ResourceRecord::TXT { .. } => Type::TXT,
            ResourceRecord::Unknown { rtype, .. } => rtype,
        }
    }

    /// The type of the record.
    pub fn rtype(&self) -> (t: Type)
        ensures
            t == self.spec_rtype(),
    {
        match self {
            ResourceRecord::A { .. } => Type::A,
            ResourceRecord::AAAA { .. } => Type::AAAA,
            ResourceRecord::CNAME { .. } => Type::CNAME,
            ResourceRecord::SOA { .. } => Type::SOA,
            ResourceRecord::PTR { .. } => Type::PTR,
            ResourceRecord::MX { .. } => Type::MX,
            ResourceRecord::NS { .. } => Type::NS,
            ResourceRecord::OPT { .. } => Type::OPT,
            ResourceRecord::TXT { .. } => Type::TXT,
            ResourceRecord::Unknown { rtype, .. } => *rtype,
        }
    }

    /// The time to live of the record, in seconds. An OPT record has none.
    pub fn ttl(&self) -> (r: Option<i32>)
        ensures
            r == match *self {
                ResourceRecord::A { ttl, .. } => Some(ttl),
                ResourceRecord::AAAA { ttl, .. } => Some(ttl),
                ResourceRecord::CNAME { ttl, .. } => Some(ttl),
                ResourceRecord::SOA { ttl, .. } => Some(ttl),
                ResourceRecord::PTR { ttl, .. } => Some(ttl),
                ResourceRecord::MX { ttl, .. } => Some(ttl),
                ResourceRecord::NS { ttl, .. } => Some(ttl),
                ResourceRecord::OPT { .. } => None,
                ResourceRecord::TXT { ttl, .. } => Some(ttl),
                ResourceRecord::Unknown { ttl, .. } => Some(ttl),
            },
    {
        match self {
            ResourceRecord::A { ttl, .. } => Some(*ttl),
            ResourceRecord::AAAA { ttl, .. } => Some(*ttl),
            ResourceRecord::CNAME { ttl, .. } => Some(*ttl),
            ResourceRecord::SOA { ttl, .. } => Some(*ttl),
            ResourceRecord::PTR { ttl, .. } => Some(*ttl),
            ResourceRecord::MX { ttl, .. } => Some(*ttl),
            ResourceRecord::NS { ttl, .. } => Some(*ttl),
            ResourceRecord::OPT { .. } => None,
            ResourceRecord::TXT { ttl, .. } => Some(*ttl),
            ResourceRecord::Unknown { ttl, .. } => Some(*ttl),
        }
    }
}

impl From<u16> for Type {
    /// The type that a 16-bit code stands for.
    fn from(value: u16) -> (r: Type) {
        type_from(value)
    }
}

impl vstd::std_specs::convert::FromSpecImpl<u16> for Type {
    open spec fn obeys_from_spec() -> bool {
        true
    }

    open spec fn from_spec(value: u16) -> Type {
        spec_type_from(value)
    }
}

impl From<Type> for u16 {
    /// The 16-bit code of a type.
    fn from(value: Type) -> (r: u16) {
        type_code(value)
    }
}

impl vstd::std_specs::convert::FromSpecImpl<Type> for u16 {
    open spec fn obeys_from_spec() -> bool {
        true
    }

    open spec fn from_spec(value: Type) -> u16 {
        spec_type_code(value)
    }
}

impl From<u16> for Class {
    /// The class that a 16-bit code stands for.
    fn from(value: u16) -> (r: Class) {
        class_from(value)
    }
}

impl vstd::std_specs::convert::FromSpecImpl<u16> for Class {
    open spec fn obeys_from_spec() -> bool {
        true
    }

    open spec fn from_spec(value: u16) -> Class {
        spec_class_from(value)
    }
}

impl From<Class> for u16 {
    /// The 16-bit code of a class.
    fn from(value: Class) -> (r: u16) {
        class_code(value)
    }
}

impl vstd::std_specs::convert::FromSpecImpl<Class> for u16 {
    open spec fn obeys_from_spec() -> bool {
        true
    }

    open spec fn from_spec(value: Class) -> u16 {
        spec_class_code(value)
    }
}


} // verus!
