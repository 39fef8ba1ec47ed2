//! The fixed twelve-byte header of a message.
//!
//! ```text
//!                                 1  1  1  1  1  1
//!   0  1  2  3  4  5  6  7  8  9  0  1  2  3  4  5
//! +--+--+--+--+--+--+--+--+--+--+--+--+--+--+--+--+
//! |                      ID                       |
//! +--+--+--+--+--+--+--+--+--+--+--+--+--+--+--+--+
//! |QR|   Opcode  |AA|TC|RD|RA|   Z    |   RCODE   |
//! +--+--+--+--+--+--+--+--+--+--+--+--+--+--+--+--+
//! |                    QDCOUNT                    |
//! +--+--+--+--+--+--+--+--+--+--+--+--+--+--+--+--+
//! |                    ANCOUNT                    |
//! +--+--+--+--+--+--+--+--+--+--+--+--+--+--+--+--+
//! |                    NSCOUNT                    |
//! +--+--+--+--+--+--+--+--+--+--+--+--+--+--+--+--+
//! |                    ARCOUNT                    |
//! +--+--+--+--+--+--+--+--+--+--+--+--+--+--+--+--+
//! ```

use crate::bytes::{
    be_u16, lemma_u16_round_trip, put_u16, u16_at, u16_bytes,
};
use crate::errors::ParseError;
use vstd::prelude::*;

verus! {

/// Query operation type.
#[derive(Debug, Clone, Copy, PartialEq, Eq)]
pub enum Opcode {
    /// Standard query.
    Query,
    /// Inverse query.
    InverseQuery,
    /// Status request.
    Status,
    /// Placeholder for values unknown to this library.
    Unknown {
        /// The unrecognized opcode.
        value: u8,
    },
}

/// Response status codes.
#[derive(Debug, Clone, Copy, PartialEq, Eq)]
pub enum Rcode {
    /// No error condition.
    NoError,
    /// The name server was unable to interpret the query.
    FormatError,
    /// There was a problem with the name server.
    ServerFailure,
    /// (Authoritative server only) - signifies the domain name does not exist.
    NameError,
    /// The requested query is not implemented.
    NotImplemented,
    /// The query was refused for policy reasons.
    Refused,
    /// Placeholder for values unknown to this library.
    Unknown {
        /// The unrecognized response code.
        value: u8,
    },
}

/// Header for resource record queries and responses.
#[derive(Debug, Clone, Copy, PartialEq, Eq)]
pub struct Header {
    /// A 16 bit identifier assigned by the program.
    pub id: u16,
    /// Specifies whether this message is a query (`false`) or response (`true`).
    pub qr: bool,
    /// The type of query.
    pub opcode: Opcode,
    /// Whether the response is authoritative.
    pub authoritative: bool,
    /// Whether the response is truncated.
    pub truncated: bool,
    /// Whether recursion is desired.
    pub recursion_desired: bool,
    /// Whether recursion is available.
    pub recursion_available: bool,
    /// The response code.
    pub rcode: Rcode,
    /// The number of entries in the question section.
    pub question_count: u16,
    /// The number of entries in the resource records section.
    pub answer_count: u16,
    /// The number of entries in the authority records section.
    pub ns_count: u16,
    /// The number of entries in the additional records section.
    pub additional_count: u16,
}

/// Length of the header on the wire.
pub const HEADER_LENGTH: usize = 12;

/// The opcode that a number stands for.
pub open spec fn spec_opcode_from(bits: u8) -> Opcode {
    if bits == 0 {
        Opcode::Query
    } else if bits == 1 {
        Opcode::InverseQuery
    } else if bits == 2 {
        Opcode::Status
    } else {
        Opcode::Unknown { value: bits }
    }
}

/// The number of an opcode.
pub open spec fn spec_opcode_code(opcode: Opcode) -> u8 {
    match opcode {
        Opcode::Query => 0,
        Opcode::InverseQuery => 1,
        Opcode::Status => 2,
        Opcode::Unknown { value } => value,
    }
}

/// The response code that a number stands for.
pub open spec fn spec_rcode_from(bits: u8) -> Rcode {
    if bits == 0 {
        Rcode::NoError
    } else if bits == 1 {
        Rcode::FormatError
    } else if bits == 2 {
        Rcode::ServerFailure
    } else if bits == 3 {
        Rcode::NameError
    } else if bits == 4 {
        Rcode::NotImplemented
    } else if bits == 5 {
        Rcode::Refused
    } else {
        Rcode::Unknown { value: bits }
    }
}

/// The number of a response code.
pub open spec fn spec_rcode_code(rcode: Rcode) -> u8 {
    match rcode {
        Rcode::NoError => 0,
        Rcode::FormatError => 1,
        Rcode::ServerFailure => 2,
        Rcode::NameError => 3,
        Rcode::NotImplemented => 4,
        Rcode::Refused => 5,
        Rcode::Unknown { value } => value,
    }
}

impl Opcode {
    /// The opcode fits the four bits of its field, and `Unknown` holds no
    /// number that has a variant of its own.
    pub open spec fn wf(self) -> bool {
        spec_opcode_code(self) < 16 && spec_opcode_from(spec_opcode_code(self)) == self
    }
}

impl Rcode {
    /// The response code fits the four bits of its field, and `Unknown` holds
    /// no number that has a variant of its own.
    pub open spec fn wf(self) -> bool {
        spec_rcode_code(self) < 16 && spec_rcode_from(spec_rcode_code(self)) == self
    }
}

/// The opcode that a number stands for.
pub fn opcode_from(bits: u8) -> (opcode: Opcode)
    ensures
        opcode == spec_opcode_from(bits),
        spec_opcode_code(opcode) == bits,
{
    match bits {
        0 => Opcode::Query,
        1 => Opcode::InverseQuery,
        2 => Opcode::Status,
        x => Opcode::Unknown { value: x },
    }
}

/// The number of an opcode.
pub fn opcode_code(opcode: Opcode) -> (bits: u8)
    ensures
        bits == spec_opcode_code(opcode),
{
    match opcode {
        Opcode::Query => 0,
        Opcode::InverseQuery => 1,
        Opcode::Status => 2,
        Opcode::Unknown { value: x } => x,
    }
}

/// The response code that a number stands for.
pub fn rcode_from(bits: u8) -> (rcode: Rcode)
    ensures
        rcode == spec_rcode_from(bits),
        spec_rcode_code(rcode) == bits,
{
    match bits {
        0 => Rcode::NoError,
        1 => Rcode::FormatError,
        2 => Rcode::ServerFailure,
        3 => Rcode::NameError,
        4 => Rcode::NotImplemented,
        5 => Rcode::Refused,
        x => Rcode::Unknown { value: x },
    }
}

/// The number of a response code.
pub fn rcode_code(rcode: Rcode) -> (bits: u8)
    ensures
        bits == spec_rcode_code(rcode),
{
    match rcode {
        Rcode::NoError => 0,
        Rcode::FormatError => 1,
        Rcode::ServerFailure => 2,
        Rcode::NameError => 3,
        Rcode::NotImplemented => 4,
        Rcode::Refused => 5,
        Rcode::Unknown { value: x } => x,
    }
}

/// One bit of the flags word.
pub open spec fn flag_bit(set: bool, mask: u16) -> u16 {
    if set {
        mask
    } else {
        0
    }
}

/// The flags word: bit 15 QR, bits 14-11 the opcode, bit 10 AA, bit 9 TC,
/// bit 8 RD, bit 7 RA, bits 6-4 zero, bits 3-0 the response code.
pub open spec fn pack_flags(
    qr: bool,
    opcode: u8,
    aa: bool,
    tc: bool,
    rd: bool,
    ra: bool,
    rcode: u8,
) -> u16 {
    flag_bit(qr, 0x8000) | (((opcode & 0x0f) as u16) << 11) | flag_bit(aa, 0x0400) | flag_bit(
        tc,
        0x0200,
    ) | flag_bit(rd, 0x0100) | flag_bit(ra, 0x0080) | ((rcode & 0x0f) as u16)
}

/// Bits 14-11 of the flags word.
pub open spec fn opcode_bits(flags: u16) -> u8 {
    ((flags & 0x7800) >> 11) as u8
}

/// Bits 3-0 of the flags word.
pub open spec fn rcode_bits(flags: u16) -> u8 {
    (flags & 0x000f) as u8
}

/// The header that the first twelve bytes of `data` hold, with the counts
/// and the flags as they stand; `Incomplete` where `data` is shorter.
pub open spec fn spec_parse_header(data: Seq<u8>) -> Result<Header, ParseError> {
    if data.len() < HEADER_LENGTH {
        Err(ParseError::Incomplete)
    } else {
        let flags = u16_at(data, 2);
        Ok(
            Header {
                id: u16_at(data, 0),
                qr: flags & 0x8000 != 0,
                opcode: spec_opcode_from(opcode_bits(flags)),
                authoritative: flags & 0x0400 != 0,
                truncated: flags & 0x0200 != 0,
                recursion_desired: flags & 0x0100 != 0,
                recursion_available: flags & 0x0080 != 0,
                rcode: spec_rcode_from(rcode_bits(flags)),
                question_count: u16_at(data, 4),
                answer_count: u16_at(data, 6),
                ns_count: u16_at(data, 8),
                additional_count: u16_at(data, 10),
            },
        )
    }
}

impl Header {
    /// The opcode and the response code are well-formed.
    pub open spec fn wf(self) -> bool {
        self.opcode.wf() && self.rcode.wf()
    }

    /// The flags word of the header.
    pub open spec fn flags(self) -> u16 {
        pack_flags(
            self.qr,
            spec_opcode_code(self.opcode),
            self.authoritative,
            self.truncated,
            self.recursion_desired,
            self.recursion_available,
            spec_rcode_code(self.rcode),
        )
    }

    /// The twelve bytes of the header.
    pub open spec fn wire(self) -> Seq<u8> {
        u16_bytes(self.id) + u16_bytes(self.flags()) + u16_bytes(self.question_count) + u16_bytes(
            self.answer_count,
        ) + u16_bytes(self.ns_count) + u16_bytes(self.additional_count)
    }

    /// The header of a query: no flag but recursion desired, no error, and no
    /// records counted.
    pub open spec fn spec_query(
        id: u16,
        opcode: Opcode,
        recursion_desired: bool,
        questions: u16,
    ) -> Header {
        Header {
            id,
            qr: false,
            opcode,
            authoritative: false,
            truncated: false,
            recursion_desired,
            recursion_available: false,
            rcode: Rcode::NoError,
            question_count: questions,
            answer_count: 0,
            ns_count: 0,
            additional_count: 0,
        }
    }

    /// The header of the response to a query: it takes the identifier, the
    /// opcode, the recursion-desired flag and the question count of the
    /// query's header.
    pub open spec fn spec_response(query: Header, recursion_available: bool) -> Header {
        Header {
            id: query.id,
            qr: true,
            opcode: query.opcode,
            authoritative: false,
            truncated: false,
            recursion_desired: query.recursion_desired,
            recursion_available,
            rcode: Rcode::NoError,
            question_count: query.question_count,
            answer_count: 0,
            ns_count: 0,
            additional_count: 0,
        }
    }

    /// Create a `Header` for a query.
    pub fn query(id: u16, opcode: Opcode, recursion_desired: bool, questions: u16) -> (h: Header)
        ensures
            h == Header::spec_query(id, opcode, recursion_desired, questions),
    {
        Header {
            id,
            qr: false,
            opcode,
            authoritative: false,
            truncated: false,
            recursion_desired,
            recursion_available: false,
            rcode: Rcode::NoError,
            question_count: questions,
            answer_count: 0,
            ns_count: 0,
            additional_count: 0,
        }
    }

    /// Create a `Header` for a response.
    pub fn response(query: Header, recursion_available: bool) -> (h: Header)
        ensures
            h == Header::spec_response(query, recursion_available),
    {
        Header {
            id: query.id,
            qr: true,
            opcode: query.opcode,
            authoritative: false,
            truncated: false,
            recursion_desired: query.recursion_desired,
            recursion_available,
            rcode: Rcode::NoError,
            question_count: query.question_count,
            answer_count: 0,
            ns_count: 0,
            additional_count: 0,
        }
    }

    /// Creates a copy of the header, with the `answer_count` field modified.
    pub fn answers(&self, count: u16) -> (h: Header)
        ensures
            h == (Header { answer_count: count, ..*self }),
    {
        Header { answer_count: count, ..*self }
    }

    /// Creates a copy of the header, with the `ns_count` field modified.
    pub fn authorities(&self, count: u16) -> (h: Header)
        ensures
            h == (Header { ns_count: count, ..*self }),
    {
        Header { ns_count: count, ..*self }
    }

    /// Creates a copy of the header, with the `additional_count` field modified.
    pub fn additional(&self, count: u16) -> (h: Header)
        ensures
            h == (Header { additional_count: count, ..*self }),
    {
        Header { additional_count: count, ..*self }
    }

    /// Packs the flags word. Only the low four bits of the opcode and of the
    /// response code are kept, and the reserved bits are zero.
    pub fn flags_to_u16(&self) -> (res: u16)
        ensures
            res == self.flags(),
            res & 0x0070 == 0,
    {
        let opcode: u8 = opcode_code(self.opcode) & 0x0f;
        let rcode: u8 = rcode_code(self.rcode) & 0x0f;
        let qr: u16 = if self.qr { 0x8000 } else { 0 };
        let aa: u16 = if self.authoritative { 0x0400 } else { 0 };
        let tc: u16 = if self.truncated { 0x0200 } else { 0 };
        let rd: u16 = if self.recursion_desired { 0x0100 } else { 0 };
        let ra: u16 = if self.recursion_available { 0x0080 } else { 0 };
        let res = qr | ((opcode as u16) << 11) | aa | tc | rd | ra | (rcode as u16);
        proof {
            lemma_reserved_bits(
                self.qr,
                spec_opcode_code(self.opcode),
                self.authoritative,
                self.truncated,
                self.recursion_desired,
                self.recursion_available,
                spec_rcode_code(self.rcode),
            );
        }
        res
    }

    /// Appends the twelve bytes of the header.
    pub fn write_to(&self, out: &mut Vec<u8>)
        ensures
            final(out)@ == old(out)@ + self.wire(),
    {
        put_u16(out, self.id);
        put_u16(out, self.flags_to_u16());
        put_u16(out, self.question_count);
        put_u16(out, self.answer_count);
        put_u16(out, self.ns_count);
        put_u16(out, self.additional_count);
        proof {
            assert(out@ =~= old(out)@ + self.wire());
        }
    }
}

/// Appends the twelve bytes of the header.
pub fn write_header(header: &Header, out: &mut Vec<u8>)
    ensures
        final(out)@ == old(out)@ + header.wire(),
{
    header.write_to(out)
}

/// Decodes the header at the start of `data`. Unknown opcodes and response
/// codes are kept; the reserved bits are ignored.
pub fn parse_header(data: &[u8]) -> (r: Result<Header, ParseError>)
    ensures
        r == spec_parse_header(data@),
        r matches Ok(h) ==> h.wf(),
{
    if data.len() < HEADER_LENGTH {
        return Err(ParseError::Incomplete);
    }
    let id = be_u16(data, 0)?;
    let flags = be_u16(data, 2)?;
    let question_count = be_u16(data, 4)?;
    let answer_count = be_u16(data, 6)?;
    let ns_count = be_u16(data, 8)?;
    let additional_count = be_u16(data, 10)?;
    proof {
        lemma_flag_fields(flags);
    }
    Ok(
        Header {
            id,
            qr: (flags & 0x8000) != 0,
            opcode: opcode_from(((flags & 0x7800) >> 11) as u8),
            authoritative: (flags & 0x0400) != 0,
            truncated: (flags & 0x0200) != 0,
            recursion_desired: (flags & 0x0100) != 0,
            recursion_available: (flags & 0x0080) != 0,
            rcode: rcode_from((flags & 0x000f) as u8),
            question_count,
            answer_count,
            ns_count,
            additional_count,
        },
    )
}

/// The two numbers in the flags word have four bits each.
pub proof fn lemma_flag_fields(flags: u16)
    ensures
        (flags & 0x7800) >> 11 < 16,
        flags & 0x000f < 16,
{
    assert((flags & 0x7800) >> 11 < 16) by (bit_vector);
    assert(flags & 0x000f < 16) by (bit_vector);
}

/// The reserved bits of a packed flags word are zero.
pub proof fn lemma_reserved_bits(
    qr: bool,
    opcode: u8,
    aa: bool,
    tc: bool,
    rd: bool,
    ra: bool,
    rcode: u8,
)
    ensures
        pack_flags(qr, opcode, aa, tc, rd, ra, rcode) & 0x0070 == 0,
{
    let a = flag_bit(qr, 0x8000);
    let b = ((opcode & 0x0f) as u16) << 11;
    let c = flag_bit(aa, 0x0400);
    let d = flag_bit(tc, 0x0200);
    let e = flag_bit(rd, 0x0100);
    let f = flag_bit(ra, 0x0080);
    let g = (rcode & 0x0f) as u16;
    let packed = a | b | c | d | e | f | g;
    assert(packed & 0x0070 == 0) by (bit_vector)
        requires
            a == 0 || a == 0x8000,
            c == 0 || c == 0x0400,
            d == 0 || d == 0x0200,
            e == 0 || e == 0x0100,
            f == 0 || f == 0x0080,
            b == ((opcode & 0x0f) as u16) << 11,
            g == (rcode & 0x0f) as u16,
            packed == a | b | c | d | e | f | g,
    ;
}

/// Unpacking the flags word gives back what was packed.
pub proof fn lemma_flags_round_trip(
    qr: bool,
    opcode: u8,
    aa: bool,
    tc: bool,
    rd: bool,
    ra: bool,
    rcode: u8,
)
    requires
        opcode < 16,
        rcode < 16,
    ensures
        ({
            let flags = pack_flags(qr, opcode, aa, tc, rd, ra, rcode);
            &&& (flags & 0x8000 != 0) == qr
            &&& opcode_bits(flags) == opcode
            &&& (flags & 0x0400 != 0) == aa
            &&& (flags & 0x0200 != 0) == tc
            &&& (flags & 0x0100 != 0) == rd
            &&& (flags & 0x0080 != 0) == ra
            &&& rcode_bits(flags) == rcode
        }),
{
    let a = flag_bit(qr, 0x8000);
    let c = flag_bit(aa, 0x0400);
    let d = flag_bit(tc, 0x0200);
    let e = flag_bit(rd, 0x0100);
    let f = flag_bit(ra, 0x0080);
    let flags = a | (((opcode & 0x0f) as u16) << 11) | c | d | e | f | ((rcode & 0x0f) as u16);
    assert(flags == pack_flags(qr, opcode, aa, tc, rd, ra, rcode));
    assert({
        &&& (flags & 0x8000 != 0) == (a != 0)
        &&& ((flags & 0x7800) >> 11) as u8 == opcode
        &&& (flags & 0x0400 != 0) == (c != 0)
        &&& (flags & 0x0200 != 0) == (d != 0)
        &&& (flags & 0x0100 != 0) == (e != 0)
        &&& (flags & 0x0080 != 0) == (f != 0)
        &&& (flags & 0x000f) as u8 == rcode
    }) by (bit_vector)
        requires
            a == 0 || a == 0x8000,
            c == 0 || c == 0x0400,
            d == 0 || d == 0x0200,
            e == 0 || e == 0x0100,
            f == 0 || f == 0x0080,
            opcode < 16,
            rcode < 16,
            flags == a | (((opcode & 0x0f) as u16) << 11) | c | d | e | f | ((rcode & 0x0f) as u16),
    ;
}

/// Decoding the bytes of a well-formed header gives back the header, whatever
/// follows them.
pub proof fn lemma_header_round_trip(h: Header, rest: Seq<u8>)
    requires
        h.wf(),
    ensures
        h.wire().len() == HEADER_LENGTH,
        spec_parse_header(h.wire() + rest) == Ok::<Header, ParseError>(h),
{
    let data = h.wire() + rest;
    lemma_u16_round_trip(h.id);
    lemma_u16_round_trip(h.flags());
    lemma_u16_round_trip(h.question_count);
    lemma_u16_round_trip(h.answer_count);
    lemma_u16_round_trip(h.ns_count);
    lemma_u16_round_trip(h.additional_count);
    assert(h.wire().len() == 12);
    assert(data[0] == u16_bytes(h.id)[0] && data[1] == u16_bytes(h.id)[1]);
    assert(data[2] == u16_bytes(h.flags())[0] && data[3] == u16_bytes(h.flags())[1]);
    assert(data[4] == u16_bytes(h.question_count)[0] && data[5] == u16_bytes(
        h.question_count,
    )[1]);
    assert(data[6] == u16_bytes(h.answer_count)[0] && data[7] == u16_bytes(h.answer_count)[1]);
    assert(data[8] == u16_bytes(h.ns_count)[0] && data[9] == u16_bytes(h.ns_count)[1]);
    assert(data[10] == u16_bytes(h.additional_count)[0] && data[11] == u16_bytes(
        h.additional_count,
    )[1]);
    lemma_flags_round_trip(
        h.qr,
        spec_opcode_code(h.opcode),
        h.authoritative,
        h.truncated,
        h.recursion_desired,
        h.recursion_available,
        spec_rcode_code(h.rcode),
    );
}

impl From<u8> for Opcode {
    /// The opcode that a number stands for.
    fn from(value: u8) -> (r: Opcode) {
        opcode_from(value)
    }
}

impl vstd::std_specs::convert::FromSpecImpl<u8> for Opcode {
    open spec fn obeys_from_spec() -> bool {
        true
    }

    open spec fn from_spec(value: u8) -> Opcode {
        spec_opcode_from(value)
    }
}

impl From<Opcode> for u8 {
    /// The number of an opcode.
    fn from(value: Opcode) -> (r: u8) {
        opcode_code(value)
    }
}

impl vstd::std_specs::convert::FromSpecImpl<Opcode> for u8 {
    open spec fn obeys_from_spec() -> bool {
        true
    }

    open spec fn from_spec(value: Opcode) -> u8 {
        spec_opcode_code(value)
    }
}

impl From<u8> for Rcode {
    /// The response code that a number stands for.
    fn from(value: u8) -> (r: Rcode) {
        rcode_from(value)
    }
}

impl vstd::std_specs::convert::FromSpecImpl<u8> for Rcode {
    open spec fn obeys_from_spec() -> bool {
        true
    }

    open spec fn from_spec(value: u8) -> Rcode {
        spec_rcode_from(value)
    }
}

impl From<Rcode> for u8 {
    /// The number of a response code.
    fn from(value: Rcode) -> (r: u8) {
        rcode_code(value)
    }
}

impl vstd::std_specs::convert::FromSpecImpl<Rcode> for u8 {
    open spec fn obeys_from_spec() -> bool {
        true
    }

    open spec fn from_spec(value: Rcode) -> u8 {
        spec_rcode_code(value)
    }
}


} // verus!
