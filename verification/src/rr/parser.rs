//! Decoding of resource records.
//!
//! A record is read at an offset of the whole message, so that compression
//! pointers in its names can be followed. The data of a record ends where its
//! length says: a name in the data is read up to there and no further, and
//! the next record starts there whatever the data holds.

use crate::bytes::{
    be_i32, be_u16, be_u32, i32_at, lemma_text_of_bytes, str_from_utf8, take, u16_at, u32_at,
};
use crate::errors::ParseError;
use crate::names::wire::{parse_name, spec_parse_name};
use crate::names::Name;
use crate::rr::{
    class_from, spec_class_from, spec_type_from, strings_fit, texts, txt_wire, type_from, Class,
    RecordView, ResourceRecord, Type, MAX_STRING_LENGTH,
};
use vstd::prelude::*;
use vstd::slice::{slice_subrange, slice_to_vec};
use vstd::string::StringSliceAdditionalSpecFns;
use vstd::utf8::{decode_utf8, encode_utf8, valid_utf8};

verus! {

/// Length of class, time to live and data length together.
pub const PARTS_LENGTH: usize = 8;

/// The class, the time to live and the bounds of the data of the record
/// whose class stands at `pos`.
pub open spec fn spec_parts(data: Seq<u8>, pos: int) -> Result<(Class, i32, int, int), ParseError> {
    if pos + PARTS_LENGTH > data.len() {
        Err(ParseError::Incomplete)
    } else if pos + PARTS_LENGTH + u16_at(data, pos + 6) > data.len() {
        Err(ParseError::Incomplete)
    } else {
        Ok(
            (
                spec_class_from(u16_at(data, pos)),
                i32_at(data, pos + 2),
                pos + PARTS_LENGTH,
                pos + PARTS_LENGTH + u16_at(data, pos + 6),
            ),
        )
    }
}

/// As `spec_parts`, for a type whose data has one length only.
pub open spec fn spec_parts_length(data: Seq<u8>, pos: int, expected: int, t: Type) -> Result<
    (Class, i32, int, int),
    ParseError,
> {
    if pos + PARTS_LENGTH > data.len() {
        Err(ParseError::Incomplete)
    } else if u16_at(data, pos + 6) != expected {
        Err(ParseError::InvalidRecordLength(t))
    } else {
        spec_parts(data, pos)
    }
}

/// The character strings that fill `body`.
pub open spec fn txt_strings(body: Seq<u8>) -> Result<Seq<Seq<char>>, ParseError>
    decreases body.len(),
{
    if body.len() == 0 {
        Ok(Seq::empty())
    } else if body.len() - 1 < body[0] {
        Err(ParseError::Incomplete)
    } else if !valid_utf8(body.subrange(1, 1 + body[0])) {
        Err(ParseError::TxtInvalidUtf8)
    } else {
        match txt_strings(body.skip(1 + body[0])) {
            Ok(rest) => Ok(seq![decode_utf8(body.subrange(1, 1 + body[0]))] + rest),
            Err(e) => Err(e),
        }
    }
}

/// The strings read before, followed by those that are still to come.
pub open spec fn strings_after(
    done: Seq<Seq<char>>,
    rest: Result<Seq<Seq<char>>, ParseError>,
) -> Result<Seq<Seq<char>>, ParseError> {
    match rest {
        Ok(strings) => Ok(done + strings),
        Err(e) => Err(e),
    }
}

/// The record of type `rtype` and owner `name` whose class stands at `pos`.
pub open spec fn spec_parse_data(data: Seq<u8>, pos: int, name: Seq<Seq<u8>>, rtype: Type) -> Result<
    (RecordView, int),
    ParseError,
> {
    let parts = match rtype {
        Type::A => spec_parts_length(data, pos, 4, rtype),
        Type::AAAA => spec_parts_length(data, pos, 16, rtype),
        _ => spec_parts(data, pos),
    };
    match parts {
        Err(e) => Err(e),
        Ok((class, ttl, body, end)) => {
            let window = data.take(end);
            match rtype {
                Type::A => Ok((RecordView::A { name, class, ttl, addr: data.subrange(body, end) }, end)),
                Type::AAAA => Ok(
                    (RecordView::AAAA { name, class, ttl, addr: data.subrange(body, end) }, end),
                ),
                Type::CNAME => match spec_parse_name(window, body) {
                    Ok((cname, _)) => Ok((RecordView::CNAME { name, class, ttl, cname }, end)),
                    Err(e) => Err(e),
                },
                Type::PTR => match spec_parse_name(window, body) {
                    Ok((ptrname, _)) => Ok((RecordView::PTR { name, class, ttl, ptrname }, end)),
                    Err(e) => Err(e),
                },
                Type::NS => match spec_parse_name(window, body) {
                    Ok((ns_name, _)) => Ok((RecordView::NS { name, class, ttl, ns_name }, end)),
                    Err(e) => Err(e),
                },
                Type::MX => if body + 2 > end {
                    Err(ParseError::Incomplete)
                } else {
                    match spec_parse_name(window, body + 2) {
                        Ok((exchange, _)) => Ok(
                            (
                                RecordView::MX {
                                    name,
                                    class,
                                    ttl,
                                    preference: u16_at(data, body),
                                    exchange,
                                },
                                end,
                            ),
                        ),
                        Err(e) => Err(e),
                    }
                },
                Type::SOA => match spec_parse_name(window, body) {
                    Err(e) => Err(e),
                    Ok((mname, at_rname)) => match spec_parse_name(window, at_rname) {
                        Err(e) => Err(e),
                        Ok((rname, at_serial)) => if at_serial + 20 > end {
                            Err(ParseError::Incomplete)
                        } else {
                            Ok(
                                (
                                    RecordView::SOA {
                                        name,
                                        class,
                                        ttl,
                                        mname,
                                        rname,
                                        serial: u32_at(data, at_serial),
                                        refresh: u32_at(data, at_serial + 4),
                                        retry: u32_at(data, at_serial + 8),
                                        expire: u32_at(data, at_serial + 12),
                                        minimum: u32_at(data, at_serial + 16),
                                    },
                                    end,
                                ),
                            )
                        },
                    },
                },
                Type::TXT => match txt_strings(data.subrange(body, end)) {
                    Ok(strings) => Ok((RecordView::TXT { name, class, ttl, data: strings }, end)),
                    Err(e) => Err(e),
                },
                _ => Ok(
                    (
                        RecordView::Unknown { name, rtype, class, ttl, data: data.subrange(body, end) },
                        end,
                    ),
                ),
            }
        },
    }
}

/// The OPT record of owner `name` whose payload size stands at `pos`, in the
/// place of a class. The owner must be the root.
pub open spec fn spec_parse_opt(data: Seq<u8>, pos: int, name: Seq<Seq<u8>>) -> Result<
    (RecordView, int),
    ParseError,
> {
    if name.len() != 0 {
        Err(ParseError::OptNameNotRoot)
    } else if pos + PARTS_LENGTH > data.len() {
        Err(ParseError::Incomplete)
    } else if pos + PARTS_LENGTH + u16_at(data, pos + 6) > data.len() {
        Err(ParseError::Incomplete)
    } else {
        let end = pos + PARTS_LENGTH + u16_at(data, pos + 6);
        Ok(
            (
                RecordView::OPT {
                    payload_size: u16_at(data, pos),
                    extended_rcode: data[pos + 2],
                    version: data[pos + 3],
                    dnssec_ok: u16_at(data, pos + 4) & 0x8000 != 0,
                    data: data.subrange(pos + PARTS_LENGTH, end),
                },
                end,
            ),
        )
    }
}

/// The record that starts at `pos` of the message `data`, and the position
/// behind it.
pub open spec fn spec_parse_record(data: Seq<u8>, pos: int) -> Result<(RecordView, int), ParseError> {
    match spec_parse_name(data, pos) {
        Err(e) => Err(e),
        Ok((name, at_type)) => if at_type + 2 > data.len() {
            Err(ParseError::Incomplete)
        } else if spec_type_from(u16_at(data, at_type)) == Type::OPT {
            spec_parse_opt(data, at_type + 2, name)
        } else {
            spec_parse_data(data, at_type + 2, name, spec_type_from(u16_at(data, at_type)))
        },
    }
}

/// Reads the class at `pos`.
pub fn parse_class(data: &[u8], pos: usize) -> (r: Result<Class, ParseError>)
    ensures
        pos + 2 <= data@.len() ==> r == Ok::<Class, ParseError>(
            spec_class_from(u16_at(data@, pos as int)),
        ) && r->Ok_0.wf(),
        pos + 2 > data@.len() ==> r == Err::<Class, ParseError>(ParseError::Incomplete),
{
    let code = be_u16(data, pos)?;
    Ok(class_from(code))
}

/// Reads the type at `pos`.
pub fn parse_type(data: &[u8], pos: usize) -> (r: Result<Type, ParseError>)
    ensures
        pos + 2 <= data@.len() ==> r == Ok::<Type, ParseError>(
            spec_type_from(u16_at(data@, pos as int)),
        ) && r->Ok_0.wf(),
        pos + 2 > data@.len() ==> r == Err::<Type, ParseError>(ParseError::Incomplete),
{
    let code = be_u16(data, pos)?;
    Ok(type_from(code))
}

/// Reads class, time to live and data length at `pos`, and makes sure that
/// the data is there. Returns the class, the time to live and the bounds of
/// the data.
fn parse_parts(data: &[u8], pos: usize) -> (r: Result<(Class, i32, usize, usize), ParseError>)
    ensures
        match r {
            Ok((class, ttl, body, end)) => spec_parts(data@, pos as int) == Ok::<
                (Class, i32, int, int),
                ParseError,
            >((class, ttl, body as int, end as int)) && body <= end <= data@.len() && end - body
                <= 0xffff,
            Err(e) => spec_parts(data@, pos as int) == Err::<(Class, i32, int, int), ParseError>(e),
        },
{
    if pos > data.len() || data.len() - pos < PARTS_LENGTH {
        return Err(ParseError::Incomplete);
    }
    let class = parse_class(data, pos)?;
    let ttl = be_i32(data, pos + 2)?;
    let length = be_u16(data, pos + 6)?;
    let body = pos + PARTS_LENGTH;
    if data.len() - body < length as usize {
        return Err(ParseError::Incomplete);
    }
    Ok((class, ttl, body, body + length as usize))
}

/// As `parse_parts`, for a type whose data has one length only.
fn parse_parts_length(data: &[u8], pos: usize, expected: u16, t: Type) -> (r: Result<
    (Class, i32, usize, usize),
    ParseError,
>)
    ensures
        match r {
            Ok((class, ttl, body, end)) => spec_parts_length(
                data@,
                pos as int,
                expected as int,
                t,
            ) == Ok::<(Class, i32, int, int), ParseError>((class, ttl, body as int, end as int))
                && body <= end <= data@.len() && end - body == expected,
            Err(e) => spec_parts_length(data@, pos as int, expected as int, t) == Err::<
                (Class, i32, int, int),
                ParseError,
            >(e),
        },
{
    if pos > data.len() || data.len() - pos < PARTS_LENGTH {
        return Err(ParseError::Incomplete);
    }
    let length = be_u16(data, pos + 6)?;
    if length != expected {
        return Err(ParseError::InvalidRecordLength(t));
    }
    parse_parts(data, pos)
}

/// Reads the name at `pos` of a record's data, which ends at `end`.
fn parse_name_within(data: &[u8], pos: usize, end: usize) -> (r: Result<(Name, usize), ParseError>)
    requires
        end <= data@.len(),
    ensures
        match r {
            Ok((name, next)) => spec_parse_name(data@.take(end as int), pos as int) == Ok::<
                (Seq<Seq<u8>>, int),
                ParseError,
            >((name@, next as int)) && name.wf() && pos <= next <= end,
            Err(e) => spec_parse_name(data@.take(end as int), pos as int) == Err::<
                (Seq<Seq<u8>>, int),
                ParseError,
            >(e),
        },
{
    let window = slice_subrange(data, 0, end);
    let (name, used) = parse_name(window, pos)?;
    Ok((name, pos + used))
}

/// The four octets of an address.
fn octets4(bytes: &[u8]) -> (r: [u8; 4])
    requires
        bytes@.len() == 4,
    ensures
        r@ == bytes@,
{
    let r = [bytes[0], bytes[1], bytes[2], bytes[3]];
    proof {
        assert(r@ =~= bytes@);
    }
    r
}

/// The sixteen octets of an address.
fn octets16(bytes: &[u8]) -> (r: [u8; 16])
    requires
        bytes@.len() == 16,
    ensures
        r@ == bytes@,
{
    let mut r = [0u8;16];
    let mut i: usize = 0;
    while i < 16
        invariant
            i <= 16,
            bytes@.len() == 16,
            forall|k: int| 0 <= k < i ==> r@[k] == bytes@[k],
        decreases 16 - i,
    {
        r[i] = bytes[i];
        i += 1;
    }
    proof {
        assert(r@ =~= bytes@);
    }
    r
}

/// Reads a record of a type that has no variant of its own: its data is kept
/// as it is.
fn parse_unknown(data: &[u8], pos: usize, name: Name, rtype: Type) -> (r: Result<
    (ResourceRecord, usize),
    ParseError,
>)
    requires
        name.wf(),
        rtype is Unknown,
        rtype.wf(),
    ensures
        parsed_as(r, spec_parse_data(data@, pos as int, name@, rtype)),
{
    let (class, ttl, body, end) = parse_parts(data, pos)?;
    let bytes = slice_to_vec(slice_subrange(data, body, end));
    Ok((ResourceRecord::Unknown { name, rtype, class, ttl, data: bytes }, end))
}

/// Reads an A record: four bytes of address.
fn parse_a(data: &[u8], pos: usize, name: Name) -> (r: Result<(ResourceRecord, usize), ParseError>)
    requires
        name.wf(),
    ensures
        parsed_as(r, spec_parse_data(data@, pos as int, name@, Type::A)),
{
    let (class, ttl, body, end) = parse_parts_length(data, pos, 4, Type::A)?;
    let addr = octets4(slice_subrange(data, body, end));
    Ok((ResourceRecord::A { name, class, ttl, addr }, end))
}

/// Reads an AAAA record: sixteen bytes of address.
fn parse_aaaa(data: &[u8], pos: usize, name: Name) -> (r: Result<
    (ResourceRecord, usize),
    ParseError,
>)
    requires
        name.wf(),
    ensures
        parsed_as(r, spec_parse_data(data@, pos as int, name@, Type::AAAA)),
{
    let (class, ttl, body, end) = parse_parts_length(data, pos, 16, Type::AAAA)?;
    let addr = octets16(slice_subrange(data, body, end));
    Ok((ResourceRecord::AAAA { name, class, ttl, addr }, end))
}

/// Reads a CNAME record: a name.
fn parse_cname(data: &[u8], pos: usize, name: Name) -> (r: Result<
    (ResourceRecord, usize),
    ParseError,
>)
    requires
        name.wf(),
    ensures
        parsed_as(r, spec_parse_data(data@, pos as int, name@, Type::CNAME)),
{
    let (class, ttl, body, end) = parse_parts(data, pos)?;
    let (cname, _) = parse_name_within(data, body, end)?;
    Ok((ResourceRecord::CNAME { name, class, ttl, cname }, end))
}

/// Reads a PTR record: a name.
fn parse_ptr(data: &[u8], pos: usize, name: Name) -> (r: Result<(ResourceRecord, usize), ParseError>)
    requires
        name.wf(),
    ensures
        parsed_as(r, spec_parse_data(data@, pos as int, name@, Type::PTR)),
{
    let (class, ttl, body, end) = parse_parts(data, pos)?;
    let (ptrname, _) = parse_name_within(data, body, end)?;
    Ok((ResourceRecord::PTR { name, class, ttl, ptrname }, end))
}

/// Reads an NS record: a name.
fn parse_ns(data: &[u8], pos: usize, name: Name) -> (r: Result<(ResourceRecord, usize), ParseError>)
    requires
        name.wf(),
    ensures
        parsed_as(r, spec_parse_data(data@, pos as int, name@, Type::NS)),
{
    let (class, ttl, body, end) = parse_parts(data, pos)?;
    let (ns_name, _) = parse_name_within(data, body, end)?;
    Ok((ResourceRecord::NS { name, class, ttl, ns_name }, end))
}

/// Reads an SOA record: two names and five 32-bit numbers.
fn parse_soa(data: &[u8], pos: usize, name: Name) -> (r: Result<(ResourceRecord, usize), ParseError>)
    requires
        name.wf(),
    ensures
        parsed_as(r, spec_parse_data(data@, pos as int, name@, Type::SOA)),
{
    let (class, ttl, body, end) = parse_parts(data, pos)?;
    let (mname, at_rname) = parse_name_within(data, body, end)?;
    let (rname, at_serial) = parse_name_within(data, at_rname, end)?;
    if end - at_serial < 20 {
        return Err(ParseError::Incomplete);
    }
    let serial = be_u32(data, at_serial)?;
    let refresh = be_u32(data, at_serial + 4)?;
    let retry = be_u32(data, at_serial + 8)?;
    let expire = be_u32(data, at_serial + 12)?;
    let minimum = be_u32(data, at_serial + 16)?;
    Ok(
        (
            ResourceRecord::SOA {
                name,
                class,
                ttl,
                mname,
                rname,
                serial,
                refresh,
                retry,
                expire,
                minimum,
            },
            end,
        ),
    )
}

/// Reads an OPT record, whose owner must be the root: payload size, extended
/// response code, version and flags stand where other records have class and
/// time to live.
fn parse_opt(data: &[u8], pos: usize, name: &Name) -> (r: Result<(ResourceRecord, usize), ParseError>)
    requires
        name.wf(),
    ensures
        parsed_as(r, spec_parse_opt(data@, pos as int, name@)),
{
    if !name.is_root() {
        return Err(ParseError::OptNameNotRoot);
    }
    if pos > data.len() || data.len() - pos < PARTS_LENGTH {
        return Err(ParseError::Incomplete);
    }
    let payload_size = be_u16(data, pos)?;
    let extended_rcode = data[pos + 2];
    let version = data[pos + 3];
    let flags = be_u16(data, pos + 4)?;
    let length = be_u16(data, pos + 6)?;
    let bytes = take(data, pos + PARTS_LENGTH, length)?;
    Ok(
        (
            ResourceRecord::OPT {
                payload_size,
                extended_rcode,
                version,
                dnssec_ok: (flags & 0x8000) != 0,
                data: slice_to_vec(bytes),
            },
            pos + PARTS_LENGTH + length as usize,
        ),
    )
}

/// Reads an MX record: a preference and a name.
fn parse_mx(data: &[u8], pos: usize, name: Name) -> (r: Result<(ResourceRecord, usize), ParseError>)
    requires
        name.wf(),
    ensures
        parsed_as(r, spec_parse_data(data@, pos as int, name@, Type::MX)),
{
    let (class, ttl, body, end) = parse_parts(data, pos)?;
    if end - body < 2 {
        return Err(ParseError::Incomplete);
    }
    let preference = be_u16(data, body)?;
    let (exchange, _) = parse_name_within(data, body + 2, end)?;
    Ok((ResourceRecord::MX { name, class, ttl, preference, exchange }, end))
}

/// Strings that were read from bytes are written as those bytes, and each
/// fits its length byte.
pub proof fn lemma_txt_strings_wire(body: Seq<u8>)
    ensures
        txt_strings(body) matches Ok(strings) ==> txt_wire(strings) == body && strings_fit(strings),
    decreases body.len(),
{
    if let Ok(strings) = txt_strings(body) {
        if body.len() == 0 {
            assert(txt_wire(strings) =~= body);
        } else {
            let length = body[0] as int;
            let chunk = body.subrange(1, 1 + length);
            let rest = txt_strings(body.skip(1 + length))->Ok_0;
            lemma_txt_strings_wire(body.skip(1 + length));
            vstd::utf8::decode_utf8_encode_utf8(chunk);
            assert(strings.drop_first() =~= rest);
            assert(strings[0] == decode_utf8(chunk));
            assert(txt_wire(strings) =~= body);
            assert forall|i: int| 0 <= i < strings.len() implies encode_utf8(
                #[trigger] strings[i],
            ).len() <= MAX_STRING_LENGTH by {
                if i > 0 {
                    assert(strings[i] == rest[i - 1]);
                }
            }
        }
    }
}

/// Reads the character strings that fill `body`.
fn parse_strings(body: &[u8]) -> (r: Result<Vec<String>, ParseError>)
    ensures
        match r {
            Ok(strings) => {
                &&& txt_strings(body@) == Ok::<Seq<Seq<char>>, ParseError>(
                    texts(strings@),
                )
                &&& txt_wire(texts(strings@)) == body@
                &&& strings_fit(texts(strings@))
            },
            Err(e) => txt_strings(body@) == Err::<Seq<Seq<char>>, ParseError>(e),
        },
{
    proof {
        lemma_txt_strings_wire(body@);
    }
    let mut strings: Vec<String> = Vec::new();
    let mut at: usize = 0;
    proof {
        assert(body@.skip(0) =~= body@);
        if let Ok(all) = txt_strings(body@) {
            assert(texts(strings@) + all =~= all);
        }
    }
    while at < body.len()
        invariant
            at <= body@.len(),
            txt_strings(body@) == strings_after(
                texts(strings@),
                txt_strings(body@.skip(at as int)),
            ),
        decreases body@.len() - at,
    {
        let ghost rest = body@.skip(at as int);
        let length = body[at] as usize;
        if body.len() - at - 1 < length {
            return Err(ParseError::Incomplete);
        }
        let chunk = slice_subrange(body, at + 1, at + 1 + length);
        proof {
            assert(chunk@ =~= rest.subrange(1, 1 + length));
            assert(rest.skip(1 + length) =~= body@.skip(at + 1 + length));
        }
        match str_from_utf8(chunk) {
            Some(text) => {
                let ghost before = texts(strings@);
                strings.push(text.to_owned());
                proof {
                    lemma_text_of_bytes(text@, chunk@);
                    assert(texts(strings@) =~= before.push(text@));
                    if let Ok(tail) = txt_strings(body@.skip(at + 1 + length)) {
                        assert(before + (seq![text@] + tail) =~= before.push(text@) + tail);
                    }
                }
            },
            None => {
                return Err(ParseError::TxtInvalidUtf8);
            },
        }
        at = at + 1 + length;
    }
    proof {
        assert(texts(strings@) + Seq::<Seq<char>>::empty() =~= texts(
            strings@,
        ));
    }
    Ok(strings)
}

/// Reads a TXT record: character strings that fill the data.
fn parse_txt(data: &[u8], pos: usize, name: Name) -> (r: Result<(ResourceRecord, usize), ParseError>)
    requires
        name.wf(),
    ensures
        parsed_as(r, spec_parse_data(data@, pos as int, name@, Type::TXT)),
{
    let (class, ttl, body, end) = parse_parts(data, pos)?;
    let strings = parse_strings(slice_subrange(data, body, end))?;
    Ok((ResourceRecord::TXT { name, class, ttl, data: strings }, end))
}

/// The outcome of an executable parser is the one that the grammar gives.
pub open spec fn parsed_as(
    r: Result<(ResourceRecord, usize), ParseError>,
    expected: Result<(RecordView, int), ParseError>,
) -> bool {
    match r {
        Ok((record, end)) => expected == Ok::<(RecordView, int), ParseError>((record@, end as int))
            && record.wf(),
        Err(e) => expected == Err::<(RecordView, int), ParseError>(e),
    }
}

/// Parses the resource record that starts at `pos` of the message `data`.
/// Returns the record and the number of bytes that it takes.
pub fn parse_record(data: &[u8], pos: usize) -> (r: Result<(ResourceRecord, usize), ParseError>)
    ensures
        match r {
            Ok((record, used)) => spec_parse_record(data@, pos as int) == Ok::<
                (RecordView, int),
                ParseError,
            >((record@, pos + used)) && record.wf() && pos + used <= data@.len(),
            Err(e) => spec_parse_record(data@, pos as int) == Err::<(RecordView, int), ParseError>(
                e,
            ),
        },
{
    let (name, used) = parse_name(data, pos)?;
    assert(pos + used <= data.len());
    let at_type = pos + used;
    let rtype = parse_type(data, at_type)?;
    assert(at_type + 2 <= data.len());
    let at_class = at_type + 2;
    let (record, end) = match rtype {
        Type::A => parse_a(data, at_class, name)?,
        Type::AAAA => parse_aaaa(data, at_class, name)?,
        Type::CNAME => parse_cname(data, at_class, name)?,
        Type::SOA => parse_soa(data, at_class, name)?,
        Type::PTR => parse_ptr(data, at_class, name)?,
        Type::OPT => parse_opt(data, at_class, &name)?,
        Type::MX => parse_mx(data, at_class, name)?,
        Type::NS => parse_ns(data, at_class, name)?,
        Type::TXT => parse_txt(data, at_class, name)?,
        Type::Unknown { .. } => parse_unknown(data, at_class, name, rtype)?,
    };
    Ok((record, end - pos))
}

/// An A record whose data has another length than four bytes is rejected,
/// and an AAAA record whose data has another length than sixteen.
pub proof fn lemma_address_length(data: Seq<u8>, pos: int)
    ensures
        match spec_parse_name(data, pos) {
            Ok((name, at_type)) => {
                let rtype = spec_type_from(u16_at(data, at_type));
                let length = u16_at(data, at_type + 8);
                at_type + 10 <= data.len() ==> {
                    &&& rtype == Type::A && length != 4 ==> spec_parse_record(data, pos) == Err::<
                        (RecordView, int),
                        ParseError,
                    >(ParseError::InvalidRecordLength(Type::A))
                    &&& rtype == Type::AAAA && length != 16 ==> spec_parse_record(data, pos)
                        == Err::<(RecordView, int), ParseError>(
                        ParseError::InvalidRecordLength(Type::AAAA),
                    )
                }
            },
            Err(_) => true,
        },
{
}

/// An OPT record whose name is not the root is rejected, whatever follows
/// its type.
pub proof fn lemma_opt_name(data: Seq<u8>, pos: int)
    ensures
        match spec_parse_name(data, pos) {
            Ok((name, at_type)) => at_type + 2 <= data.len() && spec_type_from(
                u16_at(data, at_type),
            ) == Type::OPT && name.len() > 0 ==> spec_parse_record(data, pos) == Err::<
                (RecordView, int),
                ParseError,
            >(ParseError::OptNameNotRoot),
            Err(_) => true,
        },
{
}

} // verus!
