//! Decoding what was encoded gives back what was there.
//!
//! The encoder spells every name out, so the laws here speak of messages
//! without compression pointers. They hold for well-formed values: those that
//! the decoder can return.

use crate::bytes::{
    i32_at, i32_bytes, lemma_i32_round_trip, lemma_u16_round_trip, lemma_u32_round_trip, u16_at,
    u16_bytes, u32_at, u32_bytes,
};
use crate::errors::ParseError;
use crate::header::{lemma_header_round_trip, spec_parse_header, Header};
use crate::message::{
    question_views, questions_wire, record_views, records_wire, spec_decode,
    spec_parse_questions, spec_parse_records, Message, MessageView,
};
use crate::question::{spec_parse_question, spec_qtype_code, Question, QuestionView};
use crate::rr::parser::{spec_parse_record, spec_parts, txt_strings};
use crate::rr::{
    framed, opt_flags, record_head, spec_class_code, spec_type_code, spec_type_from, strings_fit,
    texts, txt_wire, Class, RecordView, ResourceRecord, Type, MAX_STRING_LENGTH, MAX_U16,
};
use crate::names::wire::{lemma_name_at_wire, spec_parse_name};
use crate::names::{wire_of, Name, MAX_NAME_LENGTH};
use vstd::prelude::*;
use vstd::utf8::encode_utf8;

verus! {

/// The bytes `part` stand at `pos` of `data`.
pub open spec fn holds(data: Seq<u8>, pos: int, part: Seq<u8>) -> bool {
    &&& 0 <= pos
    &&& pos + part.len() <= data.len()
    &&& data.subrange(pos, pos + part.len()) == part
}

/// Where two parts stand one after the other, each of them stands.
pub proof fn lemma_holds_split(data: Seq<u8>, pos: int, a: Seq<u8>, b: Seq<u8>)
    requires
        holds(data, pos, a + b),
    ensures
        holds(data, pos, a),
        holds(data, pos + a.len(), b),
{
    let whole = data.subrange(pos, pos + (a + b).len());
    assert(data.subrange(pos, pos + a.len()) =~= whole.subrange(0, a.len() as int));
    assert(whole.subrange(0, a.len() as int) =~= a);
    assert(data.subrange(pos + a.len(), pos + a.len() + b.len()) =~= whole.subrange(
        a.len() as int,
        (a + b).len() as int,
    ));
    assert(whole.subrange(a.len() as int, (a + b).len() as int) =~= b);
}

/// What stands before `end` also stands there in what is left of `data`
/// when it is cut at `end`.
pub proof fn lemma_holds_take(data: Seq<u8>, pos: int, part: Seq<u8>, end: int)
    requires
        holds(data, pos, part),
        pos + part.len() <= end <= data.len(),
    ensures
        holds(data.take(end), pos, part),
{
    assert(data.take(end).subrange(pos, pos + part.len()) =~= data.subrange(
        pos,
        pos + part.len(),
    ));
}

/// The 16-bit value that stands at `pos`.
pub proof fn lemma_holds_u16(data: Seq<u8>, pos: int, v: u16)
    requires
        holds(data, pos, u16_bytes(v)),
    ensures
        pos + 2 <= data.len(),
        u16_at(data, pos) == v,
{
    lemma_u16_round_trip(v);
    let part = data.subrange(pos, pos + 2);
    assert(part[0] == data[pos] && part[1] == data[pos + 1]);
}

/// The 32-bit value that stands at `pos`.
pub proof fn lemma_holds_u32(data: Seq<u8>, pos: int, v: u32)
    requires
        holds(data, pos, u32_bytes(v)),
    ensures
        pos + 4 <= data.len(),
        u32_at(data, pos) == v,
{
    lemma_u32_round_trip(v);
    let part = data.subrange(pos, pos + 4);
    assert(part[0] == data[pos] && part[1] == data[pos + 1] && part[2] == data[pos + 2] && part[3]
        == data[pos + 3]);
}

/// The signed 32-bit value that stands at `pos`.
pub proof fn lemma_holds_i32(data: Seq<u8>, pos: int, v: i32)
    requires
        holds(data, pos, i32_bytes(v)),
    ensures
        pos + 4 <= data.len(),
        i32_at(data, pos) == v,
{
    lemma_i32_round_trip(v);
    let part = data.subrange(pos, pos + 4);
    assert(part[0] == data[pos] && part[1] == data[pos + 1] && part[2] == data[pos + 2] && part[3]
        == data[pos + 3]);
}

/// A name that is spelled out at `pos` is read there as it is.
pub proof fn lemma_name_round_trip(data: Seq<u8>, pos: int, name: Name)
    requires
        name.wf(),
        holds(data, pos, name.name@),
    ensures
        spec_parse_name(data, pos) == Ok::<(Seq<Seq<u8>>, int), ParseError>(
            (name@, pos + name.name@.len()),
        ),
{
    lemma_name_at_wire(data, pos, MAX_NAME_LENGTH as int, name@);
}

/// A question that stands at `pos` is read there as it is.
pub proof fn lemma_question_round_trip(data: Seq<u8>, pos: int, q: Question)
    requires
        q.wf(),
        holds(data, pos, q.wire()),
    ensures
        spec_parse_question(data, pos) == Ok::<(QuestionView, int), ParseError>(
            (q@, pos + q.wire().len()),
        ),
{
    let name = q.qname.name@;
    let qtype = u16_bytes(spec_qtype_code(q.qtype));
    let qclass = u16_bytes(spec_class_code(q.qclass));
    lemma_holds_split(data, pos, name + qtype, qclass);
    lemma_holds_split(data, pos, name, qtype);
    lemma_name_round_trip(data, pos, q.qname);
    lemma_holds_u16(data, pos + name.len(), spec_qtype_code(q.qtype));
    lemma_holds_u16(data, pos + name.len() + 2, spec_class_code(q.qclass));
}

/// Questions that stand one after the other from `pos` on are read as they
/// are.
pub proof fn lemma_questions_round_trip(data: Seq<u8>, pos: int, questions: Seq<Question>)
    requires
        forall|i: int| 0 <= i < questions.len() ==> (#[trigger] questions[i]).wf(),
        holds(data, pos, questions_wire(questions)),
    ensures
        spec_parse_questions(data, pos, questions.len()) == Ok::<
            (Seq<QuestionView>, int),
            ParseError,
        >((question_views(questions), pos + questions_wire(questions).len())),
    decreases questions.len(),
{
    if questions.len() == 0 {
        assert(question_views(questions) =~= Seq::<QuestionView>::empty());
    } else {
        let first = questions[0];
        let tail = questions.drop_first();
        lemma_holds_split(data, pos, first.wire(), questions_wire(tail));
        lemma_question_round_trip(data, pos, first);
        assert forall|i: int| 0 <= i < tail.len() implies (#[trigger] tail[i]).wf() by {
            assert(tail[i] == questions[i + 1]);
        }
        lemma_questions_round_trip(data, pos + first.wire().len(), tail);
        assert(seq![first@] + question_views(tail) =~= question_views(questions));
    }
}

/// What stands before the data of a record that stands at `pos` is read
/// there as it is: the owner's name, the type, the class, the time to live
/// and the length of the data.
pub proof fn lemma_record_front(
    data: Seq<u8>,
    pos: int,
    name: Name,
    rtype: Type,
    class: Class,
    ttl: i32,
    rdata: Seq<u8>,
)
    requires
        name.wf(),
        rtype.wf(),
        class.wf(),
        rdata.len() <= MAX_U16,
        holds(data, pos, record_head(name.name@, rtype, class, ttl) + framed(rdata)),
    ensures
        ({
            let at_type = pos + name.name@.len();
            &&& spec_parse_name(data, pos) == Ok::<(Seq<Seq<u8>>, int), ParseError>(
                (name@, at_type),
            )
            &&& at_type + 2 <= data.len()
            &&& spec_type_from_at(data, at_type) == rtype
            &&& u16_at(data, at_type + 8) == rdata.len()
            &&& spec_parts(data, at_type + 2) == Ok::<(Class, i32, int, int), ParseError>(
                (class, ttl, at_type + 10, at_type + 10 + rdata.len()),
            )
            &&& holds(data, at_type + 10, rdata)
            &&& at_type + 10 + rdata.len() == pos + (record_head(name.name@, rtype, class, ttl)
                + framed(rdata)).len()
        }),
{
    let wire_name = name.name@;
    let wire_type = u16_bytes(spec_type_code(rtype));
    let wire_class = u16_bytes(spec_class_code(class));
    let wire_ttl = i32_bytes(ttl);
    let wire_len = u16_bytes(rdata.len() as u16);
    let head = record_head(name.name@, rtype, class, ttl);
    lemma_holds_split(data, pos, head, framed(rdata));
    lemma_holds_split(data, pos, wire_name + wire_type + wire_class, wire_ttl);
    lemma_holds_split(data, pos, wire_name + wire_type, wire_class);
    lemma_holds_split(data, pos, wire_name, wire_type);
    lemma_holds_split(data, pos + head.len(), wire_len, rdata);
    let at_type = pos + wire_name.len();
    lemma_name_round_trip(data, pos, name);
    lemma_holds_u16(data, at_type, spec_type_code(rtype));
    lemma_holds_u16(data, at_type + 2, spec_class_code(class));
    lemma_holds_i32(data, at_type + 4, ttl);
    lemma_holds_u16(data, at_type + 8, rdata.len() as u16);
}

/// The type whose code stands at `pos`.
pub open spec fn spec_type_from_at(data: Seq<u8>, pos: int) -> Type {
    spec_type_from(u16_at(data, pos))
}

/// Strings that were written are read as they are.
pub proof fn lemma_strings_round_trip(strings: Seq<Seq<char>>)
    requires
        strings_fit(strings),
    ensures
        txt_strings(txt_wire(strings)) == Ok::<Seq<Seq<char>>, ParseError>(strings),
    decreases strings.len(),
{
    let body = txt_wire(strings);
    if strings.len() == 0 {
        assert(strings =~= Seq::<Seq<char>>::empty());
    } else {
        let first = strings[0];
        let tail = strings.drop_first();
        let bytes = encode_utf8(first);
        assert(bytes.len() <= MAX_STRING_LENGTH);
        assert(body =~= seq![bytes.len() as u8] + bytes + txt_wire(tail));
        assert(body[0] == bytes.len());
        assert(body.subrange(1, 1 + bytes.len() as int) =~= bytes);
        assert(body.skip(1 + bytes.len() as int) =~= txt_wire(tail));
        vstd::utf8::encode_utf8_valid_utf8(first);
        vstd::utf8::encode_utf8_decode_utf8(first);
        assert forall|i: int| 0 <= i < tail.len() implies encode_utf8(#[trigger] tail[i]).len()
            <= MAX_STRING_LENGTH by {
            assert(tail[i] == strings[i + 1]);
        }
        lemma_strings_round_trip(tail);
        assert(seq![first] + tail =~= strings);
    }
}

/// The claim that a record which stands at `pos` is read there as it is.
pub open spec fn reads_back(data: Seq<u8>, pos: int, r: ResourceRecord) -> bool {
    spec_parse_record(data, pos) == Ok::<(RecordView, int), ParseError>((r@, pos + r.wire().len()))
}

proof fn lemma_address_round_trip(data: Seq<u8>, pos: int, r: ResourceRecord)
    requires
        r.wf(),
        r is A || r is AAAA,
        holds(data, pos, r.wire()),
    ensures
        reads_back(data, pos, r),
{
    match r {
        ResourceRecord::A { name, class, ttl, addr } => {
            lemma_record_front(data, pos, name, Type::A, class, ttl, r.rdata());
            let body = pos + name.name@.len() + 10;
            assert(data.subrange(body, body + 4) == addr@);
        },
        ResourceRecord::AAAA { name, class, ttl, addr } => {
            lemma_record_front(data, pos, name, Type::AAAA, class, ttl, r.rdata());
            let body = pos + name.name@.len() + 10;
            assert(data.subrange(body, body + 16) == addr@);
        },
        _ => {},
    }
}

proof fn lemma_target_round_trip(data: Seq<u8>, pos: int, r: ResourceRecord)
    requires
        r.wf(),
        r is CNAME || r is PTR || r is NS,
        holds(data, pos, r.wire()),
    ensures
        reads_back(data, pos, r),
{
    match r {
        ResourceRecord::CNAME { name, class, ttl, cname } => {
            lemma_record_front(data, pos, name, Type::CNAME, class, ttl, r.rdata());
            let body = pos + name.name@.len() + 10;
            let end = body + r.rdata().len();
            lemma_holds_take(data, body, cname.name@, end);
            lemma_name_round_trip(data.take(end), body, cname);
        },
        ResourceRecord::PTR { name, class, ttl, ptrname } => {
            lemma_record_front(data, pos, name, Type::PTR, class, ttl, r.rdata());
            let body = pos + name.name@.len() + 10;
            let end = body + r.rdata().len();
            lemma_holds_take(data, body, ptrname.name@, end);
            lemma_name_round_trip(data.take(end), body, ptrname);
        },
        ResourceRecord::NS { name, class, ttl, ns_name } => {
            lemma_record_front(data, pos, name, Type::NS, class, ttl, r.rdata());
            let body = pos + name.name@.len() + 10;
            let end = body + r.rdata().len();
            lemma_holds_take(data, body, ns_name.name@, end);
            lemma_name_round_trip(data.take(end), body, ns_name);
        },
        _ => {},
    }
}

proof fn lemma_mx_round_trip(data: Seq<u8>, pos: int, r: ResourceRecord)
    requires
        r.wf(),
        r is MX,
        holds(data, pos, r.wire()),
    ensures
        reads_back(data, pos, r),
{
    match r {
        ResourceRecord::MX { name, class, ttl, preference, exchange } => {
            lemma_record_front(data, pos, name, Type::MX, class, ttl, r.rdata());
            let body = pos + name.name@.len() + 10;
            let end = body + r.rdata().len();
            lemma_holds_split(data, body, u16_bytes(preference), exchange.name@);
            lemma_holds_u16(data, body, preference);
            lemma_holds_take(data, body + 2, exchange.name@, end);
            lemma_name_round_trip(data.take(end), body + 2, exchange);
        },
        _ => {},
    }
}

/// The two names and the five numbers of the data of an SOA record that
/// stands at `body` are read there as they are.
proof fn lemma_soa_data(
    data: Seq<u8>,
    body: int,
    mname: Name,
    rname: Name,
    serial: u32,
    refresh: u32,
    retry: u32,
    expire: u32,
    minimum: u32,
)
    requires
        mname.wf(),
        rname.wf(),
        holds(
            data,
            body,
            mname.name@ + rname.name@ + u32_bytes(serial) + u32_bytes(refresh) + u32_bytes(retry)
                + u32_bytes(expire) + u32_bytes(minimum),
        ),
    ensures
        ({
            let at_rname = body + mname.name@.len();
            let at_serial = at_rname + rname.name@.len();
            let end = at_serial + 20;
            &&& end <= data.len()
            &&& spec_parse_name(data.take(end), body) == Ok::<(Seq<Seq<u8>>, int), ParseError>(
                (mname@, at_rname),
            )
            &&& spec_parse_name(data.take(end), at_rname) == Ok::<(Seq<Seq<u8>>, int), ParseError>(
                (rname@, at_serial),
            )
            &&& u32_at(data, at_serial) == serial
            &&& u32_at(data, at_serial + 4) == refresh
            &&& u32_at(data, at_serial + 8) == retry
            &&& u32_at(data, at_serial + 12) == expire
            &&& u32_at(data, at_serial + 16) == minimum
        }),
{
    let m = mname.name@;
    let n = rname.name@;
    let s1 = u32_bytes(serial);
    let s2 = u32_bytes(refresh);
    let s3 = u32_bytes(retry);
    let s4 = u32_bytes(expire);
    let s5 = u32_bytes(minimum);
    lemma_u32_round_trip(serial);
    lemma_u32_round_trip(refresh);
    lemma_u32_round_trip(retry);
    lemma_u32_round_trip(expire);
    lemma_u32_round_trip(minimum);
    lemma_holds_split(data, body, m + n + s1 + s2 + s3 + s4, s5);
    lemma_holds_split(data, body, m + n + s1 + s2 + s3, s4);
    lemma_holds_split(data, body, m + n + s1 + s2, s3);
    lemma_holds_split(data, body, m + n + s1, s2);
    lemma_holds_split(data, body, m + n, s1);
    lemma_holds_split(data, body, m, n);
    let at_rname = body + m.len();
    let at_serial = at_rname + n.len();
    let end = at_serial + 20;
    lemma_holds_take(data, body, m, end);
    lemma_name_round_trip(data.take(end), body, mname);
    lemma_holds_take(data, at_rname, n, end);
    lemma_name_round_trip(data.take(end), at_rname, rname);
    lemma_holds_u32(data, at_serial, serial);
    lemma_holds_u32(data, at_serial + 4, refresh);
    lemma_holds_u32(data, at_serial + 8, retry);
    lemma_holds_u32(data, at_serial + 12, expire);
    lemma_holds_u32(data, at_serial + 16, minimum);
}

proof fn lemma_soa_round_trip(data: Seq<u8>, pos: int, r: ResourceRecord)
    requires
        r.wf(),
        r is SOA,
        holds(data, pos, r.wire()),
    ensures
        reads_back(data, pos, r),
{
    match r {
        ResourceRecord::SOA {
            name,
            class,
            ttl,
            mname,
            rname,
            serial,
            refresh,
            retry,
            expire,
            minimum,
        } => {
            lemma_record_front(data, pos, name, Type::SOA, class, ttl, r.rdata());
            let body = pos + name.name@.len() + 10;
            lemma_soa_data(data, body, mname, rname, serial, refresh, retry, expire, minimum);
            lemma_u32_round_trip(serial);
            lemma_u32_round_trip(refresh);
            lemma_u32_round_trip(retry);
            lemma_u32_round_trip(expire);
            lemma_u32_round_trip(minimum);
            assert(r.rdata().len() == mname.name@.len() + rname.name@.len() + 20);
        },
        _ => {},
    }
}

proof fn lemma_bytes_round_trip(data: Seq<u8>, pos: int, r: ResourceRecord)
    requires
        r.wf(),
        r is TXT || r is Unknown,
        holds(data, pos, r.wire()),
    ensures
        reads_back(data, pos, r),
{
    match r {
        ResourceRecord::TXT { name, class, ttl, data: strings } => {
            lemma_record_front(data, pos, name, Type::TXT, class, ttl, r.rdata());
            lemma_strings_round_trip(texts(strings@));
        },
        ResourceRecord::Unknown { name, rtype, class, ttl, data: bytes } => {
            lemma_record_front(data, pos, name, rtype, class, ttl, r.rdata());
        },
        _ => {},
    }
}

proof fn lemma_opt_round_trip(data: Seq<u8>, pos: int, r: ResourceRecord)
    requires
        r.wf(),
        r is OPT,
        holds(data, pos, r.wire()),
    ensures
        reads_back(data, pos, r),
{
    match r {
        ResourceRecord::OPT { payload_size, extended_rcode, version, dnssec_ok, data: bytes } => {
            let root = seq![0u8];
            let wire_type = u16_bytes(spec_type_code(Type::OPT));
            let wire_size = u16_bytes(payload_size);
            let wire_codes = seq![extended_rcode, version];
            let wire_flags = u16_bytes(opt_flags(dnssec_ok));
            let wire_len = u16_bytes(bytes@.len() as u16);
            lemma_u16_round_trip(spec_type_code(Type::OPT));
            lemma_u16_round_trip(payload_size);
            lemma_u16_round_trip(opt_flags(dnssec_ok));
            lemma_holds_split(data, pos, r.head(), framed(bytes@));
            lemma_holds_split(data, pos, root + wire_type + wire_size + wire_codes, wire_flags);
            lemma_holds_split(data, pos, root + wire_type + wire_size, wire_codes);
            lemma_holds_split(data, pos, root + wire_type, wire_size);
            lemma_holds_split(data, pos, root, wire_type);
            lemma_holds_split(data, pos + 9, wire_len, bytes@);
            let none = Seq::<Seq<u8>>::empty();
            assert(wire_of(none) =~= root);
            lemma_name_at_wire(data, pos, MAX_NAME_LENGTH as int, none);
            lemma_holds_u16(data, pos + 1, spec_type_code(Type::OPT));
            lemma_holds_u16(data, pos + 3, payload_size);
            lemma_holds_u16(data, pos + 7, opt_flags(dnssec_ok));
            lemma_holds_u16(data, pos + 9, bytes@.len() as u16);
            let codes = data.subrange(pos + 5, pos + 7);
            assert(codes[0] == data[pos + 5] && codes[1] == data[pos + 6]);
            assert(opt_flags(dnssec_ok) & 0x8000 != 0 <==> dnssec_ok) by {
                assert(0x8000u16 & 0x8000 != 0) by (bit_vector);
                assert(0u16 & 0x8000 == 0) by (bit_vector);
            }
        },
        _ => {},
    }
}

/// A record that stands at `pos` is read there as it is.
pub proof fn lemma_record_round_trip(data: Seq<u8>, pos: int, r: ResourceRecord)
    requires
        r.wf(),
        holds(data, pos, r.wire()),
    ensures
        reads_back(data, pos, r),
{
    if r is A || r is AAAA {
        lemma_address_round_trip(data, pos, r);
    } else if r is CNAME || r is PTR || r is NS {
        lemma_target_round_trip(data, pos, r);
    } else if r is MX {
        lemma_mx_round_trip(data, pos, r);
    } else if r is SOA {
        lemma_soa_round_trip(data, pos, r);
    } else if r is OPT {
        lemma_opt_round_trip(data, pos, r);
    } else {
        lemma_bytes_round_trip(data, pos, r);
    }
}

/// Records that stand one after the other from `pos` on are read as they are.
pub proof fn lemma_records_round_trip(data: Seq<u8>, pos: int, records: Seq<ResourceRecord>)
    requires
        forall|i: int| 0 <= i < records.len() ==> (#[trigger] records[i]).wf(),
        holds(data, pos, records_wire(records)),
    ensures
        spec_parse_records(data, pos, records.len()) == Ok::<(Seq<RecordView>, int), ParseError>(
            (record_views(records), pos + records_wire(records).len()),
        ),
    decreases records.len(),
{
    if records.len() == 0 {
        assert(record_views(records) =~= Seq::<RecordView>::empty());
    } else {
        let first = records[0];
        let tail = records.drop_first();
        lemma_holds_split(data, pos, first.wire(), records_wire(tail));
        lemma_record_round_trip(data, pos, first);
        assert forall|i: int| 0 <= i < tail.len() implies (#[trigger] tail[i]).wf() by {
            assert(tail[i] == records[i + 1]);
        }
        lemma_records_round_trip(data, pos + first.wire().len(), tail);
        assert(seq![first@] + record_views(tail) =~= record_views(records));
    }
}

/// The sections of a message stand one after the other in its wire form.
proof fn lemma_message_sections(m: Message)
    ensures
        ({
            let data = m.wire();
            let at_questions = m.counted_header().wire().len() as int;
            let at_answers = at_questions + questions_wire(m.questions@).len();
            let at_authorities = at_answers + records_wire(m.answers@).len();
            let at_additionals = at_authorities + records_wire(m.authorities@).len();
            &&& data == m.counted_header().wire() + data.skip(at_questions)
            &&& holds(data, at_questions, questions_wire(m.questions@))
            &&& holds(data, at_answers, records_wire(m.answers@))
            &&& holds(data, at_authorities, records_wire(m.authorities@))
            &&& holds(data, at_additionals, records_wire(m.additionals@))
            &&& at_additionals + records_wire(m.additionals@).len() == data.len()
        }),
{
    let data = m.wire();
    let header = m.counted_header().wire();
    let questions = questions_wire(m.questions@);
    let answers = records_wire(m.answers@);
    let authorities = records_wire(m.authorities@);
    let additionals = records_wire(m.additionals@);
    assert(data.subrange(0, data.len() as int) =~= data);
    assert(holds(data, 0, data));
    lemma_holds_split(data, 0, header + questions + answers + authorities, additionals);
    lemma_holds_split(data, 0, header + questions + answers, authorities);
    lemma_holds_split(data, 0, header + questions, answers);
    lemma_holds_split(data, 0, header, questions);
    assert(data =~= header + data.skip(header.len() as int));
}

/// The message that is decoded where the header and the four sections are
/// read one after the other and the last ends with the data.
proof fn lemma_decode_sections(
    data: Seq<u8>,
    header: Header,
    questions: Seq<QuestionView>,
    answers: Seq<RecordView>,
    authorities: Seq<RecordView>,
    additionals: Seq<RecordView>,
    at_answers: int,
    at_authorities: int,
    at_additionals: int,
)
    requires
        spec_parse_header(data) == Ok::<Header, ParseError>(header),
        spec_parse_questions(data, 12, header.question_count as nat) == Ok::<
            (Seq<QuestionView>, int),
            ParseError,
        >((questions, at_answers)),
        spec_parse_records(data, at_answers, header.answer_count as nat) == Ok::<
            (Seq<RecordView>, int),
            ParseError,
        >((answers, at_authorities)),
        spec_parse_records(data, at_authorities, header.ns_count as nat) == Ok::<
            (Seq<RecordView>, int),
            ParseError,
        >((authorities, at_additionals)),
        spec_parse_records(data, at_additionals, header.additional_count as nat) == Ok::<
            (Seq<RecordView>, int),
            ParseError,
        >((additionals, data.len() as int)),
    ensures
        spec_decode(data) == Ok::<MessageView, ParseError>(
            MessageView { header, questions, answers, authorities, additionals },
        ),
{
}

/// Decoding the bytes of a well-formed message gives back the message.
pub proof fn lemma_message_round_trip(m: Message)
    requires
        m.wf(),
    ensures
        spec_decode(m.wire()) == Ok::<MessageView, ParseError>(m@),
{
    let data = m.wire();
    assert(m.counted_header() == m.header);
    lemma_message_sections(m);
    lemma_header_round_trip(m.header, data.skip(12));
    let at_answers: int = 12 + questions_wire(m.questions@).len() as int;
    let at_authorities: int = at_answers + records_wire(m.answers@).len();
    let at_additionals: int = at_authorities + records_wire(m.authorities@).len();
    lemma_questions_round_trip(data, 12, m.questions@);
    lemma_records_round_trip(data, at_answers, m.answers@);
    lemma_records_round_trip(data, at_authorities, m.authorities@);
    lemma_records_round_trip(data, at_additionals, m.additionals@);
    lemma_decode_sections(
        data,
        m.header,
        question_views(m.questions@),
        record_views(m.answers@),
        record_views(m.authorities@),
        record_views(m.additionals@),
        at_answers,
        at_authorities,
        at_additionals,
    );
}

} // verus!
