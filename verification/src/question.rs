//! The question section of a message.

use crate::bytes::{be_u16, put_u16, u16_at, u16_bytes};
use crate::errors::ParseError;
use crate::names::text::{spells, text_error};
use crate::names::wire::{parse_name, spec_parse_name};
use crate::names::{Name, NameParseError};
use crate::rr::{
    class_code, class_from, spec_class_code, spec_class_from, spec_type_code, spec_type_from,
    type_code, type_from, Class, Type,
};
use vstd::prelude::*;

verus! {

/// The scope of query to execute.
#[derive(Debug, Clone, PartialEq, Eq, Copy)]
pub enum QType {
    /// The type of record being queried.
    ByType(Type),
    /// A query requesting all records for a name.
    Any,
}

/// Describes a DNS query.
#[derive(Debug, Clone, PartialEq, Eq)]
pub struct Question {
    /// The name that is asked about.
    pub qname: Name,
    /// The type of record that is asked for.
    pub qtype: QType,
    /// The class that is asked in.
    pub qclass: Class,
}

/// What a question says, the name as its labels.
pub struct QuestionView {
    pub qname: Seq<Seq<u8>>,
    pub qtype: QType,
    pub qclass: Class,
}

/// The code of the pseudo-type that asks for all records.
pub const ANY: u16 = 255;

/// The query type that a 16-bit code stands for.
pub open spec fn spec_qtype_from(value: u16) -> QType {
    if value == ANY {
        QType::Any
    } else {
        QType::ByType(spec_type_from(value))
    }
}

/// The 16-bit code of a query type.
pub open spec fn spec_qtype_code(qtype: QType) -> u16 {
    match qtype {
        QType::Any => ANY,
        QType::ByType(t) => spec_type_code(t),
    }
}

impl QType {
    /// The query type is the one that its code stands for.
    pub open spec fn wf(self) -> bool {
        spec_qtype_from(spec_qtype_code(self)) == self
    }
}

/// The query type that a 16-bit code stands for.
pub fn qtype_from(value: u16) -> (qtype: QType)
    ensures
        qtype == spec_qtype_from(value),
        qtype.wf(),
        spec_qtype_code(qtype) == value,
{
    match type_from(value) {
        Type::Unknown { value: 255 } => QType::Any,
        t => QType::ByType(t),
    }
}

/// The 16-bit code of a query type.
pub fn qtype_code(qtype: QType) -> (value: u16)
    ensures
        value == spec_qtype_code(qtype),
{
    match qtype {
        QType::Any => ANY,
        QType::ByType(t) => type_code(t),
    }
}

impl View for Question {
    type V = QuestionView;

    open spec fn view(&self) -> QuestionView {
        QuestionView { qname: self.qname@, qtype: self.qtype, qclass: self.qclass }
    }
}

/// The question that starts at `pos` of the message `data`, and the position
/// behind it.
pub open spec fn spec_parse_question(data: Seq<u8>, pos: int) -> Result<
    (QuestionView, int),
    ParseError,
> {
    match spec_parse_name(data, pos) {
        Err(e) => Err(e),
        Ok((qname, at_type)) => if at_type + 4 > data.len() {
            Err(ParseError::Incomplete)
        } else {
            Ok(
                (
                    QuestionView {
                        qname,
                        qtype: spec_qtype_from(u16_at(data, at_type)),
                        qclass: spec_class_from(u16_at(data, at_type + 2)),
                    },
                    at_type + 4,
                ),
            )
        },
    }
}

impl Question {
    /// The question on the wire: the name, the type and the class.
    pub open spec fn wire(&self) -> Seq<u8> {
        self.qname.name@ + u16_bytes(spec_qtype_code(self.qtype)) + u16_bytes(
            spec_class_code(self.qclass),
        )
    }

    /// The name, the type and the class are well-formed.
    pub open spec fn wf(&self) -> bool {
        self.qname.wf() && self.qtype.wf() && self.qclass.wf()
    }

    /// Create a `Question` in the Internet class, from the text of a name.
    pub fn new(qname: &str, qtype: QType) -> (r: Result<Question, NameParseError>)
        ensures
            match r {
                Ok(q) => {
                    &&& text_error(qname@) is None
                    &&& q.qname.wf()
                    &&& spells(qname@, q.qname@)
                    &&& q.qtype == qtype
                    &&& q.qclass == Class::Internet
                },
                Err(e) => text_error(qname@) == Some(e),
            },
    {
        match Name::from_str(qname) {
            Ok(name) => Ok(Question { qname: name, qtype, qclass: Class::Internet }),
            Err(e) => Err(e),
        }
    }

    /// Appends the question.
    pub fn write_to(&self, out: &mut Vec<u8>)
        ensures
            final(out)@ == old(out)@ + self.wire(),
    {
        self.qname.write_to(out);
        put_u16(out, qtype_code(self.qtype));
        put_u16(out, class_code(self.qclass));
        proof {
            assert(out@ =~= old(out)@ + self.wire());
        }
    }
}

/// Parses the question that starts at `pos` of the message `data`. Returns
/// the question and the number of bytes that it takes.
pub fn parse_question(data: &[u8], pos: usize) -> (r: Result<(Question, usize), ParseError>)
    ensures
        match r {
            Ok((q, used)) => {
                &&& spec_parse_question(data@, pos as int) == Ok::<(QuestionView, int), ParseError>(
                    (q@, pos + used),
                )
                &&& q.wf()
                &&& pos + used <= data@.len()
            },
            Err(e) => spec_parse_question(data@, pos as int) == Err::<
                (QuestionView, int),
                ParseError,
            >(e),
        },
{
    let (qname, used) = parse_name(data, pos)?;
    assert(pos + used <= data.len());
    let at_type = pos + used;
    if data.len() - at_type < 4 {
        return Err(ParseError::Incomplete);
    }
    let qtype = be_u16(data, at_type)?;
    let qclass = be_u16(data, at_type + 2)?;
    Ok((Question { qname, qtype: qtype_from(qtype), qclass: class_from(qclass) }, used + 4))
}

impl From<u16> for QType {
    /// The query type that a 16-bit code stands for.
    fn from(value: u16) -> (r: QType) {
        qtype_from(value)
    }
}

impl vstd::std_specs::convert::FromSpecImpl<u16> for QType {
    open spec fn obeys_from_spec() -> bool {
        true
    }

    open spec fn from_spec(value: u16) -> QType {
        spec_qtype_from(value)
    }
}

impl From<QType> for u16 {
    /// The 16-bit code of a query type.
    fn from(value: QType) -> (r: u16) {
        qtype_code(value)
    }
}

impl vstd::std_specs::convert::FromSpecImpl<QType> for u16 {
    open spec fn obeys_from_spec() -> bool {
        true
    }

    open spec fn from_spec(value: QType) -> u16 {
        spec_qtype_code(value)
    }
}


} // verus!
