//! Whole messages: the header, the questions and three sections of records.

use crate::errors::{ParseError, WriteError};
use crate::header::{spec_parse_header, Header, Opcode, Rcode, HEADER_LENGTH};
use crate::question::{spec_parse_question, Question, QuestionView};
use crate::rr::parser::spec_parse_record;
use crate::rr::{RecordView, ResourceRecord, MAX_U16};
use vstd::prelude::*;

pub mod parser;
pub mod writer;

verus! {

/// Describes a DNS query or response.
#[derive(Debug, Clone, PartialEq, Eq)]
pub struct Message {
    /// The header. On the wire its four counts are the lengths of the four
    /// lists below, whatever it holds here.
    pub header: Header,
    /// The question(s) for the name server.
    pub questions: Vec<Question>,
    /// Resource records answering the question.
    pub answers: Vec<ResourceRecord>,
    /// Resource records pointing toward an authority.
    pub authorities: Vec<ResourceRecord>,
    /// Resource records holding additional information.
    pub additionals: Vec<ResourceRecord>,
}

/// What a message says.
pub struct MessageView {
    pub header: Header,
    pub questions: Seq<QuestionView>,
    pub answers: Seq<RecordView>,
    pub authorities: Seq<RecordView>,
    pub additionals: Seq<RecordView>,
}

/// What a list of questions says.
pub open spec fn question_views(questions: Seq<Question>) -> Seq<QuestionView> {
    questions.map_values(|q: Question| q@)
}

/// What a list of records says.
pub open spec fn record_views(records: Seq<ResourceRecord>) -> Seq<RecordView> {
    records.map_values(|r: ResourceRecord| r@)
}

/// The questions on the wire, one after the other.
pub open spec fn questions_wire(questions: Seq<Question>) -> Seq<u8>
    decreases questions.len(),
{
    if questions.len() == 0 {
        Seq::empty()
    } else {
        questions[0].wire() + questions_wire(questions.drop_first())
    }
}

/// The records on the wire, one after the other.
pub open spec fn records_wire(records: Seq<ResourceRecord>) -> Seq<u8>
    decreases records.len(),
{
    if records.len() == 0 {
        Seq::empty()
    } else {
        records[0].wire() + records_wire(records.drop_first())
    }
}

/// Why the first record that cannot be written cannot be, or nothing.
pub open spec fn records_error(records: Seq<ResourceRecord>) -> Option<WriteError>
    decreases records.len(),
{
    if records.len() == 0 {
        None
    } else if records[0].write_error() is Some {
        records[0].write_error()
    } else {
        records_error(records.drop_first())
    }
}

/// The `count` questions that start at `pos`, and the position behind them.
pub open spec fn spec_parse_questions(data: Seq<u8>, pos: int, count: nat) -> Result<
    (Seq<QuestionView>, int),
    ParseError,
>
    decreases count,
{
    if count == 0 {
        Ok((Seq::empty(), pos))
    } else {
        match spec_parse_question(data, pos) {
            Err(e) => Err(e),
            Ok((first, next)) => match spec_parse_questions(data, next, (count - 1) as nat) {
                Err(e) => Err(e),
                Ok((rest, end)) => Ok((seq![first] + rest, end)),
            },
        }
    }
}

/// The `count` records that start at `pos`, and the position behind them.
pub open spec fn spec_parse_records(data: Seq<u8>, pos: int, count: nat) -> Result<
    (Seq<RecordView>, int),
    ParseError,
>
    decreases count,
{
    if count == 0 {
        Ok((Seq::empty(), pos))
    } else {
        match spec_parse_record(data, pos) {
            Err(e) => Err(e),
            Ok((first, next)) => match spec_parse_records(data, next, (count - 1) as nat) {
                Err(e) => Err(e),
                Ok((rest, end)) => Ok((seq![first] + rest, end)),
            },
        }
    }
}

/// The message at the start of `data`, and the position behind it: the
/// header, then as many questions, answers, authority records and additional
/// records as the header counts, all read against the whole of `data`.
pub open spec fn spec_parse_message(data: Seq<u8>) -> Result<(MessageView, int), ParseError> {
    match spec_parse_header(data) {
        Err(e) => Err(e),
        Ok(header) => match spec_parse_questions(
            data,
            HEADER_LENGTH as int,
            header.question_count as nat,
        ) {
            Err(e) => Err(e),
            Ok((questions, at_answers)) => match spec_parse_records(
                data,
                at_answers,
                header.answer_count as nat,
            ) {
                Err(e) => Err(e),
                Ok((answers, at_authorities)) => match spec_parse_records(
                    data,
                    at_authorities,
                    header.ns_count as nat,
                ) {
                    Err(e) => Err(e),
                    Ok((authorities, at_additionals)) => match spec_parse_records(
                        data,
                        at_additionals,
                        header.additional_count as nat,
                    ) {
                        Err(e) => Err(e),
                        Ok((additionals, end)) => Ok(
                            (
                                MessageView { header, questions, answers, authorities, additionals },
                                end,
                            ),
                        ),
                    },
                },
            },
        },
    }
}

/// The message that `data` holds from its first byte to its last. A datagram
/// carries one message and nothing else: bytes behind the last section are an
/// error.
pub open spec fn spec_decode(data: Seq<u8>) -> Result<MessageView, ParseError> {
    match spec_parse_message(data) {
        Err(e) => Err(e),
        Ok((message, end)) => if end == data.len() {
            Ok(message)
        } else {
            Err(ParseError::TrailingBytes((data.len() - end) as usize))
        },
    }
}

/// The questions read before, followed by those that are still to come.
pub open spec fn questions_after(
    done: Seq<QuestionView>,
    rest: Result<(Seq<QuestionView>, int), ParseError>,
) -> Result<(Seq<QuestionView>, int), ParseError> {
    match rest {
        Ok((questions, end)) => Ok((done + questions, end)),
        Err(e) => Err(e),
    }
}

/// The records read before, followed by those that are still to come.
pub open spec fn records_after(
    done: Seq<RecordView>,
    rest: Result<(Seq<RecordView>, int), ParseError>,
) -> Result<(Seq<RecordView>, int), ParseError> {
    match rest {
        Ok((records, end)) => Ok((done + records, end)),
        Err(e) => Err(e),
    }
}

impl View for Message {
    type V = MessageView;

    open spec fn view(&self) -> MessageView {
        MessageView {
            header: self.header,
            questions: question_views(self.questions@),
            answers: record_views(self.answers@),
            authorities: record_views(self.authorities@),
            additionals: record_views(self.additionals@),
        }
    }
}

impl Message {
    /// The header as it is written: with the lengths of the four lists as
    /// its counts.
    pub open spec fn counted_header(&self) -> Header {
        Header {
            question_count: self.questions@.len() as u16,
            answer_count: self.answers@.len() as u16,
            ns_count: self.authorities@.len() as u16,
            additional_count: self.additionals@.len() as u16,
            ..self.header
        }
    }

    /// The message on the wire.
    pub open spec fn wire(&self) -> Seq<u8> {
        self.counted_header().wire() + questions_wire(self.questions@) + records_wire(
            self.answers@,
        ) + records_wire(self.authorities@) + records_wire(self.additionals@)
    }

    /// Why a record of the message cannot be written, or nothing.
    pub open spec fn sections_error(&self) -> Option<WriteError> {
        if records_error(self.answers@) is Some {
            records_error(self.answers@)
        } else if records_error(self.authorities@) is Some {
            records_error(self.authorities@)
        } else {
            records_error(self.additionals@)
        }
    }

    /// Why the message cannot be written: a list is longer than its count
    /// can say, or else what is wrong with the first record that cannot be
    /// written; or nothing.
    pub open spec fn write_error(&self) -> Option<WriteError> {
        if self.questions@.len() > MAX_U16 || self.answers@.len() > MAX_U16
            || self.authorities@.len() > MAX_U16 || self.additionals@.len() > MAX_U16 {
            Some(WriteError::TooManyEntries)
        } else {
            self.sections_error()
        }
    }

    /// The message can be written.
    pub open spec fn fits(&self) -> bool {
        self.write_error() is None
    }

    /// The counts of the header are the lengths of the lists.
    pub open spec fn counts_match(&self) -> bool {
        &&& self.header.question_count == self.questions@.len()
        &&& self.header.answer_count == self.answers@.len()
        &&& self.header.ns_count == self.authorities@.len()
        &&& self.header.additional_count == self.additionals@.len()
    }

    /// The message can be written, and reading it back gives the same
    /// message: the counts of the header are the lengths of the lists, and
    /// every part is well-formed.
    pub open spec fn wf(&self) -> bool {
        &&& self.header.wf()
        &&& self.counts_match()
        &&& forall|i: int| 0 <= i < self.questions@.len() ==> (#[trigger] self.questions@[i]).wf()
        &&& forall|i: int| 0 <= i < self.answers@.len() ==> (#[trigger] self.answers@[i]).wf()
        &&& forall|i: int|
            0 <= i < self.authorities@.len() ==> (#[trigger] self.authorities@[i]).wf()
        &&& forall|i: int|
            0 <= i < self.additionals@.len() ==> (#[trigger] self.additionals@[i]).wf()
    }

    /// Appends a record to the answers and counts it in the header. Where
    /// the count is at its most, the message is left as it was.
    pub fn add_answer(&mut self, record: ResourceRecord) -> (r: Result<(), WriteError>)
        ensures
            old(self).header.answer_count == MAX_U16 ==> r == Err::<(), WriteError>(
                WriteError::TooManyEntries,
            ) && *final(self) == *old(self),
            old(self).header.answer_count < MAX_U16 ==> r is Ok && *final(self) == (Message {
                header: Header {
                    answer_count: (old(self).header.answer_count + 1) as u16,
                    ..old(self).header
                },
                answers: final(self).answers,
                ..*old(self)
            }) && final(self).answers@ == old(self).answers@.push(record),
            r is Ok && old(self).wf() && record.wf() ==> final(self).wf(),
    {
        if self.header.answer_count == 0xffff {
            return Err(WriteError::TooManyEntries);
        }
        self.header.answer_count = self.header.answer_count + 1;
        self.answers.push(record);
        Ok(())
    }

    /// Appends a record to the authority records and counts it in the
    /// header. Where the count is at its most, the message is left as it was.
    pub fn add_authority(&mut self, record: ResourceRecord) -> (r: Result<(), WriteError>)
        ensures
            old(self).header.ns_count == MAX_U16 ==> r == Err::<(), WriteError>(
                WriteError::TooManyEntries,
            ) && *final(self) == *old(self),
            old(self).header.ns_count < MAX_U16 ==> r is Ok && *final(self) == (Message {
                header: Header {
                    ns_count: (old(self).header.ns_count + 1) as u16,
                    ..old(self).header
                },
                authorities: final(self).authorities,
                ..*old(self)
            }) && final(self).authorities@ == old(self).authorities@.push(record),
            r is Ok && old(self).wf() && record.wf() ==> final(self).wf(),
    {
        if self.header.ns_count == 0xffff {
            return Err(WriteError::TooManyEntries);
        }
        self.header.ns_count = self.header.ns_count + 1;
        self.authorities.push(record);
        Ok(())
    }

    /// Appends a record to the additional records and counts it in the
    /// header. Where the count is at its most, the message is left as it was.
    pub fn add_additional(&mut self, record: ResourceRecord) -> (r: Result<(), WriteError>)
        ensures
            old(self).header.additional_count == MAX_U16 ==> r == Err::<(), WriteError>(
                WriteError::TooManyEntries,
            ) && *final(self) == *old(self),
            old(self).header.additional_count < MAX_U16 ==> r is Ok && *final(self) == (Message {
                header: Header {
                    additional_count: (old(self).header.additional_count + 1) as u16,
                    ..old(self).header
                },
                additionals: final(self).additionals,
                ..*old(self)
            }) && final(self).additionals@ == old(self).additionals@.push(record),
            r is Ok && old(self).wf() && record.wf() ==> final(self).wf(),
    {
        if self.header.additional_count == 0xffff {
            return Err(WriteError::TooManyEntries);
        }
        self.header.additional_count = self.header.additional_count + 1;
        self.additionals.push(record);
        Ok(())
    }

    /// A 16 bit identifier assigned by the program.
    pub fn id(&self) -> (r: u16)
        ensures
            r == self.header.id,
    {
        self.header.id
    }

    /// Returns `true` if this message is a query.
    pub fn is_query(&self) -> (r: bool)
        ensures
            r == !self.header.qr,
    {
        !self.is_response()
    }

    /// Returns `true` if this message is a response.
    pub fn is_response(&self) -> (r: bool)
        ensures
            r == self.header.qr,
    {
        self.header.qr
    }

    /// The type of query.
    pub fn opcode(&self) -> (r: Opcode)
        ensures
            r == self.header.opcode,
    {
        self.header.opcode
    }

    /// Whether the response is authoritative.
    pub fn authoritative(&self) -> (r: bool)
        ensures
            r == self.header.authoritative,
    {
        self.header.authoritative
    }

    /// Whether the response is truncated.
    pub fn truncated(&self) -> (r: bool)
        ensures
            r == self.header.truncated,
    {
        self.header.truncated
    }

    /// Whether recursion is desired.
    pub fn recursion_desired(&self) -> (r: bool)
        ensures
            r == self.header.recursion_desired,
    {
        self.header.recursion_desired
    }

    /// Whether recursion is available.
    pub fn recursion_available(&self) -> (r: bool)
        ensures
            r == self.header.recursion_available,
    {
        self.header.recursion_available
    }

    /// The response code.
    pub fn rcode(&self) -> (r: Rcode)
        ensures
            r == self.header.rcode,
    {
        self.header.rcode
    }

    /// Creates a `Message` for sending a standard query.
    pub fn query(id: u16, recursion_desired: bool, question: Question) -> (m: Message)
        ensures
            m.header == Header::spec_query(id, Opcode::Query, recursion_desired, 1),
            m.questions@ == seq![question],
            m.answers@.len() == 0,
            m.authorities@.len() == 0,
            m.additionals@.len() == 0,
    {
        let mut questions = Vec::new();
        questions.push(question);
        Message {
            header: Header::query(id, Opcode::Query, recursion_desired, 1),
            questions,
            answers: Vec::new(),
            authorities: Vec::new(),
            additionals: Vec::new(),
        }
    }

    /// Creates a `Message` for sending a response: it takes the questions of
    /// the query, and its header is the response to the query's header.
    pub fn response(query: Message, recursion_available: bool) -> (m: Message)
        ensures
            m.header == Header::spec_response(query.header, recursion_available),
            m.questions == query.questions,
            m.answers@.len() == 0,
            m.authorities@.len() == 0,
            m.additionals@.len() == 0,
    {
        Message {
            header: Header::response(query.header, recursion_available),
            questions: query.questions,
            answers: Vec::new(),
            authorities: Vec::new(),
            additionals: Vec::new(),
        }
    }
}

/// Records that can each be written can be written one after the other.
pub proof fn lemma_records_fit(records: Seq<ResourceRecord>)
    requires
        forall|i: int| 0 <= i < records.len() ==> (#[trigger] records[i]).fits(),
    ensures
        records_error(records) is None,
    decreases records.len(),
{
    if records.len() > 0 {
        let tail = records.drop_first();
        assert(records[0].fits());
        assert forall|i: int| 0 <= i < tail.len() implies (#[trigger] tail[i]).fits() by {
            assert(tail[i] == records[i + 1]);
        }
        lemma_records_fit(tail);
    }
}

/// A well-formed message can be written.
pub proof fn lemma_wf_fits(m: Message)
    requires
        m.wf(),
    ensures
        m.fits(),
{
    assert forall|i: int| 0 <= i < m.answers@.len() implies (#[trigger] m.answers@[i]).fits() by {
        assert(m.answers@[i].wf());
    }
    assert forall|i: int| 0 <= i < m.authorities@.len() implies (
    #[trigger] m.authorities@[i]).fits() by {
        assert(m.authorities@[i].wf());
    }
    assert forall|i: int| 0 <= i < m.additionals@.len() implies (
    #[trigger] m.additionals@[i]).fits() by {
        assert(m.additionals@[i].wf());
    }
    lemma_records_fit(m.answers@);
    lemma_records_fit(m.authorities@);
    lemma_records_fit(m.additionals@);
}

} // verus!
