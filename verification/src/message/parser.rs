//! Decoding of whole messages.

use crate::errors::ParseError;
use crate::header::{parse_header, HEADER_LENGTH};
use crate::message::{
    question_views, questions_after, record_views, records_after, spec_decode,
    spec_parse_message, spec_parse_questions, spec_parse_records, Message, MessageView,
};
use crate::question::{parse_question, Question, QuestionView};
use crate::rr::parser::parse_record;
use crate::rr::{RecordView, ResourceRecord};
use vstd::prelude::*;

verus! {

/// Parses `count` questions from `pos` on. Returns them and the position
/// behind the last.
fn parse_questions(data: &[u8], pos: usize, count: u16) -> (r: Result<
    (Vec<Question>, usize),
    ParseError,
>)
    ensures
        match r {
            Ok((questions, end)) => {
                &&& spec_parse_questions(data@, pos as int, count as nat) == Ok::<
                    (Seq<QuestionView>, int),
                    ParseError,
                >((question_views(questions@), end as int))
                &&& questions@.len() == count
                &&& forall|i: int| 0 <= i < questions@.len() ==> (#[trigger] questions@[i]).wf()
                &&& count > 0 ==> end <= data@.len()
                &&& count == 0 ==> end == pos
            },
            Err(e) => spec_parse_questions(data@, pos as int, count as nat) == Err::<
                (Seq<QuestionView>, int),
                ParseError,
            >(e),
        },
{
    let mut questions: Vec<Question> = Vec::new();
    let mut cur = pos;
    let mut i: u16 = 0;
    proof {
        if let Ok((all, end)) = spec_parse_questions(data@, pos as int, count as nat) {
            assert(question_views(questions@) + all =~= all);
        }
    }
    while i < count
        invariant
            i <= count,
            questions@.len() == i,
            forall|k: int| 0 <= k < questions@.len() ==> (#[trigger] questions@[k]).wf(),
            i > 0 ==> cur <= data@.len(),
            i == 0 ==> cur == pos,
            spec_parse_questions(data@, pos as int, count as nat) == questions_after(
                question_views(questions@),
                spec_parse_questions(data@, cur as int, (count - i) as nat),
            ),
        decreases count - i,
    {
        let (question, used) = parse_question(data, cur)?;
        assert(cur + used <= data.len());
        let ghost before = question_views(questions@);
        questions.push(question);
        proof {
            let first = questions@[i as int]@;
            assert(question_views(questions@) =~= before.push(first));
            if let Ok((rest, end)) = spec_parse_questions(
                data@,
                cur + used,
                (count - i - 1) as nat,
            ) {
                assert(before + (seq![first] + rest) =~= before.push(first) + rest);
            }
        }
        cur = cur + used;
        i += 1;
    }
    proof {
        assert(question_views(questions@) + Seq::<QuestionView>::empty() =~= question_views(
            questions@,
        ));
    }
    Ok((questions, cur))
}

/// Parses `count` records from `pos` on. Returns them and the position behind
/// the last.
fn parse_records(data: &[u8], pos: usize, count: u16) -> (r: Result<
    (Vec<ResourceRecord>, usize),
    ParseError,
>)
    ensures
        match r {
            Ok((records, end)) => {
                &&& spec_parse_records(data@, pos as int, count as nat) == Ok::<
                    (Seq<RecordView>, int),
                    ParseError,
                >((record_views(records@), end as int))
                &&& records@.len() == count
                &&& forall|i: int| 0 <= i < records@.len() ==> (#[trigger] records@[i]).wf()
                &&& count > 0 ==> end <= data@.len()
                &&& count == 0 ==> end == pos
            },
            Err(e) => spec_parse_records(data@, pos as int, count as nat) == Err::<
                (Seq<RecordView>, int),
                ParseError,
            >(e),
        },
{
    let mut records: Vec<ResourceRecord> = Vec::new();
    let mut cur = pos;
    let mut i: u16 = 0;
    proof {
        if let Ok((all, end)) = spec_parse_records(data@, pos as int, count as nat) {
            assert(record_views(records@) + all =~= all);
        }
    }
    while i < count
        invariant
            i <= count,
            records@.len() == i,
            forall|k: int| 0 <= k < records@.len() ==> (#[trigger] records@[k]).wf(),
            i > 0 ==> cur <= data@.len(),
            i == 0 ==> cur == pos,
            spec_parse_records(data@, pos as int, count as nat) == records_after(
                record_views(records@),
                spec_parse_records(data@, cur as int, (count - i) as nat),
            ),
        decreases count - i,
    {
        let (record, used) = parse_record(data, cur)?;
        assert(cur + used <= data.len());
        let ghost before = record_views(records@);
        records.push(record);
        proof {
            let first = records@[i as int]@;
            assert(record_views(records@) =~= before.push(first));
            if let Ok((rest, end)) = spec_parse_records(data@, cur + used, (count - i - 1) as nat) {
                assert(before + (seq![first] + rest) =~= before.push(first) + rest);
            }
        }
        cur = cur + used;
        i += 1;
    }
    proof {
        assert(record_views(records@) + Seq::<RecordView>::empty() =~= record_views(records@));
    }
    Ok((records, cur))
}

/// Parses the message at the start of `data`. Returns the message and the
/// number of bytes that it takes; what follows them is not looked at.
pub fn do_parse_message(data: &[u8]) -> (r: Result<(Message, usize), ParseError>)
    ensures
        match r {
            Ok((message, used)) => {
                &&& spec_parse_message(data@) == Ok::<(MessageView, int), ParseError>(
                    (message@, used as int),
                )
                &&& message.wf()
                &&& used <= data@.len()
            },
            Err(e) => spec_parse_message(data@) == Err::<(MessageView, int), ParseError>(e),
        },
{
    let header = parse_header(data)?;
    let (questions, at_answers) = parse_questions(data, HEADER_LENGTH, header.question_count)?;
    let (answers, at_authorities) = parse_records(data, at_answers, header.answer_count)?;
    let (authorities, at_additionals) = parse_records(data, at_authorities, header.ns_count)?;
    let (additionals, end) = parse_records(data, at_additionals, header.additional_count)?;
    Ok((Message { header, questions, answers, authorities, additionals }, end))
}

/// Parses the message at the start of `data`; what follows it is not looked
/// at.
pub fn parse_message(data: &[u8]) -> (r: Result<Message, ParseError>)
    ensures
        match r {
            Ok(message) => spec_parse_message(data@) is Ok && spec_parse_message(data@)->Ok_0.0
                == message@ && message.wf(),
            Err(e) => spec_parse_message(data@) == Err::<(MessageView, int), ParseError>(e),
        },
{
    match do_parse_message(data) {
        Ok((message, _)) => Ok(message),
        Err(e) => Err(e),
    }
}

impl Message {
    /// Parses the given message data into a `Message` object; what follows
    /// the message is not looked at.
    pub fn parse(data: &[u8]) -> (r: Result<Message, ParseError>)
        ensures
            match r {
                Ok(message) => spec_parse_message(data@) is Ok && spec_parse_message(
                    data@,
                )->Ok_0.0 == message@ && message.wf(),
                Err(e) => spec_parse_message(data@) == Err::<(MessageView, int), ParseError>(e),
            },
    {
        parse_message(data)
    }

    /// Decodes a datagram: one message from the first byte to the last.
    pub fn decode(buf: &[u8]) -> (r: Result<Message, ParseError>)
        ensures
            match r {
                Ok(message) => spec_decode(buf@) == Ok::<MessageView, ParseError>(message@)
                    && message.wf(),
                Err(e) => spec_decode(buf@) == Err::<MessageView, ParseError>(e),
            },
    {
        let (message, used) = do_parse_message(buf)?;
        if used != buf.len() {
            return Err(ParseError::TrailingBytes(buf.len() - used));
        }
        Ok(message)
    }
}

} // verus!
