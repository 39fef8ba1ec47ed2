//! Encoding of whole messages.

use crate::errors::WriteError;
use crate::header::Header;
use crate::message::{questions_wire, records_error, records_wire, Message};
use crate::question::Question;
use crate::rr::{ResourceRecord, MAX_U16};
use vstd::prelude::*;

verus! {

/// Appends the questions, one after the other.
fn write_questions(questions: &Vec<Question>, out: &mut Vec<u8>)
    ensures
        final(out)@ == old(out)@ + questions_wire(questions@),
{
    let mut i: usize = 0;
    proof {
        assert(questions@.skip(0) =~= questions@);
    }
    while i < questions.len()
        invariant
            i <= questions@.len(),
            old(out)@ + questions_wire(questions@) == out@ + questions_wire(
                questions@.skip(i as int),
            ),
        decreases questions@.len() - i,
    {
        let ghost before = out@;
        let ghost rest = questions@.skip(i as int);
        questions[i].write_to(out);
        proof {
            assert(rest.drop_first() =~= questions@.skip(i + 1));
            assert(before + questions_wire(rest) =~= out@ + questions_wire(questions@.skip(i + 1)));
        }
        i += 1;
    }
    proof {
        assert(questions_wire(questions@.skip(i as int)) =~= Seq::<u8>::empty());
        assert(out@ =~= old(out)@ + questions_wire(questions@));
    }
}

/// `longer` begins with `shorter`.
pub open spec fn begins_with(longer: Seq<u8>, shorter: Seq<u8>) -> bool {
    shorter.len() <= longer.len() && longer.subrange(0, shorter.len() as int) == shorter
}

/// What begins with a sequence that begins with another begins with the other.
pub proof fn lemma_begins_with(a: Seq<u8>, b: Seq<u8>, c: Seq<u8>)
    requires
        begins_with(a, b),
        begins_with(b, c),
    ensures
        begins_with(a, c),
{
    assert(a.subrange(0, c.len() as int) =~= a.subrange(0, b.len() as int).subrange(
        0,
        c.len() as int,
    ));
}

/// A sequence with something appended begins with the sequence.
pub proof fn lemma_begins_with_appended(a: Seq<u8>, b: Seq<u8>)
    ensures
        begins_with(a + b, a),
{
    assert((a + b).subrange(0, a.len() as int) =~= a);
}

/// Appends the records, one after the other, up to the first that cannot be
/// written.
fn write_records(records: &Vec<ResourceRecord>, out: &mut Vec<u8>) -> (r: Result<(), WriteError>)
    ensures
        match records_error(records@) {
            None => r is Ok && final(out)@ == old(out)@ + records_wire(records@),
            Some(e) => r == Err::<(), WriteError>(e) && begins_with(final(out)@, old(out)@),
        },
{
    let mut i: usize = 0;
    proof {
        assert(records@.skip(0) =~= records@);
        assert(out@.subrange(0, old(out)@.len() as int) =~= old(out)@);
    }
    while i < records.len()
        invariant
            i <= records@.len(),
            records_error(records@) == records_error(records@.skip(i as int)),
            old(out)@ + records_wire(records@) == out@ + records_wire(records@.skip(i as int)),
            begins_with(out@, old(out)@),
        decreases records@.len() - i,
    {
        let ghost before = out@;
        let ghost rest = records@.skip(i as int);
        proof {
            assert(rest[0] == records@[i as int]);
            assert(rest.drop_first() =~= records@.skip(i + 1));
        }
        match records[i].write_to(out) {
            Ok(()) => {},
            Err(e) => {
                return Err(e);
            },
        }
        proof {
            assert(before + records_wire(rest) =~= out@ + records_wire(records@.skip(i + 1)));
            lemma_begins_with_appended(before, records@[i as int].wire());
            lemma_begins_with(out@, before, old(out)@);
        }
        i += 1;
    }
    proof {
        assert(records_wire(records@.skip(i as int)) =~= Seq::<u8>::empty());
        assert(out@ =~= old(out)@ + records_wire(records@));
    }
    Ok(())
}

impl Message {
    /// Appends the message, up to the first record that cannot be written.
    fn write_sections(&self, out: &mut Vec<u8>) -> (r: Result<(), WriteError>)
        requires
            self.questions@.len() <= MAX_U16,
            self.answers@.len() <= MAX_U16,
            self.authorities@.len() <= MAX_U16,
            self.additionals@.len() <= MAX_U16,
        ensures
            match self.sections_error() {
                None => r is Ok && final(out)@ == old(out)@ + self.wire(),
                Some(e) => r == Err::<(), WriteError>(e) && begins_with(final(out)@, old(out)@),
            },
    {
        let header = Header {
            question_count: self.questions.len() as u16,
            answer_count: self.answers.len() as u16,
            ns_count: self.authorities.len() as u16,
            additional_count: self.additionals.len() as u16,
            ..self.header
        };
        header.write_to(out);
        let ghost with_header = out@;
        write_questions(&self.questions, out);
        let ghost front = out@;
        proof {
            lemma_begins_with_appended(old(out)@, header.wire());
            lemma_begins_with_appended(with_header, questions_wire(self.questions@));
            lemma_begins_with(front, with_header, old(out)@);
        }
        let answers = write_records(&self.answers, out);
        let ghost with_answers = out@;
        proof {
            if answers is Ok {
                lemma_begins_with_appended(front, records_wire(self.answers@));
            }
            lemma_begins_with(with_answers, front, old(out)@);
        }
        if let Err(e) = answers {
            return Err(e);
        }
        let authorities = write_records(&self.authorities, out);
        let ghost with_authorities = out@;
        proof {
            if authorities is Ok {
                lemma_begins_with_appended(with_answers, records_wire(self.authorities@));
            }
            lemma_begins_with(with_authorities, with_answers, old(out)@);
        }
        if let Err(e) = authorities {
            return Err(e);
        }
        let additionals = write_records(&self.additionals, out);
        proof {
            if additionals is Ok {
                lemma_begins_with_appended(with_authorities, records_wire(self.additionals@));
            }
            lemma_begins_with(out@, with_authorities, old(out)@);
        }
        if let Err(e) = additionals {
            return Err(e);
        }
        proof {
            assert(out@ =~= old(out)@ + self.wire());
        }
        Ok(())
    }

    /// Appends the message: the header with the lengths of the four lists as
    /// its counts, then the questions, the answers, the authority records and
    /// the additional records. Where the message cannot be written, `out` is
    /// left as it was.
    pub fn write_to(&self, out: &mut Vec<u8>) -> (r: Result<(), WriteError>)
        ensures
            match self.write_error() {
                None => r is Ok && final(out)@ == old(out)@ + self.wire(),
                Some(e) => r == Err::<(), WriteError>(e) && final(out)@ == old(out)@,
            },
    {
        if self.questions.len() > MAX_U16 || self.answers.len() > MAX_U16
            || self.authorities.len() > MAX_U16 || self.additionals.len() > MAX_U16 {
            return Err(WriteError::TooManyEntries);
        }
        let origin = out.len();
        match self.write_sections(out) {
            Ok(()) => Ok(()),
            Err(e) => {
                out.truncate(origin);
                Err(e)
            },
        }
    }

    /// Encodes a `Message` into a stream of bytes.
    pub fn encode(&self) -> (bytes: Vec<u8>)
        requires
            self.fits(),
        ensures
            bytes@ == self.wire(),
    {
        let mut out: Vec<u8> = Vec::new();
        match self.write_to(&mut out) {
            Ok(()) => {},
            Err(_) => {},
        }
        proof {
            assert(out@ =~= self.wire());
        }
        out
    }
}

} // verus!
