//! Names on the wire, with compression pointers.
//!
//! A compression pointer continues a name at an offset of the whole message.
//! It must name an offset before itself: a name is then read in a bounded
//! number of steps, whatever the message holds, since every label read
//! takes from the 255 bytes that a name may have.

use crate::errors::ParseError;
use crate::names::{
    labels_wire, lemma_labels_of_wire, lemma_labels_wire_push, lemma_valid_name_tail,
    lemma_wire_shape, is_label_byte, valid_label, valid_name, wire_of, Name, NameParseError,
    MAX_LABEL_LENGTH, MAX_NAME_LENGTH,
};
use vstd::prelude::*;
use vstd::slice::slice_subrange;

verus! {

/// What is wrong with the bytes of a label from index `i` on: the first byte
/// that is no letter, digit or hyphen, or a hyphen in front; or nothing.
pub open spec fn label_error_from(label: Seq<u8>, i: int) -> Option<NameParseError>
    decreases label.len() - i,
{
    if i < 0 || i >= label.len() {
        None
    } else if i == 0 && label[i] == 0x2d {
        Some(NameParseError::HypenFirstCharacterInLabel)
    } else if is_label_byte(label[i]) {
        label_error_from(label, i + 1)
    } else {
        Some(NameParseError::InvalidCharacter(label[i] as char))
    }
}

/// What is wrong with the bytes of a label, or nothing.
pub open spec fn label_error(label: Seq<u8>) -> Option<NameParseError> {
    label_error_from(label, 0)
}

/// The name that starts at `pos`, read with `room` bytes of wire form left to
/// fill: its labels, and the position behind what was read in place. A
/// compression pointer continues the name at an earlier offset of `data`, and
/// the two bytes of the first pointer end what is read in place.
pub open spec fn name_at(data: Seq<u8>, pos: int, room: int) -> Result<
    (Seq<Seq<u8>>, int),
    ParseError,
>
    decreases room, pos,
{
    if pos < 0 || pos >= data.len() {
        Err(ParseError::Incomplete)
    } else if data[pos] == 0 {
        Ok((Seq::empty(), pos + 1))
    } else if data[pos] <= MAX_LABEL_LENGTH {
        let len = data[pos] as int;
        let label = data.subrange(pos + 1, pos + 1 + len);
        if room < len + 2 {
            Err(
                ParseError::NameError(
                    NameParseError::TotalLengthGreaterThan255(
                        (MAX_NAME_LENGTH - room + len + 2) as usize,
                    ),
                ),
            )
        } else if pos + 1 + len > data.len() {
            Err(ParseError::Incomplete)
        } else if label_error(label) is Some {
            Err(ParseError::NameError(label_error(label)->0))
        } else {
            match name_at(data, pos + 1 + len, room - 1 - len) {
                Ok((rest, end)) => Ok((seq![label] + rest, end)),
                Err(e) => Err(e),
            }
        }
    } else if data[pos] >= 0xc0 {
        if pos + 1 >= data.len() {
            Err(ParseError::Incomplete)
        } else {
            let target = (data[pos] - 0xc0) * 0x100 + data[pos + 1];
            if target >= data.len() {
                Err(ParseError::PointerOutOfBounds(target as usize))
            } else if target >= pos {
                Err(ParseError::PointerNotBackward(target as usize))
            } else {
                match name_at(data, target, room) {
                    Ok((labels, _)) => Ok((labels, pos + 2)),
                    Err(e) => Err(e),
                }
            }
        }
    } else {
        Err(ParseError::NameError(NameParseError::LabelLengthGreaterThan63(data[pos] as usize)))
    }
}

/// The name that starts at `pos` of the message `data`: its labels, and the
/// position behind what was read in place.
pub open spec fn spec_parse_name(data: Seq<u8>, pos: int) -> Result<
    (Seq<Seq<u8>>, int),
    ParseError,
> {
    name_at(data, pos, MAX_NAME_LENGTH as int)
}

/// The outcome of a name of which `done` was read before, and whose bytes in
/// place ended at `end` if a pointer was followed.
pub open spec fn name_after(
    done: Seq<Seq<u8>>,
    end: Option<usize>,
    rest: Result<(Seq<Seq<u8>>, int), ParseError>,
) -> Result<(Seq<Seq<u8>>, int), ParseError> {
    match rest {
        Ok((labels, stop)) => Ok(
            (
                done + labels,
                match end {
                    Some(e) => e as int,
                    None => stop,
                },
            ),
        ),
        Err(e) => Err(e),
    }
}

/// Checks the bytes of a label.
fn check_label(label: &[u8]) -> (r: Option<NameParseError>)
    ensures
        r == label_error(label@),
{
    let mut i: usize = 0;
    while i < label.len()
        invariant
            i <= label@.len(),
            label_error(label@) == label_error_from(label@, i as int),
        decreases label@.len() - i,
    {
        let c = label[i];
        if i == 0 && c == 0x2d {
            return Some(NameParseError::HypenFirstCharacterInLabel);
        }
        let ok = (0x61 <= c && c <= 0x7a) || (0x41 <= c && c <= 0x5a) || (0x30 <= c && c <= 0x39)
            || c == 0x2d;
        if !ok {
            return Some(NameParseError::InvalidCharacter(c as char));
        }
        i += 1;
    }
    None
}

/// A label without an error, and of a length that a length byte can give,
/// is valid.
pub proof fn lemma_label_error(label: Seq<u8>, i: int)
    requires
        0 <= i <= label.len(),
    ensures
        label_error_from(label, i) is None <==> forall|j: int|
            i <= j < label.len() ==> is_label_byte(#[trigger] label[j]) && !(j == 0 && label[j]
                == 0x2d),
    decreases label.len() - i,
{
    if i < label.len() {
        lemma_label_error(label, i + 1);
    }
}

/// Parses the name that starts at `pos` of the message `data`.
///
/// Returns the name and the number of bytes read in place: the length of the
/// wire form when the name is spelled out, and otherwise the distance to the
/// end of the first compression pointer. A pointer must name an offset before
/// itself, which together with the limit on a name's length bounds the work.
pub fn parse_name(data: &[u8], pos: usize) -> (r: Result<(Name, usize), ParseError>)
    ensures
        match r {
            Ok((name, used)) => {
                &&& spec_parse_name(data@, pos as int) == Ok::<(Seq<Seq<u8>>, int), ParseError>(
                    (name@, pos + used),
                )
                &&& name.wf()
                &&& pos + used <= data@.len()
            },
            Err(e) => spec_parse_name(data@, pos as int) == Err::<(Seq<Seq<u8>>, int), ParseError>(
                e,
            ),
        },
{
    let mut cur: usize = pos;
    let mut acc: Vec<u8> = Vec::new();
    let mut end: Option<usize> = None;
    let ghost mut done: Seq<Seq<u8>> = Seq::empty();
    proof {
        let first = name_at(data@, pos as int, MAX_NAME_LENGTH as int);
        assert(name_after(done, end, first) == first) by {
            if let Ok((labels, stop)) = first {
                assert(done + labels =~= labels);
            }
        }
    }
    loop
        invariant
            acc@ == labels_wire(done),
            acc@.len() < MAX_NAME_LENGTH,
            forall|i: int| 0 <= i < done.len() ==> valid_label(#[trigger] done[i]),
            spec_parse_name(data@, pos as int) == name_after(
                done,
                end,
                name_at(data@, cur as int, MAX_NAME_LENGTH - acc@.len()),
            ),
            end is None ==> pos <= cur,
            end matches Some(e) ==> pos <= e <= data@.len(),
        decreases MAX_NAME_LENGTH - acc@.len(), cur,
    {
        if cur >= data.len() {
            return Err(ParseError::Incomplete);
        }
        let tag = data[cur];
        if tag == 0 {
            acc.push(0);
            let stop = match end {
                Some(e) => e,
                None => cur + 1,
            };
            let name = Name { name: acc };
            proof {
                assert(done + Seq::<Seq<u8>>::empty() =~= done);
                assert(name.name@ == wire_of(done));
                lemma_labels_of_wire(done);
            }
            return Ok((name, stop - pos));
        } else if tag <= 63 {
            let len = tag as usize;
            if acc.len() + len + 2 > MAX_NAME_LENGTH {
                return Err(
                    ParseError::NameError(
                        NameParseError::TotalLengthGreaterThan255(acc.len() + len + 2),
                    ),
                );
            }
            if data.len() - cur - 1 < len {
                return Err(ParseError::Incomplete);
            }
            let label = slice_subrange(data, cur + 1, cur + 1 + len);
            match check_label(label) {
                Some(e) => {
                    return Err(ParseError::NameError(e));
                },
                None => {},
            }
            proof {
                lemma_label_error(label@, 0);
                lemma_labels_wire_push(done, label@);
                let next = name_at(
                    data@,
                    cur + 1 + len,
                    MAX_NAME_LENGTH - acc@.len() - 1 - len,
                );
                if let Ok((rest, stop)) = next {
                    assert(done + (seq![label@] + rest) =~= done.push(label@) + rest);
                }
                done = done.push(label@);
            }
            acc.push(tag);
            acc.extend_from_slice(label);
            cur = cur + 1 + len;
        } else if tag >= 0xc0 {
            if cur + 1 >= data.len() {
                return Err(ParseError::Incomplete);
            }
            let target: usize = (tag - 0xc0) as usize * 0x100 + data[cur + 1] as usize;
            if target >= data.len() {
                return Err(ParseError::PointerOutOfBounds(target));
            }
            if target >= cur {
                return Err(ParseError::PointerNotBackward(target));
            }
            if end.is_none() {
                end = Some(cur + 2);
            }
            cur = target;
        } else {
            return Err(
                ParseError::NameError(NameParseError::LabelLengthGreaterThan63(tag as usize)),
            );
        }
    }
}

/// Whatever is read as a name is a valid name that fits the room it was read
/// with: no label is empty or longer than 63 bytes, none starts with a
/// hyphen or holds another byte than letters, digits and hyphens, and the
/// wire form has at most 255 bytes.
pub proof fn lemma_name_at_valid(data: Seq<u8>, pos: int, room: int)
    requires
        1 <= room <= MAX_NAME_LENGTH,
    ensures
        name_at(data, pos, room) matches Ok((labels, end)) ==> {
            &&& forall|i: int| 0 <= i < labels.len() ==> valid_label(#[trigger] labels[i])
            &&& wire_of(labels).len() <= room
            &&& 0 <= pos < end <= data.len()
        },
    decreases room, pos,
{
    if let Ok((labels, end)) = name_at(data, pos, room) {
        if data[pos] == 0 {
            assert(labels_wire(labels) =~= Seq::<u8>::empty());
        } else if data[pos] <= MAX_LABEL_LENGTH {
            let len = data[pos] as int;
            let label = data.subrange(pos + 1, pos + 1 + len);
            lemma_name_at_valid(data, pos + 1 + len, room - 1 - len);
            let rest = name_at(data, pos + 1 + len, room - 1 - len)->Ok_0.0;
            lemma_label_error(label, 0);
            assert(valid_label(label));
            assert(labels =~= seq![label] + rest);
            assert(labels.drop_first() =~= rest);
            assert forall|i: int| 0 <= i < labels.len() implies valid_label(
                #[trigger] labels[i],
            ) by {
                if i > 0 {
                    assert(labels[i] == rest[i - 1]);
                }
            }
        } else {
            let target = (data[pos] - 0xc0) * 0x100 + data[pos + 1];
            lemma_name_at_valid(data, target, room);
        }
    }
}

/// Whatever is read as a name is a valid name.
pub proof fn lemma_parsed_name_valid(data: Seq<u8>, pos: int)
    ensures
        spec_parse_name(data, pos) matches Ok((labels, end)) ==> valid_name(labels) && pos < end
            <= data.len(),
{
    lemma_name_at_valid(data, pos, MAX_NAME_LENGTH as int);
}

/// A valid name that is spelled out at `pos` is read there as it is.
pub proof fn lemma_name_at_wire(data: Seq<u8>, pos: int, room: int, labels: Seq<Seq<u8>>)
    requires
        valid_name(labels),
        0 <= pos,
        pos + wire_of(labels).len() <= data.len(),
        data.subrange(pos, pos + wire_of(labels).len()) == wire_of(labels),
        wire_of(labels).len() <= room,
    ensures
        name_at(data, pos, room) == Ok::<(Seq<Seq<u8>>, int), ParseError>(
            (labels, pos + wire_of(labels).len()),
        ),
    decreases labels.len(),
{
    lemma_wire_shape(labels);
    let wire = wire_of(labels);
    let part = data.subrange(pos, pos + wire.len());
    assert(part[0] == data[pos]);
    if labels.len() == 0 {
        assert(labels =~= Seq::<Seq<u8>>::empty());
    } else {
        let first = labels[0];
        let len = first.len() as int;
        let tail = labels.drop_first();
        assert(valid_label(first));
        lemma_valid_name_tail(labels);
        lemma_wire_shape(tail);
        assert(data[pos] as int == len);
        let label = data.subrange(pos + 1, pos + 1 + len);
        assert(label =~= part.subrange(1, 1 + len));
        assert(label == first);
        lemma_label_error(first, 0);
        assert(label_error(label) is None);
        assert(data.subrange(pos + 1 + len, pos + 1 + len + wire_of(tail).len()) =~= part.skip(
            1 + len,
        ));
        lemma_name_at_wire(data, pos + 1 + len, room - 1 - len, tail);
        assert(seq![first] + tail =~= labels);
        assert(name_at(data, pos + 1 + len, room - 1 - len) == Ok::<
            (Seq<Seq<u8>>, int),
            ParseError,
        >((tail, pos + wire.len())));
    }
}

/// Tells whether two slices hold the same bytes.
fn same_bytes(a: &[u8], b: &[u8]) -> (r: bool)
    ensures
        r == (a@ == b@),
{
    if a.len() != b.len() {
        return false;
    }
    let mut i: usize = 0;
    while i < a.len()
        invariant
            i <= a@.len(),
            a@.len() == b@.len(),
            forall|k: int| 0 <= k < i ==> a@[k] == b@[k],
        decreases a@.len() - i,
    {
        if a[i] != b[i] {
            return false;
        }
        i += 1;
    }
    proof {
        assert(a@ =~= b@);
    }
    true
}

impl Name {
    /// Tells whether the name is well-formed: whether it holds the wire form
    /// of a valid name and nothing else.
    pub fn is_valid(&self) -> (r: bool)
        ensures
            r == self.wf(),
    {
        proof {
            if self.wf() {
                assert(self.name@.subrange(0, self.name@.len() as int) =~= self.name@);
                lemma_name_at_wire(self.name@, 0, MAX_NAME_LENGTH as int, self@);
            }
        }
        match parse_name(self.name.as_slice(), 0) {
            Ok((read, _)) => same_bytes(read.name.as_slice(), self.name.as_slice()),
            Err(_) => false,
        }
    }
}

/// A pointer stands for the name at its target: reading at the pointer gives
/// the labels that are read at the target, and takes the two bytes of the
/// pointer and nothing more.
pub proof fn lemma_pointer_reads_target(data: Seq<u8>, pos: int, target: int)
    requires
        0 <= target < pos,
        pos + 1 < data.len(),
        data[pos] >= 0xc0,
        target == (data[pos] - 0xc0) * 0x100 + data[pos + 1],
    ensures
        match spec_parse_name(data, target) {
            Ok((labels, _)) => spec_parse_name(data, pos) == Ok::<(Seq<Seq<u8>>, int), ParseError>(
                (labels, pos + 2),
            ),
            Err(e) => spec_parse_name(data, pos) == Err::<(Seq<Seq<u8>>, int), ParseError>(e),
        },
{
}

} // verus!
