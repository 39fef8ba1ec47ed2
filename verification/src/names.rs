//! Domain names.
//!
//! A name is a sequence of labels. On the wire each label is a length byte
//! followed by the label's bytes, and a zero length byte ends the name. A
//! `Name` holds that wire form; its view is the sequence of labels.

use vstd::prelude::*;
use vstd::slice::{slice_subrange, slice_to_vec};

pub mod text;
pub mod wire;

verus! {

/// Representation of a domain name.
///
/// Domain names consist of one or more labels, broken up by the character '.'.
#[derive(Debug, Hash, PartialEq, PartialOrd, Eq, Ord, Clone)]
pub struct Name {
    /// The wire form, terminating zero byte included.
    pub name: Vec<u8>,
}

/// An error returned when parsing a domain name.
#[derive(Debug, PartialEq, Eq, Clone, Copy)]
pub enum NameParseError {
    /// Name length cannot exceed 255.
    TotalLengthGreaterThan255(usize),
    /// Label length cannot exceed 63.
    LabelLengthGreaterThan63(usize),
    /// Valid characters are 'a-z', 'A-Z', '0-9', and '-'.
    InvalidCharacter(char),
    /// '-' cannot be the first character in a label.
    HypenFirstCharacterInLabel,
    /// The last label of a name must be the root label '.'.
    NameMustEndInRootLabel,
    /// An empty label is not allowed except for the root label.
    EmptyNonRootLabel,
}

/// Longest wire form of a name, terminating zero byte included.
pub const MAX_NAME_LENGTH: usize = 255;

/// Longest label.
pub const MAX_LABEL_LENGTH: usize = 63;

/// A letter, a digit or a hyphen.
pub open spec fn is_label_byte(b: u8) -> bool {
    ||| 0x61 <= b <= 0x7a
    ||| 0x41 <= b <= 0x5a
    ||| 0x30 <= b <= 0x39
    ||| b == 0x2d
}

/// A label holds 1 to 63 letters, digits and hyphens and starts with no hyphen.
pub open spec fn valid_label(label: Seq<u8>) -> bool {
    &&& 1 <= label.len() <= MAX_LABEL_LENGTH
    &&& label[0] != 0x2d
    &&& forall|i: int| 0 <= i < label.len() ==> is_label_byte(#[trigger] label[i])
}

/// The labels one after the other, each behind its length byte.
pub open spec fn labels_wire(labels: Seq<Seq<u8>>) -> Seq<u8>
    decreases labels.len(),
{
    if labels.len() == 0 {
        Seq::empty()
    } else {
        seq![labels[0].len() as u8] + labels[0] + labels_wire(labels.drop_first())
    }
}

/// The wire form of a name: its labels, then the zero byte of the root.
pub open spec fn wire_of(labels: Seq<Seq<u8>>) -> Seq<u8> {
    labels_wire(labels) + seq![0u8]
}

/// A name's labels are valid and its wire form has at most 255 bytes.
pub open spec fn valid_name(labels: Seq<Seq<u8>>) -> bool {
    &&& forall|i: int| 0 <= i < labels.len() ==> valid_label(#[trigger] labels[i])
    &&& wire_of(labels).len() <= MAX_NAME_LENGTH
}

/// The labels that a wire form spells, up to its first zero length byte.
pub open spec fn labels_of(wire: Seq<u8>) -> Seq<Seq<u8>>
    decreases wire.len(),
{
    if wire.len() == 0 || wire[0] == 0 || wire.len() < 1 + wire[0] {
        Seq::empty()
    } else {
        seq![wire.subrange(1, 1 + wire[0])] + labels_of(wire.skip(1 + wire[0]))
    }
}

impl View for Name {
    type V = Seq<Seq<u8>>;

    open spec fn view(&self) -> Seq<Seq<u8>> {
        labels_of(self.name@)
    }
}

impl Name {
    /// The name holds the wire form of a valid sequence of labels.
    pub open spec fn wf(&self) -> bool {
        &&& valid_name(self@)
        &&& self.name@ == wire_of(self@)
    }

    /// Determines whether this name represents the root name.
    pub fn is_root(&self) -> (r: bool)
        ensures
            r <==> self.name@ == seq![0u8],
            self.wf() ==> (r <==> self@.len() == 0),
    {
        let r = self.name.len() == 1 && self.name[0] == 0;
        proof {
            if r {
                assert(self.name@ =~= seq![0u8]);
            }
            if self.wf() {
                lemma_wire_shape(self@);
            }
        }
        r
    }

    /// The parent is this `Name` without the left-most label.
    pub fn parent(&self) -> (r: Option<Name>)
        requires
            self.wf(),
        ensures
            self@.len() == 0 ==> r is None,
            self@.len() > 0 ==> r is Some && r->0.wf() && r->0@ == self@.drop_first(),
    {
        proof {
            lemma_wire_shape(self@);
        }
        let skip = self.name[0];
        if skip == 0 {
            None
        } else {
            let index: usize = 1 + skip as usize;
            let rest = slice_to_vec(slice_subrange(self.name.as_slice(), index, self.name.len()));
            let parent = Name { name: rest };
            proof {
                let tail = self@.drop_first();
                assert(parent.name@ =~= wire_of(tail));
                lemma_valid_name_tail(self@);
                lemma_labels_of_wire(tail);
            }
            Some(parent)
        }
    }

    /// Appends the wire form of the name. Names are written in full: no
    /// compression pointer is ever produced.
    pub fn write_to(&self, out: &mut Vec<u8>)
        ensures
            final(out)@ == old(out)@ + self.name@,
    {
        out.extend_from_slice(self.name.as_slice());
    }
}

/// The wire form of a name begins with the first label behind its length, or
/// is the single zero byte of the root.
pub proof fn lemma_wire_shape(labels: Seq<Seq<u8>>)
    requires
        valid_name(labels),
    ensures
        wire_of(labels).len() >= 1,
        labels.len() == 0 ==> wire_of(labels) == seq![0u8],
        labels.len() > 0 ==> {
            &&& wire_of(labels)[0] == labels[0].len()
            &&& wire_of(labels).len() == 1 + labels[0].len() + wire_of(labels.drop_first()).len()
            &&& wire_of(labels).subrange(1, 1 + labels[0].len() as int) == labels[0]
            &&& wire_of(labels).skip(1 + labels[0].len() as int) == wire_of(labels.drop_first())
        },
{
    if labels.len() == 0 {
        assert(wire_of(labels) =~= seq![0u8]);
    } else {
        assert(valid_label(labels[0]));
        let head = seq![labels[0].len() as u8] + labels[0];
        assert(wire_of(labels) =~= head + wire_of(labels.drop_first()));
        assert(wire_of(labels).subrange(1, 1 + labels[0].len() as int) =~= labels[0]);
        assert(wire_of(labels).skip(1 + labels[0].len() as int) =~= wire_of(labels.drop_first()));
    }
}

/// Without its first label a valid name is still valid.
pub proof fn lemma_valid_name_tail(labels: Seq<Seq<u8>>)
    requires
        valid_name(labels),
        labels.len() > 0,
    ensures
        valid_name(labels.drop_first()),
{
    lemma_wire_shape(labels);
    let tail = labels.drop_first();
    assert forall|i: int| 0 <= i < tail.len() implies valid_label(#[trigger] tail[i]) by {
        assert(tail[i] == labels[i + 1]);
    }
}

/// The labels of a wire form are those it was made of.
pub proof fn lemma_labels_of_wire(labels: Seq<Seq<u8>>)
    requires
        valid_name(labels),
    ensures
        labels_of(wire_of(labels)) == labels,
    decreases labels.len(),
{
    lemma_wire_shape(labels);
    if labels.len() == 0 {
        assert(labels_of(wire_of(labels)) =~= labels);
    } else {
        assert(valid_label(labels[0]));
        lemma_valid_name_tail(labels);
        lemma_labels_of_wire(labels.drop_first());
        assert(labels_of(wire_of(labels)) =~= labels);
    }
}

/// Appending a label appends its length byte and its bytes to the wire form.
pub proof fn lemma_labels_wire_push(labels: Seq<Seq<u8>>, label: Seq<u8>)
    ensures
        labels_wire(labels.push(label)) == labels_wire(labels) + seq![label.len() as u8] + label,
    decreases labels.len(),
{
    if labels.len() == 0 {
        assert(labels.push(label).drop_first() =~= Seq::<Seq<u8>>::empty());
        assert(labels_wire(Seq::<Seq<u8>>::empty()) =~= Seq::<u8>::empty());
        assert(labels_wire(labels.push(label)) =~= labels_wire(labels) + seq![label.len() as u8]
            + label);
    } else {
        assert(labels.push(label).drop_first() =~= labels.drop_first().push(label));
        lemma_labels_wire_push(labels.drop_first(), label);
        assert(labels_wire(labels.push(label)) =~= labels_wire(labels) + seq![label.len() as u8]
            + label);
    }
}

} // verus!
