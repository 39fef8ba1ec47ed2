//! Names as text: labels that are each followed by a dot.

use crate::bytes::{ascii, lemma_ascii_utf8, lemma_text_of_bytes, str_from_utf8};
use crate::names::{
    is_label_byte, labels_wire, lemma_labels_of_wire, lemma_labels_wire_push,
    lemma_valid_name_tail, lemma_wire_shape, valid_label, valid_name, wire_of, Name,
    NameParseError, MAX_LABEL_LENGTH, MAX_NAME_LENGTH,
};
use vstd::pervasive::unreached;
use vstd::prelude::*;
use vstd::slice::slice_subrange;
use vstd::std_specs::iter::IteratorSpec;
use vstd::string::{StringExecFns, StringSliceAdditionalSpecFns};
use vstd::utf8::{encode_scalar, encode_utf8, is_ascii_chars};

verus! {

/// A letter, a digit or a hyphen.
pub open spec fn is_label_char(c: char) -> bool {
    ||| 'a' <= c <= 'z'
    ||| 'A' <= c <= 'Z'
    ||| '0' <= c <= '9'
    ||| c == '-'
}

/// The text of a name: each label followed by a dot. The root has no text.
pub open spec fn text_of(labels: Seq<Seq<u8>>) -> Seq<char>
    decreases labels.len(),
{
    if labels.len() == 0 {
        Seq::empty()
    } else {
        ascii(labels[0]) + seq!['.'] + text_of(labels.drop_first())
    }
}

/// `text` spells the name with these labels: it is the name's text, or the
/// single dot that also stands for the root.
pub open spec fn spells(text: Seq<char>, labels: Seq<Seq<u8>>) -> bool {
    text == text_of(labels) || (text == seq!['.'] && labels.len() == 0)
}

/// What is wrong with `text` from index `i` on, `run` characters into a
/// label: the first offence met, or nothing.
pub open spec fn text_error_from(text: Seq<char>, i: int, run: int) -> Option<NameParseError>
    decreases text.len() - i,
{
    if i < 0 || i >= text.len() {
        if run != 0 {
            Some(NameParseError::NameMustEndInRootLabel)
        } else {
            None
        }
    } else if text[i] == '.' {
        if run == 0 {
            Some(NameParseError::EmptyNonRootLabel)
        } else if run > MAX_LABEL_LENGTH {
            Some(NameParseError::LabelLengthGreaterThan63(run as usize))
        } else {
            text_error_from(text, i + 1, 0)
        }
    } else if text[i] == '-' && run == 0 {
        Some(NameParseError::HypenFirstCharacterInLabel)
    } else if is_label_char(text[i]) {
        text_error_from(text, i + 1, run + 1)
    } else {
        Some(NameParseError::InvalidCharacter(text[i]))
    }
}

/// What is wrong with the text of a name, or nothing. A text of more than 254
/// bytes is too long whatever it holds; a single dot is the root.
pub open spec fn text_error(text: Seq<char>) -> Option<NameParseError> {
    if encode_utf8(text).len() > MAX_NAME_LENGTH - 1 {
        Some(NameParseError::TotalLengthGreaterThan255(encode_utf8(text).len() as usize))
    } else if text == seq!['.'] {
        None
    } else {
        text_error_from(text, 0, 0)
    }
}

/// Appending a label appends its characters and a dot to the text.
pub proof fn lemma_text_of_push(labels: Seq<Seq<u8>>, label: Seq<u8>)
    ensures
        text_of(labels.push(label)) == text_of(labels) + ascii(label) + seq!['.'],
    decreases labels.len(),
{
    if labels.len() == 0 {
        assert(labels.push(label).drop_first() =~= Seq::<Seq<u8>>::empty());
        assert(text_of(Seq::<Seq<u8>>::empty()) =~= Seq::<char>::empty());
        assert(text_of(labels.push(label)) =~= text_of(labels) + ascii(label) + seq!['.']);
    } else {
        assert(labels.push(label).drop_first() =~= labels.drop_first().push(label));
        lemma_text_of_push(labels.drop_first(), label);
        assert(text_of(labels.push(label)) =~= text_of(labels) + ascii(label) + seq!['.']);
    }
}

/// A text has at least as many bytes as characters.
pub proof fn lemma_utf8_len(text: Seq<char>)
    ensures
        text.len() <= encode_utf8(text).len(),
    decreases text.len(),
{
    if text.len() > 0 {
        assert(encode_scalar(text[0] as u32).len() >= 1);
        lemma_utf8_len(text.drop_first());
    }
}

/// Tells whether the text is a single dot.
fn is_lone_dot(s: &str) -> (r: bool)
    ensures
        r <==> s@ == seq!['.'],
{
    let mut it = s.chars();
    let first = it.next();
    let second = it.next();
    let r = first == Some('.') && second.is_none();
    proof {
        if r {
            assert(s@ =~= seq!['.']);
        }
    }
    r
}

impl Name {
    /// Parses the text of a name: labels of letters, digits and hyphens, each
    /// followed by a dot. The empty text and the single dot are the root.
    pub fn from_str(s: &str) -> (r: Result<Name, NameParseError>)
        ensures
            match r {
                Ok(name) => text_error(s@) is None && name.wf() && spells(s@, name@),
                Err(e) => text_error(s@) == Some(e),
            },
    {
        let length = s.as_bytes().len();
        if length > MAX_NAME_LENGTH - 1 {
            return Err(NameParseError::TotalLengthGreaterThan255(length));
        }
        if is_lone_dot(s) {
            let mut root: Vec<u8> = Vec::new();
            root.push(0);
            let name = Name { name: root };
            proof {
                let none = Seq::<Seq<u8>>::empty();
                assert(name.name@ =~= wire_of(none));
                lemma_labels_of_wire(none);
            }
            return Ok(name);
        }
        let mut name: Vec<u8> = Vec::new();
        name.push(0);
        let mut last: usize = 0;
        let mut run: usize = 0;
        let mut it = s.chars();
        let ghost mut i: int = 0;
        let ghost mut done: Seq<Seq<u8>> = Seq::empty();
        let ghost mut cur: Seq<u8> = Seq::empty();
        proof {
            lemma_utf8_len(s@);
            assert(name@ =~= labels_wire(done) + seq![0u8] + cur);
            assert(s@.take(0) =~= text_of(done) + ascii(cur));
            assert(s@.skip(0) =~= s@);
        }
        loop
            invariant
                0 <= i <= s@.len() <= MAX_NAME_LENGTH - 1,
                it.remaining() == s@.skip(i),
                name@ == labels_wire(done) + seq![0u8] + cur,
                name@.len() == i + 1,
                last == labels_wire(done).len(),
                run == cur.len(),
                s@.take(i) == text_of(done) + ascii(cur),
                forall|k: int| 0 <= k < done.len() ==> valid_label(#[trigger] done[k]),
                forall|k: int| 0 <= k < cur.len() ==> is_label_byte(#[trigger] cur[k]),
                cur.len() > 0 ==> cur[0] != 0x2d,
                text_error(s@) == text_error_from(s@, i, run as int),
            ensures
                i == s@.len(),
            decreases s@.len() - i,
        {
            match it.next() {
                None => {
                    break ;
                },
                Some(c) => {
                    assert(c == s@[i]);
                    assert(s@.skip(i).drop_first() =~= s@.skip(i + 1));
                    assert(s@.take(i + 1) =~= s@.take(i).push(c));
                    if c == '.' {
                        if run == 0 {
                            return Err(NameParseError::EmptyNonRootLabel);
                        }
                        if run > MAX_LABEL_LENGTH {
                            return Err(NameParseError::LabelLengthGreaterThan63(run));
                        }
                        name.set(last, run as u8);
                        last = name.len();
                        name.push(0);
                        run = 0;
                        proof {
                            lemma_labels_wire_push(done, cur);
                            lemma_text_of_push(done, cur);
                            done = done.push(cur);
                            cur = Seq::empty();
                            assert(name@ =~= labels_wire(done) + seq![0u8] + cur);
                            assert(s@.take(i + 1) =~= text_of(done) + ascii(cur));
                        }
                    } else if c == '-' && run == 0 {
                        return Err(NameParseError::HypenFirstCharacterInLabel);
                    } else if (c >= 'a' && c <= 'z') || (c >= 'A' && c <= 'Z') || (c >= '0' && c
                        <= '9') || c == '-' {
                        run += 1;
                        name.push(c as u8);
                        proof {
                            let b = c as u8;
                            assert(b as char == c);
                            assert(ascii(cur.push(b)) =~= ascii(cur).push(c));
                            cur = cur.push(b);
                            assert(name@ =~= labels_wire(done) + seq![0u8] + cur);
                            assert(s@.take(i + 1) =~= text_of(done) + ascii(cur));
                        }
                    } else {
                        return Err(NameParseError::InvalidCharacter(c));
                    }
                    proof {
                        i = i + 1;
                    }
                },
            }
        }
        if run != 0 {
            return Err(NameParseError::NameMustEndInRootLabel);
        }
        let name = Name { name };
        proof {
            assert(cur =~= Seq::<u8>::empty());
            assert(name.name@ =~= wire_of(done));
            assert(s@.take(i) =~= s@);
            assert(text_of(done) + ascii(cur) =~= text_of(done));
            lemma_labels_of_wire(done);
        }
        Ok(name)
    }
}

impl std::str::FromStr for Name {
    type Err = NameParseError;
    /// Parses the text of a name as `Name::from_str` does, for `str::parse`.
    fn from_str(s: &str) -> (r: Result<Name, NameParseError>)
        ensures
            match r {
                Ok(name) => text_error(s@) is None && name.wf() && spells(s@, name@),
                Err(e) => text_error(s@) == Some(e),
            },
    {
        Name::from_str(s)
    }
}

/// The text of the first label; of the root, the empty text.
pub open spec fn first_label_text(labels: Seq<Seq<u8>>) -> Seq<char> {
    if labels.len() == 0 {
        Seq::empty()
    } else {
        ascii(labels[0])
    }
}

/// The text of a label that lies in a name's wire form.
fn label_text(bytes: &[u8]) -> (r: &str)
    requires
        forall|i: int| 0 <= i < bytes@.len() ==> is_label_byte(#[trigger] bytes@[i]),
    ensures
        r@ == ascii(bytes@),
{
    proof {
        lemma_ascii_utf8(bytes@);
    }
    match str_from_utf8(bytes) {
        Some(text) => {
            proof {
                lemma_text_of_bytes(text@, bytes@);
            }
            text
        },
        None => unreached(),
    }
}

impl Name {
    /// Returns the first label for this `Name`.
    ///
    /// Labels in a domain name are broken up by the '.' character. A label is
    /// composed of the characters 'a'-'z', 'A'-'Z', '0'-'9' and '-'.
    pub fn label(&self) -> (r: &str)
        requires
            self.wf(),
        ensures
            r@ == first_label_text(self@),
    {
        proof {
            lemma_wire_shape(self@);
        }
        let length = self.name[0] as usize;
        let bytes = slice_subrange(self.name.as_slice(), 1, length + 1);
        proof {
            if self@.len() > 0 {
                assert(valid_label(self@[0]));
                assert(bytes@ == self@[0]);
            } else {
                assert(bytes@ =~= Seq::<u8>::empty());
                assert(ascii(bytes@) =~= Seq::<char>::empty());
            }
        }
        label_text(bytes)
    }

    /// The text of the name: each label followed by a dot. The root has no
    /// text.
    pub fn to_string(&self) -> (r: String)
        requires
            self.wf(),
        ensures
            r@ == text_of(self@),
    {
        let mut out = String::new();
        let mut pos: usize = 0;
        let ghost mut k: int = 0;
        proof {
            assert(self@.take(0) =~= Seq::<Seq<u8>>::empty());
            assert(self@.skip(0) =~= self@);
            assert(self.name@.skip(0) =~= self.name@);
        }
        loop
            invariant
                self.wf(),
                0 <= k <= self@.len(),
                pos <= self.name@.len(),
                out@ == text_of(self@.take(k)),
                valid_name(self@.skip(k)),
                self.name@.skip(pos as int) == wire_of(self@.skip(k)),
            ensures
                out@ == text_of(self@),
            decreases self@.len() - k,
        {
            proof {
                lemma_wire_shape(self@.skip(k));
            }
            let length = self.name[pos] as usize;
            if length == 0 {
                proof {
                    assert(self@.take(k) =~= self@);
                }
                break ;
            }
            let bytes = slice_subrange(self.name.as_slice(), pos + 1, pos + 1 + length);
            proof {
                let rest = self@.skip(k);
                assert(rest[0] == self@[k]);
                assert(valid_label(self@[k]));
                assert(bytes@ =~= self.name@.skip(pos as int).subrange(1, 1 + length));
                assert(rest.drop_first() =~= self@.skip(k + 1));
                assert(self.name@.skip(pos as int).skip(1 + length) =~= self.name@.skip(
                    pos + 1 + length,
                ));
                lemma_valid_name_tail(rest);
                lemma_text_of_push(self@.take(k), self@[k]);
                assert(self@.take(k).push(self@[k]) =~= self@.take(k + 1));
                reveal_strlit(".");
                assert("."@ =~= seq!['.']);
            }
            out.append(label_text(bytes));
            out.append(".");
            pos = pos + 1 + length;
            proof {
                k = k + 1;
            }
        }
        out
    }
}

/// The text of a name has one character for each byte of the labels on the
/// wire, none of them beyond ASCII, and it starts with no dot.
pub proof fn lemma_text_of_shape(labels: Seq<Seq<u8>>)
    requires
        forall|i: int| 0 <= i < labels.len() ==> valid_label(#[trigger] labels[i]),
    ensures
        text_of(labels).len() == labels_wire(labels).len(),
        is_ascii_chars(text_of(labels)),
        labels.len() > 0 ==> text_of(labels).len() > labels[0].len() && text_of(labels)[0] != '.',
    decreases labels.len(),
{
    if labels.len() > 0 {
        let tail = labels.drop_first();
        assert(valid_label(labels[0]));
        assert forall|i: int| 0 <= i < tail.len() implies valid_label(#[trigger] tail[i]) by {
            assert(tail[i] == labels[i + 1]);
        }
        lemma_text_of_shape(tail);
        let text = text_of(labels);
        assert(is_label_byte(labels[0][0]));
        assert(text[0] == labels[0][0] as char);
        assert forall|i: int| 0 <= i < text.len() implies '\0' <= #[trigger] text[i] <= '\u{7f}' by {
            if i < labels[0].len() {
                assert(is_label_byte(labels[0][i]));
                assert(text[i] == labels[0][i] as char);
            } else if i > labels[0].len() {
                assert(text[i] == text_of(tail)[i - labels[0].len() - 1]);
            }
        }
    }
}

/// From a label's `k`-th character on, the text of a valid label and its dot
/// are passed without an offence.
proof fn lemma_scan_label(text: Seq<char>, start: int, label: Seq<u8>, k: int)
    requires
        valid_label(label),
        0 <= start,
        start + label.len() < text.len(),
        0 <= k <= label.len(),
        forall|j: int| 0 <= j < label.len() ==> text[start + j] == #[trigger] label[j] as char,
        text[start + label.len()] == '.',
    ensures
        text_error_from(text, start + k, k) == text_error_from(text, start + label.len() + 1, 0),
    decreases label.len() - k,
{
    if k < label.len() {
        assert(is_label_byte(label[k]));
        assert(text[start + k] == label[k] as char);
        lemma_scan_label(text, start, label, k + 1);
    }
}

/// The text of valid labels is passed without an offence.
proof fn lemma_scan(text: Seq<char>, start: int, labels: Seq<Seq<u8>>)
    requires
        forall|i: int| 0 <= i < labels.len() ==> valid_label(#[trigger] labels[i]),
        0 <= start <= text.len(),
        text.skip(start) == text_of(labels),
    ensures
        text_error_from(text, start, 0) is None,
    decreases labels.len(),
{
    if labels.len() > 0 {
        let label = labels[0];
        let tail = labels.drop_first();
        let len = label.len() as int;
        assert(valid_label(label));
        assert forall|i: int| 0 <= i < tail.len() implies valid_label(#[trigger] tail[i]) by {
            assert(tail[i] == labels[i + 1]);
        }
        let rest = text.skip(start);
        assert(rest.len() == len + 1 + text_of(tail).len());
        assert forall|j: int| 0 <= j < len implies text[start + j] == #[trigger] label[j] as char by {
            assert(rest[j] == text[start + j]);
        }
        assert(rest[len] == text[start + len]);
        lemma_scan_label(text, start, label, 0);
        assert(rest.skip(len + 1) =~= text_of(tail));
        assert(text.skip(start + len + 1) =~= rest.skip(len + 1));
        lemma_scan(text, start + len + 1, tail);
    } else {
        assert(text.skip(start).len() == 0);
    }
}

/// The text of a valid name is read back without an error: what `to_string`
/// gives, `from_str` takes.
pub proof fn lemma_text_round_trip(labels: Seq<Seq<u8>>)
    requires
        valid_name(labels),
    ensures
        text_error(text_of(labels)) is None,
        text_of(labels) != seq!['.'],
        spells(text_of(labels), labels),
{
    let text = text_of(labels);
    lemma_text_of_shape(labels);
    vstd::utf8::is_ascii_chars_encode_utf8(text);
    assert(text.skip(0) =~= text);
    lemma_scan(text, 0, labels);
    if text == seq!['.'] {
        assert(text[0] == '.');
    }
}

/// Names with the same text have the same labels.
pub proof fn lemma_text_of_injective(a: Seq<Seq<u8>>, b: Seq<Seq<u8>>)
    requires
        forall|i: int| 0 <= i < a.len() ==> valid_label(#[trigger] a[i]),
        forall|i: int| 0 <= i < b.len() ==> valid_label(#[trigger] b[i]),
        text_of(a) == text_of(b),
    ensures
        a == b,
    decreases a.len(),
{
    lemma_text_of_shape(a);
    lemma_text_of_shape(b);
    let text = text_of(a);
    if a.len() == 0 || b.len() == 0 {
        assert(a =~= b);
    } else {
        let la = a[0].len() as int;
        let lb = b[0].len() as int;
        assert(valid_label(a[0]) && valid_label(b[0]));
        assert(text[la] == '.');
        assert(text_of(b)[lb] == '.');
        if la < lb {
            assert(is_label_byte(b[0][la]));
            assert(text_of(b)[la] == b[0][la] as char);
        }
        if lb < la {
            assert(is_label_byte(a[0][lb]));
            assert(text[lb] == a[0][lb] as char);
        }
        assert(la == lb);
        assert forall|j: int| 0 <= j < la implies a[0][j] == b[0][j] by {
            assert(text[j] == a[0][j] as char);
            assert(text_of(b)[j] == b[0][j] as char);
        }
        assert(a[0] =~= b[0]);
        let ta = a.drop_first();
        let tb = b.drop_first();
        assert forall|i: int| 0 <= i < ta.len() implies valid_label(#[trigger] ta[i]) by {
            assert(ta[i] == a[i + 1]);
        }
        assert forall|i: int| 0 <= i < tb.len() implies valid_label(#[trigger] tb[i]) by {
            assert(tb[i] == b[i + 1]);
        }
        assert(text_of(ta) =~= text.skip(la + 1));
        assert(text_of(tb) =~= text_of(b).skip(lb + 1));
        lemma_text_of_injective(ta, tb);
        assert(a =~= seq![a[0]] + ta);
        assert(b =~= seq![b[0]] + tb);
    }
}

/// A text spells at most one valid name.
pub proof fn lemma_spells_one_name(text: Seq<char>, a: Seq<Seq<u8>>, b: Seq<Seq<u8>>)
    requires
        valid_name(a),
        valid_name(b),
        spells(text, a),
        spells(text, b),
    ensures
        a == b,
{
    lemma_text_round_trip(a);
    lemma_text_round_trip(b);
    if text == seq!['.'] {
        assert(a =~= b);
    } else {
        lemma_text_of_injective(a, b);
    }
}

} // verus!
