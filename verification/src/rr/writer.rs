//! Encoding of resource records.
//!
//! ```text
//!                                 1  1  1  1  1  1
//!   0  1  2  3  4  5  6  7  8  9  0  1  2  3  4  5
//! +--+--+--+--+--+--+--+--+--+--+--+--+--+--+--+--+
//! /                      NAME                     /
//! +--+--+--+--+--+--+--+--+--+--+--+--+--+--+--+--+
//! |                      TYPE                     |
//! +--+--+--+--+--+--+--+--+--+--+--+--+--+--+--+--+
//! |                     CLASS                     |
//! +--+--+--+--+--+--+--+--+--+--+--+--+--+--+--+--+
//! |                      TTL                      |
//! |                                               |
//! +--+--+--+--+--+--+--+--+--+--+--+--+--+--+--+--+
//! |                   RDLENGTH                    |
//! +--+--+--+--+--+--+--+--+--+--+--+--+--+--+--+--|
//! /                     RDATA                     /
//! +--+--+--+--+--+--+--+--+--+--+--+--+--+--+--+--+
//! ```

use crate::bytes::{patch_u16, put_i32, put_u16, put_u32, u16_bytes};
use crate::errors::WriteError;
use crate::names::Name;
use crate::rr::{
    class_code, framed, record_head, strings_fit, texts, txt_wire, type_code, Class,
    ResourceRecord, Type, MAX_STRING_LENGTH, MAX_U16,
};
use vstd::prelude::*;
use vstd::string::StringSliceAdditionalSpecFns;
use vstd::utf8::encode_utf8;

verus! {

/// Appending a string appends its length byte and its bytes to the wire form.
pub proof fn lemma_txt_wire_push(strings: Seq<Seq<char>>, last: Seq<char>)
    ensures
        txt_wire(strings.push(last)) == txt_wire(strings) + seq![encode_utf8(last).len() as u8]
            + encode_utf8(last),
    decreases strings.len(),
{
    let grown = strings.push(last);
    let tail = seq![encode_utf8(last).len() as u8] + encode_utf8(last);
    if strings.len() == 0 {
        assert(grown.drop_first() =~= Seq::<Seq<char>>::empty());
        assert(txt_wire(Seq::<Seq<char>>::empty()) =~= Seq::<u8>::empty());
        assert(txt_wire(grown) =~= txt_wire(strings) + tail);
    } else {
        assert(grown.drop_first() =~= strings.drop_first().push(last));
        lemma_txt_wire_push(strings.drop_first(), last);
        assert(txt_wire(grown) =~= txt_wire(strings) + tail);
    }
}

/// Writes what stands before the data of a record.
fn write_head(name: &Name, rtype: Type, class: Class, ttl: i32, out: &mut Vec<u8>)
    ensures
        final(out)@ == old(out)@ + record_head(name.name@, rtype, class, ttl),
{
    name.write_to(out);
    put_u16(out, type_code(rtype));
    put_u16(out, class_code(class));
    put_i32(out, ttl);
    proof {
        assert(out@ =~= old(out)@ + record_head(name.name@, rtype, class, ttl));
    }
}

/// Writes the character strings of a TXT record, each behind its length
/// byte. Stops at the first string of more than 255 bytes.
fn write_strings(data: &Vec<String>, out: &mut Vec<u8>) -> (r: Result<(), WriteError>)
    ensures
        match r {
            Ok(()) => strings_fit(texts(data@)) && final(out)@ == old(out)@ + txt_wire(
                texts(data@),
            ),
            Err(e) => {
                &&& e == WriteError::StringTooLong
                &&& !strings_fit(texts(data@))
                &&& old(out)@.len() <= final(out)@.len()
                &&& final(out)@.subrange(0, old(out)@.len() as int) == old(out)@
            },
        },
{
    let ghost all = texts(data@);
    let mut i: usize = 0;
    proof {
        assert(all.take(0) =~= Seq::<Seq<char>>::empty());
        assert(out@ =~= old(out)@ + txt_wire(all.take(0)));
    }
    while i < data.len()
        invariant
            i <= data@.len(),
            all == texts(data@),
            strings_fit(all.take(i as int)),
            out@ == old(out)@ + txt_wire(all.take(i as int)),
        decreases data@.len() - i,
    {
        let bytes = data[i].as_str().as_bytes();
        proof {
            assert(all[i as int] == data@[i as int]@);
            assert(bytes@ == encode_utf8(all[i as int]));
        }
        if bytes.len() > MAX_STRING_LENGTH {
            proof {
                assert(out@.subrange(0, old(out)@.len() as int) =~= old(out)@);
            }
            return Err(WriteError::StringTooLong);
        }
        let ghost before = out@;
        out.push(bytes.len() as u8);
        out.extend_from_slice(bytes);
        proof {
            let next = all.take(i + 1);
            assert(next =~= all.take(i as int).push(all[i as int]));
            lemma_txt_wire_push(all.take(i as int), all[i as int]);
            assert(out@ =~= before + seq![bytes@.len() as u8] + bytes@);
            assert forall|k: int| 0 <= k < next.len() implies encode_utf8(#[trigger] next[k]).len()
                <= MAX_STRING_LENGTH by {
                if k < i {
                    assert(next[k] == all.take(i as int)[k]);
                }
            }
        }
        i += 1;
    }
    proof {
        assert(all.take(i as int) =~= all);
    }
    Ok(())
}

/// Writes the data of a record, without its length.
fn write_rdata(rr: &ResourceRecord, out: &mut Vec<u8>) -> (r: Result<(), WriteError>)
    ensures
        match r {
            Ok(()) => {
                &&& rr matches ResourceRecord::TXT { data, .. } ==> strings_fit(texts(data@))
                &&& final(out)@ == old(out)@ + rr.rdata()
            },
            Err(e) => {
                &&& e == WriteError::StringTooLong
                &&& rr matches ResourceRecord::TXT { data, .. } && !strings_fit(texts(data@))
                &&& old(out)@.len() <= final(out)@.len()
                &&& final(out)@.subrange(0, old(out)@.len() as int) == old(out)@
            },
        },
{
    match rr {
        ResourceRecord::A { addr, .. } => {
            out.extend_from_slice(addr.as_slice());
        },
        ResourceRecord::AAAA { addr, .. } => {
            out.extend_from_slice(addr.as_slice());
        },
        ResourceRecord::CNAME { cname, .. } => {
            cname.write_to(out);
        },
        ResourceRecord::SOA { mname, rname, serial, refresh, retry, expire, minimum, .. } => {
            mname.write_to(out);
            rname.write_to(out);
            put_u32(out, *serial);
            put_u32(out, *refresh);
            put_u32(out, *retry);
            put_u32(out, *expire);
            put_u32(out, *minimum);
        },
        ResourceRecord::PTR { ptrname, .. } => {
            ptrname.write_to(out);
        },
        ResourceRecord::MX { preference, exchange, .. } => {
            put_u16(out, *preference);
            exchange.write_to(out);
        },
        ResourceRecord::NS { ns_name, .. } => {
            ns_name.write_to(out);
        },
        ResourceRecord::OPT { data, .. } => {
            out.extend_from_slice(data.as_slice());
        },
        ResourceRecord::TXT { data, .. } => {
            return write_strings(data, out);
        },
        ResourceRecord::Unknown { data, .. } => {
            out.extend_from_slice(data.as_slice());
        },
    }
    proof {
        assert(out@ =~= old(out)@ + rr.rdata());
    }
    Ok(())
}

/// Writes what stands before the length of a record's data.
fn write_front(rr: &ResourceRecord, out: &mut Vec<u8>)
    ensures
        final(out)@ == old(out)@ + rr.head(),
{
    match rr {
        ResourceRecord::A { name, class, ttl, .. } => write_head(name, Type::A, *class, *ttl, out),
        ResourceRecord::AAAA { name, class, ttl, .. } => write_head(
            name,
            Type::AAAA,
            *class,
            *ttl,
            out,
        ),
        ResourceRecord::CNAME { name, class, ttl, .. } => write_head(
            name,
            Type::CNAME,
            *class,
            *ttl,
            out,
        ),
        ResourceRecord::SOA { name, class, ttl, .. } => write_head(
            name,
            Type::SOA,
            *class,
            *ttl,
            out,
        ),
        ResourceRecord::PTR { name, class, ttl, .. } => write_head(
            name,
            Type::PTR,
            *class,
            *ttl,
            out,
        ),
        ResourceRecord::MX { name, class, ttl, .. } => write_head(
            name,
            Type::MX,
            *class,
            *ttl,
            out,
        ),
        ResourceRecord::NS { name, class, ttl, .. } => write_head(
            name,
            Type::NS,
            *class,
            *ttl,
            out,
        ),
        ResourceRecord::OPT { payload_size, extended_rcode, version, dnssec_ok, .. } => {
            out.push(0);
            put_u16(out, type_code(Type::OPT));
            put_u16(out, *payload_size);
            out.push(*extended_rcode);
            out.push(*version);
            let flags: u16 = if *dnssec_ok { 0x8000 } else { 0 };
            put_u16(out, flags);
            proof {
                assert(out@ =~= old(out)@ + rr.head());
            }
        },
        ResourceRecord::TXT { name, class, ttl, .. } => write_head(
            name,
            Type::TXT,
            *class,
            *ttl,
            out,
        ),
        ResourceRecord::Unknown { name, rtype, class, ttl, .. } => write_head(
            name,
            *rtype,
            *class,
            *ttl,
            out,
        ),
    }
}

/// Appends a resource record.
///
/// The length of the data is not known before the data is written: two bytes
/// are reserved for it, the data is written behind them, and the length is
/// then stored in the reserved bytes. Where the record cannot be written,
/// `out` is left as it was.
pub fn write_rr(rr: &ResourceRecord, out: &mut Vec<u8>) -> (r: Result<(), WriteError>)
    ensures
        match rr.write_error() {
            None => r is Ok && final(out)@ == old(out)@ + rr.wire(),
            Some(e) => r == Err::<(), WriteError>(e) && final(out)@ == old(out)@,
        },
{
    let origin = out.len();
    write_front(rr, out);
    let start = out.len();
    put_u16(out, 0);
    let ghost reserved = out@;
    match write_rdata(rr, out) {
        Ok(()) => {},
        Err(e) => {
            proof {
                assert(out@.subrange(0, origin as int) =~= out@.subrange(
                    0,
                    reserved.len() as int,
                ).subrange(0, origin as int));
                assert(reserved.subrange(0, origin as int) =~= old(out)@);
            }
            out.truncate(origin);
            return Err(e);
        },
    }
    let length = out.len() - start - 2;
    if length > MAX_U16 {
        proof {
            assert(out@.subrange(0, origin as int) =~= old(out)@);
        }
        out.truncate(origin);
        return Err(WriteError::DataTooLong);
    }
    let ghost written = out@;
    patch_u16(out, start, length as u16);
    proof {
        assert(written =~= old(out)@ + rr.head() + u16_bytes(0) + rr.rdata());
        assert(out@ =~= old(out)@ + (rr.head() + framed(rr.rdata())));
    }
    Ok(())
}

impl ResourceRecord {
    /// Appends the record. Where it cannot be written, `out` is left as it was.
    pub fn write_to(&self, out: &mut Vec<u8>) -> (r: Result<(), WriteError>)
        ensures
            match self.write_error() {
                None => r is Ok && final(out)@ == old(out)@ + self.wire(),
                Some(e) => r == Err::<(), WriteError>(e) && final(out)@ == old(out)@,
            },
    {
        write_rr(self, out)
    }
}

} // verus!
