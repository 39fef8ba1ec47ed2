//! DNS message codec and iterative stub resolver.
//!
//! The codec turns datagram payloads into structured messages and back, in the
//! wire format of RFC 1035. The resolver is a state machine that walks the
//! delegation hierarchy from a root server down to an answer; the caller sends
//! each query it asks for and hands back what came in.

pub mod bytes;
pub mod errors;
pub mod header;
pub mod message;
pub mod names;
pub mod question;
pub mod resolve;
pub mod roundtrip;
pub mod rr;

pub use bytes::{be_i32, be_u16, be_u32, be_u8, put_i32, put_u16, put_u32, take};
pub use errors::{ParseError, WriteError};
pub use header::{
    opcode_code, opcode_from, parse_header, rcode_code, rcode_from, write_header, Header, Opcode,
    Rcode,
};
pub use message::parser::{do_parse_message, parse_message};
pub use message::Message;
pub use names::wire::parse_name;
pub use names::{Name, NameParseError};
pub use question::{parse_question, qtype_code, qtype_from, QType, Question};
pub use resolve::{
    absolute_host, build_query, get_answer, get_glue, get_ns, interpret, root_server, Decision,
    Event, IpAddress, Lookup, ResolveError, Resolver, Step, MAX_LOOKUPS,
};
pub use rr::parser::{parse_class, parse_record, parse_type};
pub use rr::writer::write_rr;
pub use rr::{class_code, class_from, type_code, type_from, Class, ResourceRecord, Type};
