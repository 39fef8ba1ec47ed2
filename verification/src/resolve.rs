//! Iterative resolution of a host name to its addresses.
//!
//! The resolver walks the delegation hierarchy from a root server down: it
//! asks a name server, reads the reply, and either has its answer or learns
//! which server to ask next. It sends nothing itself. It is a state machine:
//! each step names the query to send, and the caller hands back what came in
//! as the next event.
//!
//! A reply is read in this order:
//! 1. an authoritative reply that the name does not exist ends the lookup;
//! 2. addresses in the answer section are the result;
//! 3. an address in the additional section is the next server to ask;
//! 4. a name server named in the authority section is looked up first, by a
//!    lookup of its own that starts at the root, and is then asked;
//! 5. with none of these the same server is asked again.
//!
//! Each lookup sends at most `MAX_LOOKUPS` queries. The lookup of a name
//! server counts its own queries, and its failure fails the lookup that
//! waits for it.

use crate::bytes::u16_bytes;
use crate::errors::ParseError;
use crate::header::{Header, Opcode, Rcode};
use crate::message::{questions_wire, records_wire, spec_decode, Message};
use crate::names::text::{spells, text_error, text_of};
use crate::names::{wire_of, Name, NameParseError};
use crate::question::{QType, Question};
use crate::rr::{Class, ResourceRecord, Type};
use vstd::prelude::*;
use vstd::std_specs::iter::IteratorSpec;
use vstd::string::StringExecFns;

verus! {

/// The most queries that one lookup sends.
pub const MAX_LOOKUPS: usize = 20;

/// The identifier of every query.
pub const QUERY_ID: u16 = 1;

/// The address of a host.
#[derive(Debug, Clone, Copy, PartialEq, Eq)]
pub enum IpAddress {
    /// The four octets of an IPv4 address.
    V4([u8; 4]),
    /// The sixteen octets of an IPv6 address.
    V6([u8; 16]),
}

/// Why a host could not be resolved.
#[derive(Debug, PartialEq, Eq)]
pub enum ResolveError {
    /// The lookup sent as many queries as it may and has no answer.
    ExceededMaximumLookupDepth(usize),
    /// A name server with authority says that the name does not exist.
    NoSuchDomain,
    /// The lookup of a name server failed.
    RecursiveLookupFailed(Box<ResolveError>),
    /// The query could not be sent, or no reply came; with what the
    /// transport said of it.
    IOError(String),
    /// The host name is not a valid domain name.
    InvalidHost(NameParseError),
    /// The reply could not be decoded.
    DeseralizationFailed(ParseError),
}

/// One lookup in progress.
#[derive(Debug, Clone, PartialEq, Eq)]
pub struct Lookup {
    /// The name whose addresses are looked for.
    pub name: Name,
    /// The name server to ask.
    pub nameserver: IpAddress,
    /// The number of queries sent.
    pub lookups: usize,
}

/// What a lookup holds, the name as its labels.
pub struct LookupView {
    pub name: Seq<Seq<u8>>,
    pub nameserver: IpAddress,
    pub lookups: nat,
}

/// The state of a resolution: the lookups in progress. The last one is at
/// work; each of the others waits for the one behind it to find the address
/// of a name server.
#[derive(Debug, Clone, PartialEq, Eq)]
pub struct Resolver {
    stack: Vec<Lookup>,
}

/// What the caller is to do next.
#[derive(Debug, PartialEq, Eq)]
pub enum Step {
    /// Send `payload` to port 53 of `nameserver` and hand back what comes in.
    Query { nameserver: IpAddress, payload: Vec<u8> },
    /// The host has these addresses.
    Done(Vec<IpAddress>),
    /// The host could not be resolved.
    Failed(ResolveError),
}

/// What a step says.
pub enum StepView {
    Query { nameserver: IpAddress, payload: Seq<u8> },
    Done(Seq<IpAddress>),
    Failed(ResolveError),
}

/// What came of a query.
#[derive(Debug, Clone, PartialEq, Eq)]
pub enum Event {
    /// A reply came in and was decoded.
    Reply(Message),
    /// A reply came in that could not be decoded.
    Garbled(ParseError),
    /// The query could not be sent, or no reply came.
    TransportFailed(String),
}

/// What a reply tells the resolver.
#[derive(Debug, Clone, PartialEq, Eq)]
pub enum Decision {
    /// The name does not exist.
    NoSuchDomain,
    /// The name has these addresses.
    Answer(Vec<IpAddress>),
    /// The name server at this address knows more.
    Glue(IpAddress),
    /// The name server of this name knows more.
    Referral(Name),
    /// The reply tells nothing.
    Nothing,
}

/// What a decision says.
pub enum DecisionView {
    NoSuchDomain,
    Answer(Seq<IpAddress>),
    Glue(IpAddress),
    Referral(Seq<Seq<u8>>),
    Nothing,
}

impl View for Lookup {
    type V = LookupView;

    open spec fn view(&self) -> LookupView {
        LookupView { name: self.name@, nameserver: self.nameserver, lookups: self.lookups as nat }
    }
}

impl View for Resolver {
    type V = Seq<LookupView>;

    closed spec fn view(&self) -> Seq<LookupView> {
        self.stack@.map_values(|l: Lookup| l@)
    }
}

impl View for Step {
    type V = StepView;

    open spec fn view(&self) -> StepView {
        match *self {
            Step::Query { nameserver, payload } => StepView::Query { nameserver, payload: payload@ },
            Step::Done(addresses) => StepView::Done(addresses@),
            Step::Failed(e) => StepView::Failed(e),
        }
    }
}

impl View for Decision {
    type V = DecisionView;

    open spec fn view(&self) -> DecisionView {
        match *self {
            Decision::NoSuchDomain => DecisionView::NoSuchDomain,
            Decision::Answer(addresses) => DecisionView::Answer(addresses@),
            Decision::Glue(address) => DecisionView::Glue(address),
            Decision::Referral(name) => DecisionView::Referral(name@),
            Decision::Nothing => DecisionView::Nothing,
        }
    }
}

/// The well-known root server at which every lookup starts.
pub open spec fn spec_root_server() -> IpAddress {
    IpAddress::V4([198u8, 41u8, 0u8, 4u8])
}

/// The well-known root server at which every lookup starts.
pub fn root_server() -> (r: IpAddress)
    ensures
        r == spec_root_server(),
{
    IpAddress::V4([198u8, 41u8, 0u8, 4u8])
}

/// The address that a record gives, if it is an A or an AAAA record.
pub open spec fn address_of(record: ResourceRecord) -> Option<IpAddress> {
    match record {
        ResourceRecord::A { addr, .. } => Some(IpAddress::V4(addr)),
        ResourceRecord::AAAA { addr, .. } => Some(IpAddress::V6(addr)),
        _ => None,
    }
}

/// The addresses that the records give, in their order.
pub open spec fn addresses(records: Seq<ResourceRecord>) -> Seq<IpAddress>
    decreases records.len(),
{
    if records.len() == 0 {
        Seq::empty()
    } else {
        match address_of(records[0]) {
            Some(address) => seq![address] + addresses(records.drop_first()),
            None => addresses(records.drop_first()),
        }
    }
}

/// The address that the first A or AAAA record gives.
pub open spec fn first_address(records: Seq<ResourceRecord>) -> Option<IpAddress>
    decreases records.len(),
{
    if records.len() == 0 {
        None
    } else if address_of(records[0]) is Some {
        address_of(records[0])
    } else {
        first_address(records.drop_first())
    }
}

/// The name server that a record names, if it is an NS record.
pub open spec fn ns_of(record: ResourceRecord) -> Option<Name> {
    match record {
        ResourceRecord::NS { ns_name, .. } => Some(ns_name),
        _ => None,
    }
}

/// The name server that the first NS record names.
pub open spec fn first_ns(records: Seq<ResourceRecord>) -> Option<Name>
    decreases records.len(),
{
    if records.len() == 0 {
        None
    } else if ns_of(records[0]) is Some {
        ns_of(records[0])
    } else {
        first_ns(records.drop_first())
    }
}

/// What a reply tells the resolver.
pub open spec fn spec_interpret(reply: Message) -> DecisionView {
    if reply.header.authoritative && reply.header.rcode == Rcode::NameError {
        DecisionView::NoSuchDomain
    } else if addresses(reply.answers@).len() > 0 {
        DecisionView::Answer(addresses(reply.answers@))
    } else if first_address(reply.additionals@) is Some {
        DecisionView::Glue(first_address(reply.additionals@)->0)
    } else if first_ns(reply.authorities@) is Some {
        DecisionView::Referral(first_ns(reply.authorities@)->0@)
    } else {
        DecisionView::Nothing
    }
}

/// The query for the IPv4 addresses of a name: identifier 1, no recursion
/// desired, one question of type A in the Internet class.
pub open spec fn query_wire(name: Seq<Seq<u8>>) -> Seq<u8> {
    Header::spec_query(QUERY_ID, Opcode::Query, false, 1).wire() + wire_of(name) + u16_bytes(1)
        + u16_bytes(1)
}

/// An error passed up through `depth` waiting lookups, each of which reports
/// that the lookup it waited for failed.
pub open spec fn passed_up(e: ResolveError, depth: nat) -> ResolveError
    decreases depth,
{
    if depth == 0 {
        e
    } else {
        passed_up(ResolveError::RecursiveLookupFailed(Box::new(e)), (depth - 1) as nat)
    }
}

/// The lookup at work fails with `e`: so do all that wait for it.
pub open spec fn spec_fail(stack: Seq<LookupView>, e: ResolveError) -> (Seq<LookupView>, StepView) {
    (Seq::empty(), StepView::Failed(passed_up(e, (stack.len() - 1) as nat)))
}

/// The lookup at work sends its next query, if it may send one more.
pub open spec fn spec_ask(stack: Seq<LookupView>) -> (Seq<LookupView>, StepView) {
    let top = stack.last();
    if top.lookups >= MAX_LOOKUPS {
        spec_fail(stack, ResolveError::ExceededMaximumLookupDepth(MAX_LOOKUPS))
    } else {
        (
            stack.drop_last().push(LookupView { lookups: top.lookups + 1, ..top }),
            StepView::Query { nameserver: top.nameserver, payload: query_wire(top.name) },
        )
    }
}

/// The lookup at work asks the name server at `address` from now on.
pub open spec fn redirected(stack: Seq<LookupView>, address: IpAddress) -> Seq<LookupView> {
    stack.drop_last().push(LookupView { nameserver: address, ..stack.last() })
}

/// The state and the step that follow a decision.
pub open spec fn spec_advance(stack: Seq<LookupView>, decision: DecisionView) -> (
    Seq<LookupView>,
    StepView,
) {
    match decision {
        DecisionView::NoSuchDomain => spec_fail(stack, ResolveError::NoSuchDomain),
        DecisionView::Answer(found) => if stack.len() == 1 {
            (Seq::empty(), StepView::Done(found))
        } else {
            spec_ask(redirected(stack.drop_last(), found[0]))
        },
        DecisionView::Glue(address) => spec_ask(redirected(stack, address)),
        DecisionView::Referral(name) => spec_ask(
            stack.push(LookupView { name, nameserver: spec_root_server(), lookups: 0 }),
        ),
        DecisionView::Nothing => spec_ask(stack),
    }
}

/// The state and the step that follow an event.
pub open spec fn spec_handle(stack: Seq<LookupView>, event: Event) -> (Seq<LookupView>, StepView) {
    match event {
        Event::Reply(reply) => spec_advance(stack, spec_interpret(reply)),
        Event::Garbled(e) => spec_fail(stack, ResolveError::DeseralizationFailed(e)),
        Event::TransportFailed(text) => spec_fail(stack, ResolveError::IOError(text)),
    }
}

impl Lookup {
    /// The name is well-formed, and no more queries were sent than may be.
    pub open spec fn wf(&self) -> bool {
        self.name.wf() && self.lookups <= MAX_LOOKUPS
    }
}

impl Decision {
    /// An answer holds an address, and the name of a referral is well-formed.
    pub open spec fn wf(&self) -> bool {
        match *self {
            Decision::Answer(found) => found@.len() > 0,
            Decision::Referral(name) => name.wf(),
            _ => true,
        }
    }
}

impl Event {
    /// A reply is a well-formed message.
    pub open spec fn wf(&self) -> bool {
        self matches Event::Reply(reply) ==> reply.wf()
    }

    /// Reads a datagram that came in.
    pub fn from_datagram(datagram: &[u8]) -> (event: Event)
        ensures
            event.wf(),
            match spec_decode(datagram@) {
                Ok(message) => event matches Event::Reply(reply) && reply@ == message,
                Err(e) => event == Event::Garbled(e),
            },
    {
        match Message::decode(datagram) {
            Ok(reply) => Event::Reply(reply),
            Err(e) => Event::Garbled(e),
        }
    }
}

/// The addresses in the answer section, if it holds any.
pub fn get_answer(msg: &Message) -> (r: Option<Vec<IpAddress>>)
    ensures
        addresses(msg.answers@).len() == 0 ==> r is None,
        addresses(msg.answers@).len() > 0 ==> r is Some && r->0@ == addresses(msg.answers@),
{
    let mut found: Vec<IpAddress> = Vec::new();
    let mut i: usize = 0;
    proof {
        assert(msg.answers@.skip(0) =~= msg.answers@);
    }
    while i < msg.answers.len()
        invariant
            i <= msg.answers@.len(),
            addresses(msg.answers@) == found@ + addresses(msg.answers@.skip(i as int)),
        decreases msg.answers@.len() - i,
    {
        let ghost rest = msg.answers@.skip(i as int);
        let ghost before = found@;
        proof {
            assert(rest[0] == msg.answers@[i as int]);
            assert(rest.drop_first() =~= msg.answers@.skip(i + 1));
        }
        match &msg.answers[i] {
            ResourceRecord::A { addr, .. } => {
                found.push(IpAddress::V4(*addr));
            },
            ResourceRecord::AAAA { addr, .. } => {
                found.push(IpAddress::V6(*addr));
            },
            _ => {},
        }
        proof {
            let tail = addresses(msg.answers@.skip(i + 1));
            if let Some(address) = address_of(msg.answers@[i as int]) {
                assert(before + (seq![address] + tail) =~= found@ + tail);
            }
        }
        i += 1;
    }
    proof {
        assert(found@ + addresses(msg.answers@.skip(i as int)) =~= found@);
    }
    if found.len() == 0 {
        None
    } else {
        Some(found)
    }
}

/// The first address in the additional section.
pub fn get_glue(msg: &Message) -> (r: Option<IpAddress>)
    ensures
        r == first_address(msg.additionals@),
{
    let mut i: usize = 0;
    proof {
        assert(msg.additionals@.skip(0) =~= msg.additionals@);
    }
    while i < msg.additionals.len()
        invariant
            i <= msg.additionals@.len(),
            first_address(msg.additionals@) == first_address(msg.additionals@.skip(i as int)),
        decreases msg.additionals@.len() - i,
    {
        let ghost rest = msg.additionals@.skip(i as int);
        proof {
            assert(rest[0] == msg.additionals@[i as int]);
            assert(rest.drop_first() =~= msg.additionals@.skip(i + 1));
        }
        match &msg.additionals[i] {
            ResourceRecord::A { addr, .. } => {
                return Some(IpAddress::V4(*addr));
            },
            ResourceRecord::AAAA { addr, .. } => {
                return Some(IpAddress::V6(*addr));
            },
            _ => {},
        }
        i += 1;
    }
    None
}

/// The index of the first NS record.
fn find_ns(records: &Vec<ResourceRecord>) -> (r: Option<usize>)
    ensures
        match r {
            Some(i) => i < records@.len() && ns_of(records@[i as int]) is Some && first_ns(records@)
                == ns_of(records@[i as int]),
            None => first_ns(records@) is None,
        },
{
    let mut i: usize = 0;
    proof {
        assert(records@.skip(0) =~= records@);
    }
    while i < records.len()
        invariant
            i <= records@.len(),
            first_ns(records@) == first_ns(records@.skip(i as int)),
        decreases records@.len() - i,
    {
        let ghost rest = records@.skip(i as int);
        proof {
            assert(rest[0] == records@[i as int]);
            assert(rest.drop_first() =~= records@.skip(i + 1));
        }
        match &records[i] {
            ResourceRecord::NS { .. } => {
                return Some(i);
            },
            _ => {},
        }
        i += 1;
    }
    None
}

/// The text of the name of the first name server in the authority section.
pub fn get_ns(msg: &Message) -> (r: Option<String>)
    requires
        msg.wf(),
    ensures
        match first_ns(msg.authorities@) {
            Some(name) => r is Some && r->0@ == text_of(name@),
            None => r is None,
        },
{
    match find_ns(&msg.authorities) {
        Some(i) => {
            assert(msg.authorities@[i as int].wf());
            match &msg.authorities[i] {
                ResourceRecord::NS { ns_name, .. } => Some(ns_name.to_string()),
                _ => None,
            }
        },
        None => None,
    }
}

/// Reads what a reply tells the resolver.
pub fn interpret(reply: Message) -> (d: Decision)
    requires
        reply.wf(),
    ensures
        d@ == spec_interpret(reply),
        d.wf(),
{
    let name_error = match reply.header.rcode {
        Rcode::NameError => true,
        _ => false,
    };
    if reply.header.authoritative && name_error {
        return Decision::NoSuchDomain;
    }
    match get_answer(&reply) {
        Some(found) => {
            return Decision::Answer(found);
        },
        None => {},
    }
    match get_glue(&reply) {
        Some(address) => {
            return Decision::Glue(address);
        },
        None => {},
    }
    let mut authorities = reply.authorities;
    match find_ns(&authorities) {
        Some(i) => {
            assert(reply.authorities@[i as int].wf());
            match authorities.remove(i) {
                ResourceRecord::NS { ns_name, .. } => Decision::Referral(ns_name),
                _ => Decision::Nothing,
            }
        },
        None => Decision::Nothing,
    }
}

/// The host name as the text of an absolute name: with a dot at its end.
pub open spec fn absolute(host: Seq<char>) -> Seq<char> {
    if host.len() > 0 && host.last() == '.' {
        host
    } else {
        host.push('.')
    }
}

/// Gives a host name the dot of the root at its end, if it has none.
pub fn absolute_host(host: &str) -> (r: String)
    ensures
        r@ == absolute(host@),
{
    let mut it = host.chars();
    let mut dotted = false;
    let ghost mut i: int = 0;
    proof {
        assert(host@.skip(0) =~= host@);
    }
    loop
        invariant
            0 <= i <= host@.len(),
            it.remaining() == host@.skip(i),
            dotted <==> i > 0 && host@[i - 1] == '.',
        ensures
            i == host@.len(),
        decreases host@.len() - i,
    {
        match it.next() {
            None => {
                break ;
            },
            Some(c) => {
                assert(c == host@[i]);
                assert(host@.skip(i).drop_first() =~= host@.skip(i + 1));
                dotted = c == '.';
                proof {
                    i = i + 1;
                }
            },
        }
    }
    let mut text = String::from_str(host);
    if !dotted {
        proof {
            reveal_strlit(".");
            assert("."@ =~= seq!['.']);
        }
        text.append(".");
        proof {
            assert(text@ =~= host@.push('.'));
        }
    }
    text
}

/// Builds the query for the IPv4 addresses of a name.
pub fn build_query(name: &Name) -> (payload: Vec<u8>)
    requires
        name.wf(),
    ensures
        payload@ == query_wire(name@),
{
    let qname = Name { name: name.name.clone() };
    let question = Question { qname, qtype: QType::ByType(Type::A), qclass: Class::Internet };
    let message = Message::query(QUERY_ID, false, question);
    proof {
        assert(qname.name@ =~= name.name@);
        assert(message.questions@.drop_first() =~= Seq::<Question>::empty());
        assert(questions_wire(Seq::<Question>::empty()) =~= Seq::<u8>::empty());
        assert(questions_wire(message.questions@) =~= question.wire());
        assert(records_wire(message.answers@) =~= Seq::<u8>::empty());
        assert(records_wire(message.authorities@) =~= Seq::<u8>::empty());
        assert(records_wire(message.additionals@) =~= Seq::<u8>::empty());
        assert(message.counted_header() == message.header);
        assert(message.wire() =~= query_wire(name@));
    }
    message.encode()
}

/// Passes an error up through `depth` waiting lookups.
fn pass_up(e: ResolveError, depth: usize) -> (r: ResolveError)
    ensures
        r == passed_up(e, depth as nat),
{
    let mut error = e;
    let mut left = depth;
    while left > 0
        invariant
            passed_up(e, depth as nat) == passed_up(error, left as nat),
        decreases left,
    {
        error = ResolveError::RecursiveLookupFailed(Box::new(error));
        left -= 1;
    }
    error
}

impl Resolver {
    /// A lookup is at work, and every lookup is well-formed.
    pub closed spec fn wf(&self) -> bool {
        &&& self.stack@.len() > 0
        &&& forall|i: int| 0 <= i < self.stack@.len() ==> (#[trigger] self.stack@[i]).wf()
    }

    /// The lookups in progress, the one at work last.
    pub fn lookups(&self) -> (r: &Vec<Lookup>)
        ensures
            r@.map_values(|l: Lookup| l@) == self@,
    {
        &self.stack
    }

    /// Tells whether the resolution has come to its end.
    pub fn is_finished(&self) -> (r: bool)
        ensures
            r <==> self@.len() == 0,
    {
        self.stack.len() == 0
    }

    /// Starts the resolution of `host`: the first query goes to the root
    /// server. A host name without a dot at its end is taken as absolute. A
    /// host that is no valid domain name fails at once.
    pub fn start(host: &str) -> (r: (Resolver, Step))
        ensures
            match text_error(absolute(host@)) {
                Some(e) => r.0@.len() == 0 && r.1@ == StepView::Failed(ResolveError::InvalidHost(e)),
                None => {
                    &&& r.0.wf()
                    &&& r.0@.len() == 1
                    &&& spells(absolute(host@), r.0@[0].name)
                    &&& r.0@[0].nameserver == spec_root_server()
                    &&& r.0@[0].lookups == 1
                    &&& r.1@ == StepView::Query {
                        nameserver: spec_root_server(),
                        payload: query_wire(r.0@[0].name),
                    }
                },
            },
    {
        let mut stack: Vec<Lookup> = Vec::new();
        let text = absolute_host(host);
        match Name::from_str(text.as_str()) {
            Err(e) => (Resolver { stack }, Step::Failed(ResolveError::InvalidHost(e))),
            Ok(name) => {
                let payload = build_query(&name);
                stack.push(Lookup { name, nameserver: root_server(), lookups: 1 });
                (Resolver { stack }, Step::Query { nameserver: root_server(), payload })
            },
        }
    }

    /// The lookup at work fails with `e`, and with it all that wait for it.
    fn fail(&mut self, e: ResolveError) -> (step: Step)
        requires
            old(self).stack@.len() > 0,
        ensures
            (final(self)@, step@) == spec_fail(old(self)@, e),
            final(self)@.len() == 0,
    {
        let depth = self.stack.len() - 1;
        self.stack.clear();
        proof {
            assert(self@ =~= Seq::<LookupView>::empty());
        }
        Step::Failed(pass_up(e, depth))
    }

    /// The lookup at work sends its next query, if it may send one more.
    fn ask(&mut self) -> (step: Step)
        requires
            old(self).wf(),
        ensures
            (final(self)@, step@) == spec_ask(old(self)@),
            final(self).wf() || final(self)@.len() == 0,
    {
        let last = self.stack.len() - 1;
        assert(self.stack@[last as int].wf());
        if self.stack[last].lookups >= MAX_LOOKUPS {
            return self.fail(ResolveError::ExceededMaximumLookupDepth(MAX_LOOKUPS));
        }
        let mut top = self.stack.remove(last);
        top.lookups += 1;
        let payload = build_query(&top.name);
        let nameserver = top.nameserver;
        self.stack.push(top);
        proof {
            assert(self@ =~= old(self)@.drop_last().push(
                LookupView { lookups: old(self)@.last().lookups + 1, ..old(self)@.last() },
            ));
            assert forall|i: int| 0 <= i < self.stack@.len() implies (#[trigger] self.stack@[i]).wf() by {
                if i < last {
                    assert(self.stack@[i] == old(self).stack@[i]);
                }
            }
        }
        Step::Query { nameserver, payload }
    }

    /// The lookup at work asks the name server at `address` from now on.
    fn redirect(&mut self, address: IpAddress)
        requires
            old(self).wf(),
        ensures
            final(self)@ == redirected(old(self)@, address),
            final(self).wf(),
    {
        let last = self.stack.len() - 1;
        assert(self.stack@[last as int].wf());
        let mut top = self.stack.remove(last);
        top.nameserver = address;
        self.stack.push(top);
        proof {
            assert(self@ =~= redirected(old(self)@, address));
            assert forall|i: int| 0 <= i < self.stack@.len() implies (#[trigger] self.stack@[i]).wf() by {
                if i < last {
                    assert(self.stack@[i] == old(self).stack@[i]);
                }
            }
        }
    }

    /// Takes the step that follows a decision.
    pub fn advance(&mut self, decision: Decision) -> (step: Step)
        requires
            old(self).wf(),
            decision.wf(),
        ensures
            (final(self)@, step@) == spec_advance(old(self)@, decision@),
            final(self).wf() || final(self)@.len() == 0,
    {
        match decision {
            Decision::NoSuchDomain => self.fail(ResolveError::NoSuchDomain),
            Decision::Answer(found) => {
                if self.stack.len() == 1 {
                    self.stack.clear();
                    proof {
                        assert(self@ =~= Seq::<LookupView>::empty());
                    }
                    Step::Done(found)
                } else {
                    let last = self.stack.len() - 1;
                    let finished = self.stack.remove(last);
                    proof {
                        assert(self@ =~= old(self)@.drop_last());
                        assert forall|i: int| 0 <= i < self.stack@.len() implies (
                        #[trigger] self.stack@[i]).wf() by {
                            assert(self.stack@[i] == old(self).stack@[i]);
                        }
                    }
                    self.redirect(found[0]);
                    self.ask()
                }
            },
            Decision::Glue(address) => {
                self.redirect(address);
                self.ask()
            },
            Decision::Referral(name) => {
                self.stack.push(Lookup { name, nameserver: root_server(), lookups: 0 });
                proof {
                    assert(self@ =~= old(self)@.push(
                        LookupView { name: name@, nameserver: spec_root_server(), lookups: 0 },
                    ));
                    assert forall|i: int| 0 <= i < self.stack@.len() implies (
                    #[trigger] self.stack@[i]).wf() by {
                        if i < old(self).stack@.len() {
                            assert(self.stack@[i] == old(self).stack@[i]);
                        }
                    }
                }
                self.ask()
            },
            Decision::Nothing => self.ask(),
        }
    }

    /// Takes the step that follows an event.
    pub fn handle(&mut self, event: Event) -> (step: Step)
        requires
            old(self).wf(),
            event.wf(),
        ensures
            (final(self)@, step@) == spec_handle(old(self)@, event),
            final(self).wf() || final(self)@.len() == 0,
    {
        match event {
            Event::Reply(reply) => {
                let decision = interpret(reply);
                self.advance(decision)
            },
            Event::Garbled(e) => self.fail(ResolveError::DeseralizationFailed(e)),
            Event::TransportFailed(text) => self.fail(ResolveError::IOError(text)),
        }
    }
}

/// The state and the step that the events lead to, handled one after the
/// other until the resolution ends or the events do.
pub open spec fn spec_run(stack: Seq<LookupView>, events: Seq<Event>) -> (Seq<LookupView>, StepView)
    decreases events.len(),
{
    let first = spec_handle(stack, events[0]);
    if events.len() <= 1 || first.0.len() == 0 {
        first
    } else {
        spec_run(first.0, events.drop_first())
    }
}

/// The event is a reply that tells nothing: no verdict, no address and no
/// name server.
pub open spec fn tells_nothing(event: Event) -> bool {
    event matches Event::Reply(reply) && spec_interpret(reply) is Nothing
}

/// A single lookup that gets nothing but replies that tell nothing asks the
/// same server again and again, and fails when it has sent as many queries as
/// it may. From its start, where one query is sent, that is after
/// `MAX_LOOKUPS` replies.
pub proof fn lemma_silence_ends(stack: Seq<LookupView>, events: Seq<Event>)
    requires
        stack.len() == 1,
        1 <= stack[0].lookups <= MAX_LOOKUPS,
        1 <= events.len() <= MAX_LOOKUPS - stack[0].lookups + 1,
        forall|i: int| 0 <= i < events.len() ==> tells_nothing(#[trigger] events[i]),
    ensures
        events.len() == MAX_LOOKUPS - stack[0].lookups + 1 ==> spec_run(stack, events) == (
            Seq::<LookupView>::empty(),
            StepView::Failed(ResolveError::ExceededMaximumLookupDepth(MAX_LOOKUPS)),
        ),
        events.len() < MAX_LOOKUPS - stack[0].lookups + 1 ==> spec_run(stack, events) == (
            seq![LookupView { lookups: stack[0].lookups + events.len(), ..stack[0] }],
            StepView::Query { nameserver: stack[0].nameserver, payload: query_wire(stack[0].name) },
        ),
    decreases events.len(),
{
    let first = spec_handle(stack, events[0]);
    assert(tells_nothing(events[0]));
    assert(first == spec_ask(stack));
    assert(stack.last() == stack[0]);
    if stack[0].lookups >= MAX_LOOKUPS {
        assert(passed_up(ResolveError::ExceededMaximumLookupDepth(MAX_LOOKUPS), 0)
            == ResolveError::ExceededMaximumLookupDepth(MAX_LOOKUPS));
    } else {
        let next = seq![LookupView { lookups: stack[0].lookups + 1, ..stack[0] }];
        assert(first.0 =~= next);
        if events.len() > 1 {
            let rest = events.drop_first();
            assert forall|i: int| 0 <= i < rest.len() implies tells_nothing(#[trigger] rest[i]) by {
                assert(rest[i] == events[i + 1]);
            }
            lemma_silence_ends(next, rest);
        }
    }
}

/// An authoritative reply that the name does not exist ends a resolution
/// with `NoSuchDomain`, whatever else the reply holds.
pub proof fn lemma_name_error_ends(stack: Seq<LookupView>, reply: Message)
    requires
        stack.len() == 1,
        reply.header.authoritative,
        reply.header.rcode == Rcode::NameError,
    ensures
        spec_handle(stack, Event::Reply(reply)) == (
            Seq::<LookupView>::empty(),
            StepView::Failed(ResolveError::NoSuchDomain),
        ),
{
    assert(passed_up(ResolveError::NoSuchDomain, 0) == ResolveError::NoSuchDomain);
}

/// A reply with addresses in its answer section, and no authoritative word
/// that the name does not exist, ends a resolution with those addresses in
/// their order.
pub proof fn lemma_answer_ends(stack: Seq<LookupView>, reply: Message)
    requires
        stack.len() == 1,
        !(reply.header.authoritative && reply.header.rcode == Rcode::NameError),
        addresses(reply.answers@).len() > 0,
    ensures
        spec_handle(stack, Event::Reply(reply)) == (
            Seq::<LookupView>::empty(),
            StepView::Done(addresses(reply.answers@)),
        ),
{
}

} // verus!
