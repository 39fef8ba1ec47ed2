//! The resolver, driven with transports that answer from a script.

use martin::{
    absolute_host, build_query, get_answer, get_glue, get_ns, interpret, root_server, Class, Decision, Event,
    Header, IpAddress, Lookup, Message, Name, NameParseError, Opcode, ParseError, QType, Question, Rcode,
    ResolveError, Resolver, ResourceRecord, Step, Type, MAX_LOOKUPS,
};

/// What a name server sent for `google.com.`: one A record, 172.217.3.206,
/// with a time to live of 299.
fn dns_1_response() -> Vec<u8> {
    vec![
        0x00, 0x02, 0x81, 0x80, 0x00, 0x01, 0x00, 0x01, 0x00, 0x00, 0x00, 0x00, 0x06, 0x67, 0x6f,
        0x6f, 0x67, 0x6c, 0x65, 0x03, 0x63, 0x6f, 0x6d, 0x00, 0x00, 0x01, 0x00, 0x01, 0xc0, 0x0c,
        0x00, 0x01, 0x00, 0x01, 0x00, 0x00, 0x01, 0x2b, 0x00, 0x04, 0xac, 0xd9, 0x03, 0xce,
    ]
}

fn name(text: &str) -> Name {
    text.parse().unwrap()
}

fn v4(a: u8, b: u8, c: u8, d: u8) -> IpAddress {
    IpAddress::V4([a, b, c, d])
}

fn a_record(owner: &str, addr: [u8; 4]) -> ResourceRecord {
    ResourceRecord::A { name: name(owner), class: Class::Internet, ttl: 60, addr }
}

fn ns_record(owner: &str, server: &str) -> ResourceRecord {
    ResourceRecord::NS { name: name(owner), class: Class::Internet, ttl: 60, ns_name: name(server) }
}

/// The reply to a query for `host`, with the records filled in by the caller.
fn reply_to(host: &str) -> Message {
    let question = Question::new(host, QType::ByType(Type::A)).unwrap();
    Message::response(Message::query(1, false, question), false)
}

fn sealed(mut reply: Message) -> Vec<u8> {
    reply.header = reply
        .header
        .answers(reply.answers.len() as u16)
        .authorities(reply.authorities.len() as u16)
        .additional(reply.additionals.len() as u16);
    reply.encode()
}

/// The host that a query asks for.
fn asked(payload: &[u8]) -> String {
    let query = Message::decode(payload).unwrap();
    assert_eq!(query.header, Header::query(1, Opcode::Query, false, 1));
    assert_eq!(query.questions.len(), 1);
    assert_eq!(query.questions[0].qtype, QType::ByType(Type::A));
    assert_eq!(query.questions[0].qclass, Class::Internet);
    query.questions[0].qname.to_string()
}

/// Runs a resolution to its end. Returns the result and the queries sent.
fn resolve_with(
    host: &str,
    mut transport: impl FnMut(IpAddress, &[u8]) -> Result<Vec<u8>, String>,
) -> (Result<Vec<IpAddress>, ResolveError>, Vec<(IpAddress, String)>) {
    let mut sent = Vec::new();
    let (mut resolver, mut step) = Resolver::start(host);
    loop {
        match step {
            Step::Query { nameserver, payload } => {
                assert!(!resolver.is_finished());
                assert!(sent.len() < 1000, "the resolver does not come to an end");
                sent.push((nameserver, asked(&payload)));
                let event = match transport(nameserver, &payload) {
                    Ok(datagram) => Event::from_datagram(&datagram),
                    Err(text) => Event::TransportFailed(text),
                };
                step = resolver.handle(event);
            }
            Step::Done(addresses) => {
                assert!(resolver.is_finished());
                return (Ok(addresses), sent);
            }
            Step::Failed(error) => {
                assert!(resolver.is_finished());
                return (Err(error), sent);
            }
        }
    }
}

#[test]
fn an_answer_ends_the_resolution() {
    let (result, sent) = resolve_with("google.com.", |_, _| Ok(dns_1_response()));
    assert_eq!(result, Ok(vec![v4(172, 217, 3, 206)]));
    assert_eq!(sent, vec![(v4(198, 41, 0, 4), String::from("google.com."))]);
    let reply = Message::decode(&dns_1_response()).unwrap();
    assert_eq!(reply.answers, vec![ResourceRecord::A {
        name: name("google.com."),
        class: Class::Internet,
        ttl: 299,
        addr: [172, 217, 3, 206],
    }]);
}

#[test]
fn an_authoritative_name_error_ends_the_resolution() {
    let mut reply = reply_to("nowhere.example.");
    reply.header.authoritative = true;
    reply.header.rcode = Rcode::NameError;
    // What else the reply holds does not matter.
    reply.answers.push(a_record("nowhere.example.", [1, 2, 3, 4]));
    let bytes = sealed(reply);
    let (result, sent) = resolve_with("nowhere.example.", |_, _| Ok(bytes.clone()));
    assert_eq!(result, Err(ResolveError::NoSuchDomain));
    assert_eq!(sent.len(), 1);
}

#[test]
fn a_name_error_without_authority_is_no_verdict() {
    let mut reply = reply_to("nowhere.example.");
    reply.header.rcode = Rcode::NameError;
    let bytes = sealed(reply);
    let (result, sent) = resolve_with("nowhere.example.", |_, _| Ok(bytes.clone()));
    assert_eq!(result, Err(ResolveError::ExceededMaximumLookupDepth(20)));
    assert_eq!(sent.len(), 20);
}

#[test]
fn replies_that_tell_nothing_end_after_the_most_lookups() {
    let bytes = sealed(reply_to("example.com."));
    let (result, sent) = resolve_with("example.com.", |_, _| Ok(bytes.clone()));
    assert_eq!(MAX_LOOKUPS, 20);
    assert_eq!(result, Err(ResolveError::ExceededMaximumLookupDepth(MAX_LOOKUPS)));
    assert_eq!(sent, vec![(root_server(), String::from("example.com.")); MAX_LOOKUPS]);

    // Records that are neither addresses nor name servers tell nothing either.
    let mut reply = reply_to("example.com.");
    reply.answers.push(ResourceRecord::CNAME {
        name: name("example.com."),
        class: Class::Internet,
        ttl: 1,
        cname: name("example.net."),
    });
    reply.authorities.push(a_record("example.com.", [1, 1, 1, 1]));
    reply.additionals.push(ns_record("example.com.", "ns.example.com."));
    let bytes = sealed(reply);
    let (result, sent) = resolve_with("example.com.", |_, _| Ok(bytes.clone()));
    assert_eq!(result, Err(ResolveError::ExceededMaximumLookupDepth(20)));
    assert_eq!(sent.len(), 20);
}

#[test]
fn glue_names_the_next_server() {
    let mut referral = reply_to("www.example.com.");
    referral.authorities.push(ns_record("com.", "a.gtld-servers.net."));
    referral.additionals.push(ResourceRecord::TXT {
        name: name("com."),
        class: Class::Internet,
        ttl: 1,
        data: vec![],
    });
    referral.additionals.push(ResourceRecord::AAAA {
        name: name("a.gtld-servers.net."),
        class: Class::Internet,
        ttl: 1,
        addr: [0x20, 1, 5, 3, 0xa8, 0x3e, 0, 0, 0, 0, 0, 0, 0, 2, 0, 0x30],
    });
    referral.additionals.push(a_record("a.gtld-servers.net.", [192, 5, 6, 30]));
    let referral = sealed(referral);
    let mut answer = reply_to("www.example.com.");
    answer.answers.push(a_record("www.example.com.", [93, 184, 216, 34]));
    answer.answers.push(ns_record("example.com.", "ns.example.com."));
    answer.answers.push(ResourceRecord::AAAA {
        name: name("www.example.com."),
        class: Class::Internet,
        ttl: 1,
        addr: [0x26, 6, 0x28, 0, 2, 0x20, 0, 1, 2, 0x48, 0x18, 0x93, 0x25, 0xc8, 0x19, 0x46],
    });
    let answer = sealed(answer);
    let glue = IpAddress::V6([0x20, 1, 5, 3, 0xa8, 0x3e, 0, 0, 0, 0, 0, 0, 0, 2, 0, 0x30]);
    let (result, sent) = resolve_with("www.example.com.", |server, _| {
        if server == root_server() {
            Ok(referral.clone())
        } else {
            Ok(answer.clone())
        }
    });
    assert_eq!(
        result,
        Ok(vec![
            v4(93, 184, 216, 34),
            IpAddress::V6([0x26, 6, 0x28, 0, 2, 0x20, 0, 1, 2, 0x48, 0x18, 0x93, 0x25, 0xc8, 0x19, 0x46]),
        ])
    );
    assert_eq!(
        sent,
        vec![
            (root_server(), String::from("www.example.com.")),
            (glue, String::from("www.example.com.")),
        ]
    );
}

#[test]
fn a_name_server_without_glue_is_looked_up_first() {
    let mut referral = reply_to("www.example.com.");
    referral.authorities.push(a_record("example.com.", [9, 9, 9, 9]));
    referral.authorities.push(ns_record("example.com.", "ns1.example.net."));
    referral.authorities.push(ns_record("example.com.", "ns2.example.net."));
    let referral = sealed(referral);
    let mut server = reply_to("ns1.example.net.");
    server.answers.push(a_record("ns1.example.net.", [192, 0, 2, 53]));
    server.answers.push(a_record("ns1.example.net.", [192, 0, 2, 54]));
    let server = sealed(server);
    let mut answer = reply_to("www.example.com.");
    answer.answers.push(a_record("www.example.com.", [93, 184, 216, 34]));
    let answer = sealed(answer);
    let (result, sent) = resolve_with("www.example.com.", |to, payload| {
        let host = asked(payload);
        if host == "ns1.example.net." {
            Ok(server.clone())
        } else if to == root_server() {
            Ok(referral.clone())
        } else {
            Ok(answer.clone())
        }
    });
    assert_eq!(result, Ok(vec![v4(93, 184, 216, 34)]));
    assert_eq!(
        sent,
        vec![
            (root_server(), String::from("www.example.com.")),
            (root_server(), String::from("ns1.example.net.")),
            (v4(192, 0, 2, 53), String::from("www.example.com.")),
        ]
    );
}

#[test]
fn a_failed_lookup_of_a_name_server_fails_the_resolution() {
    let mut referral = reply_to("www.example.com.");
    referral.authorities.push(ns_record("example.com.", "ns1.example.net."));
    let referral = sealed(referral);
    let mut nowhere = reply_to("ns1.example.net.");
    nowhere.header.authoritative = true;
    nowhere.header.rcode = Rcode::NameError;
    let nowhere = sealed(nowhere);
    let (result, sent) = resolve_with("www.example.com.", |_, payload| {
        if asked(payload) == "ns1.example.net." {
            Ok(nowhere.clone())
        } else {
            Ok(referral.clone())
        }
    });
    assert_eq!(
        result,
        Err(ResolveError::RecursiveLookupFailed(Box::new(ResolveError::NoSuchDomain)))
    );
    assert_eq!(sent.len(), 2);
}

#[test]
fn each_lookup_counts_its_own_queries() {
    // The root refers to a name server without glue; that server's name
    // never resolves, so its lookup uses up its queries and fails.
    let mut referral = reply_to("www.example.com.");
    referral.authorities.push(ns_record("example.com.", "ns1.example.net."));
    let referral = sealed(referral);
    let silence = sealed(reply_to("ns1.example.net."));
    let (result, sent) = resolve_with("www.example.com.", |_, payload| {
        if asked(payload) == "ns1.example.net." {
            Ok(silence.clone())
        } else {
            Ok(referral.clone())
        }
    });
    assert_eq!(
        result,
        Err(ResolveError::RecursiveLookupFailed(Box::new(
            ResolveError::ExceededMaximumLookupDepth(20)
        )))
    );
    assert_eq!(sent.len(), 1 + 20);

    // Name servers that refer to each other nest lookup in lookup until one
    // of them fails; the failure is passed up through all that wait.
    let mut depth = 0;
    let (result, sent) = resolve_with("a.example.", |_, payload| {
        depth += 1;
        if depth > 3 {
            return Err(String::from("timed out"));
        }
        let mut referral = reply_to(&asked(payload));
        referral.authorities.push(ns_record("example.", &format!("ns{depth}.example.")));
        Ok(sealed(referral))
    });
    assert_eq!(
        result,
        Err(ResolveError::RecursiveLookupFailed(Box::new(ResolveError::RecursiveLookupFailed(
            Box::new(ResolveError::RecursiveLookupFailed(Box::new(ResolveError::IOError(
                String::from("timed out")
            ))))
        ))))
    );
    assert_eq!(
        sent.iter().map(|(_, host)| host.as_str()).collect::<Vec<_>>(),
        vec!["a.example.", "ns1.example.", "ns2.example.", "ns3.example."]
    );
}

#[test]
fn a_lookup_that_has_used_its_queries_fails_when_its_name_server_is_found() {
    // Nineteen replies tell nothing; the twentieth names a server without
    // glue. The server is found, but the lookup may not ask it.
    let silence = sealed(reply_to("www.example.com."));
    let mut referral = reply_to("www.example.com.");
    referral.authorities.push(ns_record("example.com.", "ns1.example.net."));
    let referral = sealed(referral);
    let mut server = reply_to("ns1.example.net.");
    server.answers.push(a_record("ns1.example.net.", [192, 0, 2, 53]));
    let server = sealed(server);
    let mut count = 0;
    let (result, sent) = resolve_with("www.example.com.", |_, payload| {
        if asked(payload) == "ns1.example.net." {
            return Ok(server.clone());
        }
        count += 1;
        if count < 20 {
            Ok(silence.clone())
        } else {
            Ok(referral.clone())
        }
    });
    assert_eq!(result, Err(ResolveError::ExceededMaximumLookupDepth(20)));
    assert_eq!(sent.len(), 21);
    assert_eq!(sent[20], (root_server(), String::from("ns1.example.net.")));
}

#[test]
fn a_transport_that_fails_ends_the_resolution() {
    let (result, sent) = resolve_with("example.com.", |_, _| Err(String::from("no route")));
    assert_eq!(result, Err(ResolveError::IOError(String::from("no route"))));
    assert_eq!(sent.len(), 1);
}

#[test]
fn a_reply_that_cannot_be_decoded_ends_the_resolution() {
    let (result, sent) = resolve_with("example.com.", |_, _| Ok(vec![0; 11]));
    assert_eq!(result, Err(ResolveError::DeseralizationFailed(ParseError::Incomplete)));
    assert_eq!(sent.len(), 1);
    let mut long = dns_1_response();
    long.push(0);
    let (result, _) = resolve_with("example.com.", |_, _| Ok(long.clone()));
    assert_eq!(result, Err(ResolveError::DeseralizationFailed(ParseError::TrailingBytes(1))));
}

#[test]
fn a_host_that_is_no_name_is_not_asked_for() {
    let (result, sent) = resolve_with("exa mple.com.", |_, _| Ok(dns_1_response()));
    assert_eq!(result, Err(ResolveError::InvalidHost(NameParseError::InvalidCharacter(' '))));
    assert!(sent.is_empty());
    let (result, sent) = resolve_with("example..com", |_, _| Ok(dns_1_response()));
    assert_eq!(result, Err(ResolveError::InvalidHost(NameParseError::EmptyNonRootLabel)));
    assert!(sent.is_empty());
    let long = "a".repeat(254);
    let (result, sent) = resolve_with(&long, |_, _| Ok(dns_1_response()));
    assert_eq!(
        result,
        Err(ResolveError::InvalidHost(NameParseError::TotalLengthGreaterThan255(255)))
    );
    assert!(sent.is_empty());
}

#[test]
fn a_host_without_a_dot_at_its_end_is_taken_as_absolute() {
    assert_eq!(absolute_host("example.com"), "example.com.");
    assert_eq!(absolute_host("example.com."), "example.com.");
    assert_eq!(absolute_host(""), ".");
    assert_eq!(absolute_host("."), ".");
    assert_eq!(absolute_host("b\u{fc}cher"), "b\u{fc}cher.");
    let (result, sent) = resolve_with("google.com", |_, _| Ok(dns_1_response()));
    assert_eq!(result, Ok(vec![v4(172, 217, 3, 206)]));
    assert_eq!(sent, vec![(root_server(), String::from("google.com."))]);
    let (_, sent) = resolve_with("", |_, _| Ok(dns_1_response()));
    assert_eq!(sent, vec![(root_server(), String::new())]);
}

#[test]
fn the_query_of_a_lookup() {
    assert_eq!(
        build_query(&name("google.com.")),
        b"\x00\x01\x00\x00\x00\x01\x00\x00\x00\x00\x00\x00\x06google\x03com\x00\x00\x01\x00\x01".to_vec()
    );
    let (resolver, step) = Resolver::start("google.com.");
    assert_eq!(
        step,
        Step::Query { nameserver: v4(198, 41, 0, 4), payload: build_query(&name("google.com.")) }
    );
    assert_eq!(
        resolver.lookups(),
        &vec![Lookup { name: name("google.com."), nameserver: root_server(), lookups: 1 }]
    );
}

#[test]
fn what_a_reply_tells() {
    let mut reply = reply_to("example.com.");
    assert_eq!(get_answer(&reply), None);
    assert_eq!(get_glue(&reply), None);
    assert_eq!(get_ns(&reply), None);
    assert_eq!(interpret(reply.clone()), Decision::Nothing);

    reply.authorities.push(a_record("example.com.", [1, 1, 1, 1]));
    reply.authorities.push(ns_record("example.com.", "ns1.example.com."));
    reply.authorities.push(ns_record("example.com.", "ns2.example.com."));
    assert_eq!(get_ns(&reply), Some(String::from("ns1.example.com.")));
    assert_eq!(interpret(reply.clone()), Decision::Referral(name("ns1.example.com.")));

    reply.additionals.push(ns_record("example.com.", "ns3.example.com."));
    reply.additionals.push(a_record("ns2.example.com.", [2, 2, 2, 2]));
    reply.additionals.push(a_record("ns1.example.com.", [3, 3, 3, 3]));
    assert_eq!(get_glue(&reply), Some(v4(2, 2, 2, 2)));
    assert_eq!(interpret(reply.clone()), Decision::Glue(v4(2, 2, 2, 2)));

    reply.answers.push(ns_record("example.com.", "ns4.example.com."));
    assert_eq!(get_answer(&reply), None);
    assert_eq!(interpret(reply.clone()), Decision::Glue(v4(2, 2, 2, 2)));
    reply.answers.push(a_record("example.com.", [4, 4, 4, 4]));
    reply.answers.push(a_record("example.com.", [5, 5, 5, 5]));
    assert_eq!(get_answer(&reply), Some(vec![v4(4, 4, 4, 4), v4(5, 5, 5, 5)]));
    assert_eq!(interpret(reply.clone()), Decision::Answer(vec![v4(4, 4, 4, 4), v4(5, 5, 5, 5)]));

    reply.header.rcode = Rcode::NameError;
    assert_eq!(interpret(reply.clone()), Decision::Answer(vec![v4(4, 4, 4, 4), v4(5, 5, 5, 5)]));
    reply.header.authoritative = true;
    assert_eq!(interpret(reply.clone()), Decision::NoSuchDomain);
    reply.header.rcode = Rcode::Refused;
    assert_eq!(interpret(reply), Decision::Answer(vec![v4(4, 4, 4, 4), v4(5, 5, 5, 5)]));
}

#[test]
fn events_from_datagrams() {
    let reply = Message::decode(&dns_1_response()).unwrap();
    assert_eq!(Event::from_datagram(&dns_1_response()), Event::Reply(reply));
    assert_eq!(Event::from_datagram(&[1, 2, 3]), Event::Garbled(ParseError::Incomplete));
}
