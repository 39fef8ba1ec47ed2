//! Resource records, one at a time.

use martin::{
    be_i32, be_u16, be_u32, be_u8, class_code, class_from, parse_class, parse_record, parse_type,
    put_i32, put_u16, put_u32, take, type_code, type_from, write_rr, Class, Name, NameParseError,
    ParseError, ResourceRecord, Type, WriteError,
};

fn name(text: &str) -> Name {
    text.parse().unwrap()
}

fn encode(record: &ResourceRecord) -> Vec<u8> {
    let mut out = Vec::new();
    record.write_to(&mut out).unwrap();
    out
}

#[test]
fn parse_type_bytes() {
    let a = b"\x00\x01abcd";
    let aaaa = b"\x00\x1cabcd";
    let cname = b"\x00\x05abcd";
    let md_deprecated = b"\x00\x03abcd";

    assert_eq!(parse_type(&a[..], 0), Ok(Type::A));
    assert_eq!(parse_type(&aaaa[..], 0), Ok(Type::AAAA));
    assert_eq!(parse_type(&cname[..], 0), Ok(Type::CNAME));
    assert_eq!(parse_type(&md_deprecated[..], 0), Ok(Type::Unknown { value: 3 }));
    assert_eq!(&a[2..], b"abcd");
}

#[test]
fn parse_class_bytes() {
    let a = b"\x00\x01abcd";
    let b = b"\x00\x02abcd";
    let c = b"\x00\x03abcd";
    let d = b"\x00\x04abcd";

    assert_eq!(parse_class(&a[..], 0), Ok(Class::Internet));
    assert_eq!(parse_class(&c[..], 0), Ok(Class::Chaos));
    assert_eq!(parse_class(&d[..], 0), Ok(Class::Hesoid));
    assert_eq!(parse_class(&b[..], 0), Ok(Class::Unknown { value: 2 }));
}

#[test]
fn parse_a_record() {
    let src = b"\x03FOO\x03BAR\x00\x00\x01\x00\x01\x00\x00\x0e\x10\x00\x04\x7f\x00\x00\x01";
    assert_eq!(
        parse_record(&src[..], 0),
        Ok((
            ResourceRecord::A {
                name: "FOO.BAR.".parse().unwrap(),
                class: Class::Internet,
                ttl: 3600,
                addr: [127, 0, 0, 1],
            },
            src.len()
        ))
    );
}

#[test]
fn parse_aaaa_record() {
    let a = b"\x03FOO\x03BAR\x00\x00\x1c\x00\x01\x00\x00\x0e\x10\x00\x10";
    let b = b"\x00\x00\x00\x00\x00\x00\x00\x00\x00\x00\x00\x00\x00\x00\x00\x01";
    let src = [&a[..], &b[..]].concat();
    assert_eq!(
        parse_record(&src[..], 0),
        Ok((
            ResourceRecord::AAAA {
                name: "FOO.BAR.".parse().unwrap(),
                class: Class::Internet,
                ttl: 3600,
                addr: [0, 0, 0, 0, 0, 0, 0, 0, 0, 0, 0, 0, 0, 0, 0, 1],
            },
            src.len()
        ))
    );
}

#[test]
fn codes_of_types_and_classes() {
    let types = [
        (1u16, Type::A),
        (2, Type::NS),
        (5, Type::CNAME),
        (6, Type::SOA),
        (12, Type::PTR),
        (15, Type::MX),
        (16, Type::TXT),
        (28, Type::AAAA),
        (41, Type::OPT),
        (255, Type::Unknown { value: 255 }),
        (0, Type::Unknown { value: 0 }),
    ];
    for (code, t) in types {
        assert_eq!(type_from(code), t);
        assert_eq!(type_code(t), code);
    }
    let classes = [
        (1u16, Class::Internet),
        (3, Class::Chaos),
        (4, Class::Hesoid),
        (2, Class::Unknown { value: 2 }),
    ];
    for (code, c) in classes {
        assert_eq!(class_from(code), c);
        assert_eq!(class_code(c), code);
    }
}

#[test]
fn integers_are_big_endian() {
    let data = [0x12u8, 0x34, 0x56, 0x78, 0xff, 0xff, 0x7a, 0x33];
    assert_eq!(be_u8(&data, 1), Ok(0x34));
    assert_eq!(be_u16(&data, 0), Ok(0x1234));
    assert_eq!(be_u16(&data, 6), Ok(0x7a33));
    assert_eq!(be_u32(&data, 0), Ok(0x12345678));
    assert_eq!(be_u32(&data, 4), Ok(0xffff7a33));
    assert_eq!(be_i32(&data, 4), Ok(-34253));
    assert_eq!(be_i32(&data, 0), Ok(0x12345678));
    assert_eq!(take(&data, 2, 3), Ok(&data[2..5]));
    assert_eq!(take(&data, 8, 0), Ok(&data[8..]));

    assert_eq!(be_u8(&data, 8), Err(ParseError::Incomplete));
    assert_eq!(be_u16(&data, 7), Err(ParseError::Incomplete));
    assert_eq!(be_u16(&data, 9), Err(ParseError::Incomplete));
    assert_eq!(be_u32(&data, 5), Err(ParseError::Incomplete));
    assert_eq!(be_i32(&data, 5), Err(ParseError::Incomplete));
    assert_eq!(take(&data, 2, 7), Err(ParseError::Incomplete));
    assert_eq!(take(&data, 9, 0), Err(ParseError::Incomplete));

    let mut out = vec![0xaa];
    put_u16(&mut out, 517);
    put_u32(&mut out, 1205419366);
    put_i32(&mut out, -34253);
    assert_eq!(out, b"\xaa\x02\x05\x47\xd9\x3d\x66\xff\xff\x7a\x33".to_vec());
}

#[test]
fn a_record_of_another_length_is_rejected() {
    let short = b"\x00\x00\x01\x00\x01\x00\x00\x0e\x10\x00\x03\x7f\x00\x00";
    assert_eq!(parse_record(&short[..], 0), Err(ParseError::InvalidRecordLength(Type::A)));
    let long = b"\x00\x00\x01\x00\x01\x00\x00\x0e\x10\x00\x05\x7f\x00\x00\x01\x02";
    assert_eq!(parse_record(&long[..], 0), Err(ParseError::InvalidRecordLength(Type::A)));
    // The length is looked at before the data: data that is not there does
    // not hide a wrong length, and a right length does not hide missing data.
    let wrong_and_missing = b"\x00\x00\x01\x00\x01\x00\x00\x0e\x10\x00\x05";
    assert_eq!(
        parse_record(&wrong_and_missing[..], 0),
        Err(ParseError::InvalidRecordLength(Type::A))
    );
    let missing = b"\x00\x00\x01\x00\x01\x00\x00\x0e\x10\x00\x04\x7f\x00";
    assert_eq!(parse_record(&missing[..], 0), Err(ParseError::Incomplete));
    let aaaa = b"\x00\x00\x1c\x00\x01\x00\x00\x0e\x10\x00\x04\x7f\x00\x00\x01";
    assert_eq!(parse_record(&aaaa[..], 0), Err(ParseError::InvalidRecordLength(Type::AAAA)));
}

#[test]
fn opt_record_must_have_the_root_name() {
    let good = b"\x00\x00\x29\x10\x00\x01\x02\x80\x00\x00\x03abc";
    assert_eq!(
        parse_record(&good[..], 0),
        Ok((
            ResourceRecord::OPT {
                payload_size: 4096,
                extended_rcode: 1,
                version: 2,
                dnssec_ok: true,
                data: b"abc".to_vec(),
            },
            good.len()
        ))
    );
    let named = b"\x01a\x00\x00\x29\x10\x00\x00\x00\x00\x00\x00\x00";
    assert_eq!(parse_record(&named[..], 0), Err(ParseError::OptNameNotRoot));
    // The name is looked at first, whatever follows the type.
    let named_and_short = b"\x01a\x00\x00\x29";
    assert_eq!(parse_record(&named_and_short[..], 0), Err(ParseError::OptNameNotRoot));
    let short = b"\x00\x00\x29\x10\x00\x00\x00\x00\x00\x00\x01";
    assert_eq!(parse_record(&short[..], 0), Err(ParseError::Incomplete));
}

#[test]
fn opt_record_keeps_only_the_dnssec_bit_of_its_flags() {
    let data = b"\x00\x00\x29\x02\x00\x00\x00\x7f\xff\x00\x00";
    let (record, _) = parse_record(&data[..], 0).unwrap();
    assert_eq!(
        record,
        ResourceRecord::OPT {
            payload_size: 512,
            extended_rcode: 0,
            version: 0,
            dnssec_ok: false,
            data: vec![],
        }
    );
    assert_eq!(encode(&record), b"\x00\x00\x29\x02\x00\x00\x00\x00\x00\x00\x00".to_vec());
    assert_eq!(record.name(), None);
    assert_eq!(record.ttl(), None);
    assert_eq!(record.rtype(), Type::OPT);
}

#[test]
fn name_in_the_data_is_read_against_the_whole_message() {
    // "example.com." stands at 3; the CNAME at 16 points back to it.
    let data = b"xyz\x07example\x03com\x00\x01a\xc0\x03\x00\x05\x00\x01\x00\x00\x00\x3c\x00\x06\x03www\xc0\x03!";
    assert_eq!(
        parse_record(&data[..], 16),
        Ok((
            ResourceRecord::CNAME {
                name: name("a.example.com."),
                class: Class::Internet,
                ttl: 60,
                cname: name("www.example.com."),
            },
            data.len() - 1 - 16
        ))
    );
}

#[test]
fn the_next_record_starts_where_the_length_says() {
    // The name in the data takes two bytes of the five that the length counts.
    let data = b"\x01a\x00\x00\x02\x00\x01\x00\x00\x00\x3c\x00\x05\xc0\x00abc\x00\x00\x01\x00\x01\x00\x00\x00\x00\x00\x04\x01\x02\x03\x04";
    let (first, used) = parse_record(&data[..], 0).unwrap();
    assert_eq!(
        first,
        ResourceRecord::NS {
            name: name("a."),
            class: Class::Internet,
            ttl: 60,
            ns_name: name("a."),
        }
    );
    assert_eq!(used, 18);
    let (second, used) = parse_record(&data[..], 18).unwrap();
    assert_eq!(
        second,
        ResourceRecord::A { name: name("."), class: Class::Internet, ttl: 0, addr: [1, 2, 3, 4] }
    );
    assert_eq!(18 + used, data.len());
}

#[test]
fn name_in_the_data_may_not_run_past_the_data() {
    // The length says 2, the name needs 3 bytes; the byte behind is there.
    let data = b"\x00\x00\x05\x00\x01\x00\x00\x00\x3c\x00\x02\x01a\x00";
    assert_eq!(parse_record(&data[..], 0), Err(ParseError::Incomplete));
    let mx = b"\x00\x00\x0f\x00\x01\x00\x00\x00\x3c\x00\x01\x00\x0a\x00";
    assert_eq!(parse_record(&mx[..], 0), Err(ParseError::Incomplete));
    let soa = b"\x00\x00\x06\x00\x01\x00\x00\x00\x3c\x00\x15\x00\x00\x00\x00\x00\x01\x00\x00\x00\x02\x00\x00\x00\x03\x00\x00\x00\x04\x00\x00\x00\x05";
    assert_eq!(parse_record(&soa[..], 0), Err(ParseError::Incomplete));
}

#[test]
fn txt_strings_fill_the_data() {
    let data = b"\x00\x00\x10\x00\x01\x00\x00\x00\x3c\x00\x08\x02hi\x00\x04caf\xc3";
    // The last string claims four bytes and has three of them in the data.
    assert_eq!(parse_record(&data[..], 0), Err(ParseError::Incomplete));

    let data = b"\x00\x00\x10\x00\x01\x00\x00\x00\x3c\x00\x0a\x02hi\x00\x05caf\xc3\xa9";
    assert_eq!(
        parse_record(&data[..], 0),
        Ok((
            ResourceRecord::TXT {
                name: name("."),
                class: Class::Internet,
                ttl: 60,
                data: vec![String::from("hi"), String::new(), String::from("caf\u{e9}")],
            },
            data.len()
        ))
    );

    let data = b"\x00\x00\x10\x00\x01\x00\x00\x00\x3c\x00\x04\x03a\xff\xfe";
    assert_eq!(parse_record(&data[..], 0), Err(ParseError::TxtInvalidUtf8));

    let data = b"\x00\x00\x10\x00\x01\x00\x00\x00\x3c\x00\x00";
    assert_eq!(
        parse_record(&data[..], 0),
        Ok((
            ResourceRecord::TXT { name: name("."), class: Class::Internet, ttl: 60, data: vec![] },
            data.len()
        ))
    );
}

#[test]
fn unknown_types_keep_their_data() {
    let data = b"\x01a\x00\x00\x63\x00\x03\xff\xff\xff\xff\x00\x02\xde\xad";
    let (record, used) = parse_record(&data[..], 0).unwrap();
    assert_eq!(used, data.len());
    assert_eq!(
        record,
        ResourceRecord::Unknown {
            name: name("a."),
            rtype: Type::Unknown { value: 99 },
            class: Class::Chaos,
            ttl: -1,
            data: vec![0xde, 0xad],
        }
    );
    assert_eq!(record.name(), Some(&name("a.")));
    assert_eq!(record.ttl(), Some(-1));
    assert_eq!(record.rtype(), Type::Unknown { value: 99 });
    assert_eq!(encode(&record), data.to_vec());
}

#[test]
fn records_that_end_early_are_incomplete() {
    let whole = b"\x01a\x00\x00\x01\x00\x01\x00\x00\x0e\x10\x00\x04\x7f\x00\x00\x01";
    for cut in 0..whole.len() {
        assert_eq!(parse_record(&whole[..cut], 0), Err(ParseError::Incomplete), "cut at {}", cut);
    }
    assert!(parse_record(&whole[..], 0).is_ok());
    assert_eq!(
        parse_record(b"\x01!\x00", 0),
        Err(ParseError::NameError(NameParseError::InvalidCharacter('!')))
    );
}

#[test]
fn the_length_of_the_data_is_written_behind_the_data() {
    let record = ResourceRecord::MX {
        name: name("a."),
        class: Class::Internet,
        ttl: 3599,
        preference: 20,
        exchange: name("mx.a."),
    };
    assert_eq!(
        encode(&record),
        b"\x01a\x00\x00\x0f\x00\x01\x00\x00\x0e\x0f\x00\x08\x00\x14\x02mx\x01a\x00".to_vec()
    );
    let soa = ResourceRecord::SOA {
        name: name("a."),
        class: Class::Internet,
        ttl: 1,
        mname: name("ns.a."),
        rname: name("."),
        serial: 1,
        refresh: 2,
        retry: 3,
        expire: 4,
        minimum: 0x01020304,
    };
    let bytes = encode(&soa);
    assert_eq!(&bytes[..13], b"\x01a\x00\x00\x06\x00\x01\x00\x00\x00\x01\x00\x1b");
    assert_eq!(bytes.len(), 13 + 27);
    assert_eq!(&bytes[bytes.len() - 4..], b"\x01\x02\x03\x04");
    let txt = ResourceRecord::TXT {
        name: name("."),
        class: Class::Internet,
        ttl: 0,
        data: vec![String::from("caf\u{e9}"), String::new()],
    };
    assert_eq!(
        encode(&txt),
        b"\x00\x00\x10\x00\x01\x00\x00\x00\x00\x00\x07\x05caf\xc3\xa9\x00".to_vec()
    );
}

#[test]
fn every_kind_of_record_is_read_back_as_it_was_written() {
    let records = vec![
        ResourceRecord::A { name: name("a."), class: Class::Internet, ttl: 1, addr: [1, 2, 3, 4] },
        ResourceRecord::AAAA {
            name: name("a.b."),
            class: Class::Chaos,
            ttl: -5,
            addr: [1, 2, 3, 4, 5, 6, 7, 8, 9, 10, 11, 12, 13, 14, 15, 16],
        },
        ResourceRecord::CNAME {
            name: name("a."),
            class: Class::Internet,
            ttl: i32::MAX,
            cname: name("b."),
        },
        ResourceRecord::PTR {
            name: name("4.3.2.1.in-addr.arpa."),
            class: Class::Internet,
            ttl: i32::MIN,
            ptrname: name("host.example."),
        },
        ResourceRecord::NS {
            name: name("."),
            class: Class::Hesoid,
            ttl: 0,
            ns_name: name("a.root-servers.net."),
        },
        ResourceRecord::MX {
            name: name("a."),
            class: Class::Unknown { value: 9 },
            ttl: 7,
            preference: 65535,
            exchange: name("."),
        },
        ResourceRecord::SOA {
            name: name("a."),
            class: Class::Internet,
            ttl: 7,
            mname: name("m."),
            rname: name("r.a."),
            serial: u32::MAX,
            refresh: 0,
            retry: 1 << 31,
            expire: 255,
            minimum: 256,
        },
        ResourceRecord::TXT {
            name: name("a."),
            class: Class::Internet,
            ttl: 7,
            data: vec![String::from("x").repeat(255), String::new(), String::from("\u{1f600}")],
        },
        ResourceRecord::OPT {
            payload_size: 1232,
            extended_rcode: 3,
            version: 1,
            dnssec_ok: true,
            data: vec![0, 10, 0, 2, 0xab, 0xcd],
        },
        ResourceRecord::Unknown {
            name: name("a."),
            rtype: Type::Unknown { value: 65534 },
            class: Class::Internet,
            ttl: 7,
            data: vec![0; 300],
        },
    ];
    let mut out = vec![0x55u8; 3];
    let mut starts = Vec::new();
    for record in &records {
        starts.push(out.len());
        assert_eq!(write_rr(record, &mut out), Ok(()));
    }
    starts.push(out.len());
    for (i, record) in records.iter().enumerate() {
        assert_eq!(parse_record(&out, starts[i]), Ok((record.clone(), starts[i + 1] - starts[i])));
    }
}

#[test]
fn records_that_do_not_fit_are_not_written() {
    let long_string = ResourceRecord::TXT {
        name: name("a."),
        class: Class::Internet,
        ttl: 7,
        data: vec![String::from("ok"), String::from("x").repeat(256)],
    };
    let mut out = vec![1u8, 2, 3];
    assert_eq!(long_string.write_to(&mut out), Err(WriteError::StringTooLong));
    assert_eq!(out, vec![1, 2, 3]);

    let long_data = ResourceRecord::Unknown {
        name: name("a."),
        rtype: Type::Unknown { value: 99 },
        class: Class::Internet,
        ttl: 7,
        data: vec![0; 65536],
    };
    assert_eq!(long_data.write_to(&mut out), Err(WriteError::DataTooLong));
    assert_eq!(out, vec![1, 2, 3]);

    let many_strings = ResourceRecord::TXT {
        name: name("a."),
        class: Class::Internet,
        ttl: 7,
        data: vec![String::from("x").repeat(255); 256],
    };
    assert_eq!(many_strings.write_to(&mut out), Err(WriteError::DataTooLong));
    assert_eq!(out, vec![1, 2, 3]);

    let full = ResourceRecord::Unknown {
        name: name("."),
        rtype: Type::Unknown { value: 99 },
        class: Class::Internet,
        ttl: 7,
        data: vec![7; 65535],
    };
    assert_eq!(full.write_to(&mut out), Ok(()));
    assert_eq!(out.len(), 3 + 1 + 10 + 65535);
    assert_eq!(&out[12..14], b"\xff\xff");
}

#[test]
fn codes_convert_with_from() {
    assert_eq!(Type::from(5u16), Type::CNAME);
    assert_eq!(Type::from(77u16), Type::Unknown { value: 77 });
    assert_eq!(u16::from(Type::OPT), 41);
    assert_eq!(u16::from(Type::Unknown { value: 77 }), 77);
    assert_eq!(Class::from(3u16), Class::Chaos);
    assert_eq!(Class::from(0u16), Class::Unknown { value: 0 });
    assert_eq!(u16::from(Class::Hesoid), 4);
    assert_eq!(ParseError::from(NameParseError::EmptyNonRootLabel),
        ParseError::NameError(NameParseError::EmptyNonRootLabel));
}
