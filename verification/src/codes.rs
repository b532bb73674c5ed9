//! The names of the numeric codes in DNS messages.
//!
//! The tables are those of `hickory_proto`, which is asked for every name.
use vstd::prelude::*;

use crate::error::{Error, Fault};
use crate::text::{self, chars_of};

verus! {

/// The code of the record type with a name.
pub open spec fn type_code(name: Seq<char>) -> Option<u16> {
    if name == "A"@ {
        Some(1)
    } else if name == "AAAA"@ {
        Some(28)
    } else if name == "ANAME"@ {
        Some(65305)
    } else if name == "ANY"@ {
        Some(255)
    } else if name == "AXFR"@ {
        Some(252)
    } else if name == "CAA"@ {
        Some(257)
    } else if name == "CDNSKEY"@ {
        Some(60)
    } else if name == "CERT"@ {
        Some(37)
    } else if name == "CDS"@ {
        Some(59)
    } else if name == "CNAME"@ {
        Some(5)
    } else if name == "CSYNC"@ {
        Some(62)
    } else if name == "DNSKEY"@ {
        Some(48)
    } else if name == "DS"@ {
        Some(43)
    } else if name == "HINFO"@ {
        Some(13)
    } else if name == "HTTPS"@ {
        Some(65)
    } else if name == "KEY"@ {
        Some(25)
    } else if name == "MX"@ {
        Some(15)
    } else if name == "NAPTR"@ {
        Some(35)
    } else if name == "NS"@ {
        Some(2)
    } else if name == "NSEC"@ {
        Some(47)
    } else if name == "NSEC3"@ {
        Some(50)
    } else if name == "NSEC3PARAM"@ {
        Some(51)
    } else if name == "NULL"@ {
        Some(10)
    } else if name == "OPENPGPKEY"@ {
        Some(61)
    } else if name == "PTR"@ {
        Some(12)
    } else if name == "RRSIG"@ {
        Some(46)
    } else if name == "SIG"@ {
        Some(24)
    } else if name == "SOA"@ {
        Some(6)
    } else if name == "SRV"@ {
        Some(33)
    } else if name == "SSHFP"@ {
        Some(44)
    } else if name == "SVCB"@ {
        Some(64)
    } else if name == "TLSA"@ {
        Some(52)
    } else if name == "TSIG"@ {
        Some(250)
    } else if name == "TXT"@ {
        Some(16)
    } else if name == "*"@ {
        Some(255)
    } else {
        None
    }
}

/// The name of a record type.
pub open spec fn record_type_name(code: u16) -> Seq<char> {
    match code {
        1 => "A"@,
        28 => "AAAA"@,
        65305 => "ANAME"@,
        255 => "ANY"@,
        252 => "AXFR"@,
        257 => "CAA"@,
        60 => "CDNSKEY"@,
        37 => "CERT"@,
        59 => "CDS"@,
        5 => "CNAME"@,
        62 => "CSYNC"@,
        48 => "DNSKEY"@,
        43 => "DS"@,
        13 => "HINFO"@,
        65 => "HTTPS"@,
        25 => "KEY"@,
        251 => "IXFR"@,
        15 => "MX"@,
        35 => "NAPTR"@,
        2 => "NS"@,
        47 => "NSEC"@,
        50 => "NSEC3"@,
        51 => "NSEC3PARAM"@,
        10 => "NULL"@,
        61 => "OPENPGPKEY"@,
        41 => "OPT"@,
        12 => "PTR"@,
        46 => "RRSIG"@,
        24 => "SIG"@,
        6 => "SOA"@,
        33 => "SRV"@,
        44 => "SSHFP"@,
        64 => "SVCB"@,
        52 => "TLSA"@,
        250 => "TSIG"@,
        16 => "TXT"@,
        0 => "ZERO"@,
        _ => "Unknown"@,
    }
}

/// The name of a class.
pub open spec fn class_name(code: u16) -> Seq<char> {
    match code {
        1 => "IN"@,
        3 => "CH"@,
        4 => "HS"@,
        254 => "NONE"@,
        255 => "ANY"@,
        _ => "UNKNOWN"@,
    }
}

/// The name of an operation.
pub open spec fn opcode_name(code: u8) -> Seq<char> {
    match code {
        0 => "QUERY"@,
        2 => "STATUS"@,
        4 => "NOTIFY"@,
        5 => "UPDATE"@,
        _ => "Unknown opcode ("@ + text::decimal(code as nat) + ")"@,
    }
}

/// The name of a response code.
pub open spec fn response_name(code: u16) -> Seq<char> {
    match code {
        0 => "No Error"@,
        1 => "Form Error"@,
        2 => "Server Failure"@,
        3 => "Non-Existent Domain"@,
        4 => "Not Implemented"@,
        5 => "Query Refused"@,
        6 => "Name should not exist"@,
        7 => "RR Set should not exist"@,
        8 => "RR Set does not exist"@,
        9 => "Not authorized"@,
        10 => "Name not in zone"@,
        16 => "TSIG Failure"@,
        17 => "Key not recognized"@,
        18 => "Signature out of time window"@,
        19 => "Bad TKEY mode"@,
        20 => "Duplicate key name"@,
        21 => "Algorithm not supported"@,
        22 => "Bad truncation"@,
        23 => "Bad server cookie"@,
        _ => "Unknown response code"@,
    }
}

/// No ASCII letter is in lower case.
pub open spec fn without_lowercase(name: Seq<char>) -> bool {
    forall|i: int| 0 <= i < name.len() ==> !('a' <= #[trigger] name[i] <= 'z')
}

/// `hickory_proto::rr::RecordType::from_str`, with the type as its code. It
/// knows the names of the table and no other. Lower case letters make it
/// panic where debug assertions are on.
#[verifier::external_body]
fn parse_type(name: &str) -> (r: Option<u16>)
    requires
        without_lowercase(name@),
    ensures
        r == type_code(name@),
{
    name.parse::<hickory_proto::rr::RecordType>().ok().map(u16::from)
}

/// The `Display` of `hickory_proto::rr::RecordType`, of the type with a code.
#[verifier::external_body]
pub(crate) fn write_type(code: u16) -> (r: String)
    ensures
        r@ == record_type_name(code),
{
    hickory_proto::rr::RecordType::from(code).to_string()
}

/// The `Display` of `hickory_proto::rr::DNSClass`, of the class with a code.
#[verifier::external_body]
pub(crate) fn write_class(code: u16) -> (r: String)
    ensures
        r@ == class_name(code),
{
    hickory_proto::rr::DNSClass::from(code).to_string()
}

/// The `Display` of `hickory_proto::op::OpCode`, of the operation with a code.
#[verifier::external_body]
pub(crate) fn write_opcode(code: u8) -> (r: String)
    ensures
        r@ == opcode_name(code),
{
    hickory_proto::op::OpCode::from_u8(code).to_string()
}

/// The `Display` of `hickory_proto::op::ResponseCode`, of the response with a
/// code.
#[verifier::external_body]
pub(crate) fn write_response(code: u16) -> (r: String)
    ensures
        r@ == response_name(code),
{
    <hickory_proto::op::ResponseCode as From<u16>>::from(code).to_string()
}

/// The record type with a name, as configurations write it.
pub open spec fn named_type(name: Seq<char>) -> Result<u16, Fault> {
    match type_code(name) {
        Some(code) => Ok(code),
        None => Err(Fault::UnknownRecordType(name)),
    }
}

/// No name of the table has a lower case letter.
proof fn lemma_type_names_upper(name: Seq<char>)
    requires
        type_code(name) is Some,
    ensures
        without_lowercase(name),
{
    reveal_strlit("A");
    reveal_strlit("AAAA");
    reveal_strlit("ANAME");
    reveal_strlit("ANY");
    reveal_strlit("AXFR");
    reveal_strlit("CAA");
    reveal_strlit("CDNSKEY");
    reveal_strlit("CERT");
    reveal_strlit("CDS");
    reveal_strlit("CNAME");
    reveal_strlit("CSYNC");
    reveal_strlit("DNSKEY");
    reveal_strlit("DS");
    reveal_strlit("HINFO");
    reveal_strlit("HTTPS");
    reveal_strlit("KEY");
    reveal_strlit("MX");
    reveal_strlit("NAPTR");
    reveal_strlit("NS");
    reveal_strlit("NSEC");
    reveal_strlit("NSEC3");
    reveal_strlit("NSEC3PARAM");
    reveal_strlit("NULL");
    reveal_strlit("OPENPGPKEY");
    reveal_strlit("PTR");
    reveal_strlit("RRSIG");
    reveal_strlit("SIG");
    reveal_strlit("SOA");
    reveal_strlit("SRV");
    reveal_strlit("SSHFP");
    reveal_strlit("SVCB");
    reveal_strlit("TLSA");
    reveal_strlit("TSIG");
    reveal_strlit("TXT");
    reveal_strlit("*");
}

/// The codes of the record types whose data this library looks into.
pub proof fn lemma_type_codes()
    ensures
        type_code("A"@) == Some(1u16),
        type_code("AAAA"@) == Some(28u16),
        type_code("PTR"@) == Some(12u16),
        type_code("SRV"@) == Some(33u16),
        type_code("TXT"@) == Some(16u16),
        type_code("CNAME"@) == Some(5u16),
        type_code("MX"@) == Some(15u16),
        type_code("NS"@) == Some(2u16),
{
    reveal_strlit("A");
    reveal_strlit("AAAA");
    reveal_strlit("ANAME");
    reveal_strlit("ANY");
    reveal_strlit("AXFR");
    reveal_strlit("CAA");
    reveal_strlit("CDNSKEY");
    reveal_strlit("CERT");
    reveal_strlit("CDS");
    reveal_strlit("CNAME");
    reveal_strlit("CSYNC");
    reveal_strlit("DNSKEY");
    reveal_strlit("DS");
    reveal_strlit("HINFO");
    reveal_strlit("HTTPS");
    reveal_strlit("KEY");
    reveal_strlit("MX");
    reveal_strlit("NAPTR");
    reveal_strlit("NS");
    reveal_strlit("NSEC");
    reveal_strlit("NSEC3");
    reveal_strlit("NSEC3PARAM");
    reveal_strlit("NULL");
    reveal_strlit("OPENPGPKEY");
    reveal_strlit("PTR");
    reveal_strlit("RRSIG");
    reveal_strlit("SIG");
    reveal_strlit("SOA");
    reveal_strlit("SRV");
    reveal_strlit("SSHFP");
    reveal_strlit("SVCB");
    reveal_strlit("TLSA");
    reveal_strlit("TSIG");
    reveal_strlit("TXT");
    reveal_strlit("*");
    assert("A"@.len() == 1 && "*"@.len() == 1);
    assert("DS"@.len() == 2 && "MX"@.len() == 2 && "NS"@.len() == 2);
    assert("DS"@[0] == 'D' && "MX"@[0] == 'M' && "NS"@[0] == 'N');
    assert("ANY"@.len() == 3 && "CAA"@.len() == 3 && "CDS"@.len() == 3 && "KEY"@.len() == 3);
    assert("PTR"@.len() == 3 && "SIG"@.len() == 3 && "SOA"@.len() == 3 && "SRV"@.len() == 3);
    assert("TXT"@.len() == 3);
    assert("ANY"@[0] == 'A' && "CAA"@[0] == 'C' && "CDS"@[0] == 'C' && "KEY"@[0] == 'K');
    assert("PTR"@[0] == 'P' && "SIG"@[0] == 'S' && "SOA"@[0] == 'S' && "SRV"@[0] == 'S');
    assert("SIG"@[1] == 'I' && "SOA"@[1] == 'O' && "SRV"@[1] == 'R' && "TXT"@[0] == 'T');
    assert("AAAA"@.len() == 4 && "AAAA"@[1] == 'A');
    assert("ANAME"@.len() == 5 && "CNAME"@.len() == 5 && "CSYNC"@.len() == 5);
    assert("ANAME"@[0] == 'A' && "CNAME"@[0] == 'C' && "CNAME"@[1] == 'N' && "CSYNC"@[1] == 'S');
    assert("AXFR"@.len() == 4 && "CERT"@.len() == 4 && "CDNSKEY"@.len() == 7);
    assert("DNSKEY"@.len() == 6 && "HINFO"@.len() == 5 && "HTTPS"@.len() == 5);
    assert("NAPTR"@.len() == 5 && "NSEC"@.len() == 4 && "NSEC3"@.len() == 5);
    assert("NSEC3PARAM"@.len() == 10 && "NULL"@.len() == 4 && "OPENPGPKEY"@.len() == 10);
    assert("RRSIG"@.len() == 5 && "SSHFP"@.len() == 5 && "SVCB"@.len() == 4);
    assert("TLSA"@.len() == 4 && "TSIG"@.len() == 4);
}

/// A record type that a configuration names is shown under that name, except
/// that `*` is shown as `ANY`.
pub proof fn named_types_show_their_name(name: Seq<char>)
    requires
        type_code(name) is Some,
        name != "*"@,
    ensures
        record_type_name(type_code(name)->0) == name,
{
}

/// The code of the record type with a name.
pub fn record_type_code(name: &str) -> (r: Result<u16, Error>)
    ensures
        match r {
            Ok(code) => named_type(name@) == Ok::<u16, Fault>(code),
            Err(e) => named_type(name@) == Err::<u16, Fault>(e@),
        },
{
    let chars = chars_of(name);
    let mut i: usize = 0;
    while i < chars.len()
        invariant
            chars@ == name@,
            i <= chars@.len(),
            forall|j: int| 0 <= j < i ==> !('a' <= #[trigger] name@[j] <= 'z'),
        decreases chars@.len() - i,
    {
        if 'a' <= chars[i] && chars[i] <= 'z' {
            proof {
                if type_code(name@) is Some {
                    lemma_type_names_upper(name@);
                    assert(!('a' <= name@[i as int] <= 'z'));
                }
            }
            return Err(Error::UnknownRecordType(name.to_owned()));
        }
        i += 1;
    }
    match parse_type(name) {
        Some(code) => Ok(code),
        None => Err(Error::UnknownRecordType(name.to_owned())),
    }
}

} // verus!
