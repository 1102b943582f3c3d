//! DNS records as a contract stores them, and their conversion into resource data.

use core::str::FromStr;
use hickory_proto::rr::rdata::A;
use hickory_proto::rr::rdata::AAAA;
use hickory_proto::rr::Name;
use vstd::prelude::*;

use crate::text::all_digits;
use crate::text::concat;
use crate::text::digits_value;
use crate::text::split_char_spec;
use crate::text::parse_i32;
use crate::text::parse_signed;
use crate::text::from_char_range;
use crate::text::parse_u16;
use crate::text::parse_u8;
use crate::text::parse_u32;
use crate::text::parse_unsigned;
use crate::text::same_text;
use crate::text::split_words;
use crate::text::to_chars;
use crate::text::to_uppercase;
use crate::text::uppercase;
use crate::text::words;

verus! {

/// A DNS record as the contract stores it.
#[derive(Debug)]
pub struct DnsRecord {
    pub record_type: String,
    pub value: String,
    pub ttl: u32,
    pub priority: Option<u16>,
}

/// The record as plain values.
pub struct DnsRecordView {
    pub record_type: Seq<char>,
    pub value: Seq<char>,
    pub ttl: u32,
    pub priority: Option<u16>,
}

impl View for DnsRecord {
    type V = DnsRecordView;

    open spec fn view(&self) -> DnsRecordView {
        DnsRecordView {
            record_type: self.record_type@,
            value: self.value@,
            ttl: self.ttl,
            priority: self.priority,
        }
    }
}

impl DeepView for DnsRecord {
    type V = DnsRecordView;

    open spec fn deep_view(&self) -> DnsRecordView {
        self@
    }
}

impl DnsRecord {
    /// A copy of the record.
    pub fn duplicate(&self) -> (r: DnsRecord)
        ensures
            r@ == self@,
    {
        DnsRecord {
            record_type: self.record_type.clone(),
            value: self.value.clone(),
            ttl: self.ttl,
            priority: self.priority,
        }
    }
}

/// A copy of a list of records.
pub fn duplicate_records(records: &Vec<DnsRecord>) -> (r: Vec<DnsRecord>)
    ensures
        r.deep_view() == records.deep_view(),
{
    let mut r: Vec<DnsRecord> = Vec::new();
    let mut i: usize = 0;
    while i < records.len()
        invariant
            i <= records@.len(),
            r.deep_view() == records.deep_view().take(i as int),
        decreases records.len() - i,
    {
        let ghost before = r.deep_view();
        r.push(records[i].duplicate());
        assert(r.deep_view() =~= before.push(records@[i as int]@));
        assert(records.deep_view().take(i + 1) =~= records.deep_view().take(i as int).push(
            records@[i as int]@,
        ));
        i += 1;
    }
    assert(records.deep_view().take(records@.len() as int) =~= records.deep_view());
    r
}

/// Why a stored record could not be turned into resource data.
#[derive(Debug)]
pub enum RecordConversionError {
    InvalidIpv4(String),
    InvalidIpv6(String),
    InvalidDomainName(String),
    InvalidFormat(String, String),
    UnsupportedType(String),
}

/// The conversion error as plain values.
pub enum ConversionErrorView {
    InvalidIpv4(Seq<char>),
    InvalidIpv6(Seq<char>),
    InvalidDomainName(Seq<char>),
    InvalidFormat(Seq<char>, Seq<char>),
    UnsupportedType(Seq<char>),
}

impl View for RecordConversionError {
    type V = ConversionErrorView;

    open spec fn view(&self) -> ConversionErrorView {
        match self {
            RecordConversionError::InvalidIpv4(s) => ConversionErrorView::InvalidIpv4(s@),
            RecordConversionError::InvalidIpv6(s) => ConversionErrorView::InvalidIpv6(s@),
            RecordConversionError::InvalidDomainName(s) => ConversionErrorView::InvalidDomainName(
                s@,
            ),
            RecordConversionError::InvalidFormat(t, m) => ConversionErrorView::InvalidFormat(
                t@,
                m@,
            ),
            RecordConversionError::UnsupportedType(s) => ConversionErrorView::UnsupportedType(s@),
        }
    }
}

/// Resource data of the record types that a contract can hold, and of any
/// other type as the bytes of its data. A domain name is held as its text,
/// which the name parser of `hickory_proto` accepts; an address is held as its
/// bits.
#[derive(Debug)]
pub enum RData {
    A(u32),
    AAAA(u128),
    CNAME(String),
    NS(String),
    PTR(String),
    MX { preference: u16, exchange: String },
    TXT(Vec<String>),
    SRV { priority: u16, weight: u16, port: u16, target: String },
    SOA {
        mname: String,
        rname: String,
        serial: u32,
        refresh: i32,
        retry: i32,
        expire: i32,
        minimum: u32,
    },
    /// A certification authority authorization: its flags, its property tag
    /// and the property's value.
    CAA { flags: u8, tag: String, value: String },
    /// The data of a record of another type, by the type's number.
    Other { code: u16, data: Vec<u8> },
}

/// Resource data as plain values.
pub enum RDataView {
    A(u32),
    AAAA(u128),
    CNAME(Seq<char>),
    NS(Seq<char>),
    PTR(Seq<char>),
    MX { preference: u16, exchange: Seq<char> },
    TXT(Seq<Seq<char>>),
    SRV { priority: u16, weight: u16, port: u16, target: Seq<char> },
    SOA {
        mname: Seq<char>,
        rname: Seq<char>,
        serial: u32,
        refresh: i32,
        retry: i32,
        expire: i32,
        minimum: u32,
    },
    CAA { flags: u8, tag: Seq<char>, value: Seq<char> },
    Other { code: u16, data: Seq<u8> },
}

impl View for RData {
    type V = RDataView;

    open spec fn view(&self) -> RDataView {
        match self {
            RData::A(a) => RDataView::A(*a),
            RData::AAAA(a) => RDataView::AAAA(*a),
            RData::CNAME(n) => RDataView::CNAME(n@),
            RData::NS(n) => RDataView::NS(n@),
            RData::PTR(n) => RDataView::PTR(n@),
            RData::MX { preference, exchange } => RDataView::MX {
                preference: *preference,
                exchange: exchange@,
            },
            RData::TXT(t) => RDataView::TXT(t.deep_view()),
            RData::SRV { priority, weight, port, target } => RDataView::SRV {
                priority: *priority,
                weight: *weight,
                port: *port,
                target: target@,
            },
            RData::SOA { mname, rname, serial, refresh, retry, expire, minimum } => RDataView::SOA {
                mname: mname@,
                rname: rname@,
                serial: *serial,
                refresh: *refresh,
                retry: *retry,
                expire: *expire,
                minimum: *minimum,
            },
            RData::CAA { flags, tag, value } => RDataView::CAA {
                flags: *flags,
                tag: tag@,
                value: value@,
            },
            RData::Other { code, data } => RDataView::Other { code: *code, data: data@ },
        }
    }
}

/// A resource record: an owner name, a time to live and resource data.
#[derive(Debug)]
pub struct Record {
    pub name: String,
    pub ttl: u32,
    pub rdata: RData,
}

/// A resource record as plain values.
pub struct RecordView {
    pub name: Seq<char>,
    pub ttl: u32,
    pub rdata: RDataView,
}

impl View for Record {
    type V = RecordView;

    open spec fn view(&self) -> RecordView {
        RecordView { name: self.name@, ttl: self.ttl, rdata: self.rdata@ }
    }
}

impl DeepView for Record {
    type V = RecordView;

    open spec fn deep_view(&self) -> RecordView {
        self@
    }
}

/// An octet of dot-decimal notation: decimal digits with no leading zero
/// (unless the octet is `0`), of value at most 255.
pub open spec fn octet_value(p: Seq<char>) -> Option<int> {
    if all_digits(p) && (p.len() == 1 || p[0] != '0') && digits_value(p) <= 255 {
        Some(digits_value(p))
    } else {
        None
    }
}

/// The IPv4 address that a text writes in dot-decimal notation (four octets
/// separated by dots), as the address's bits, most significant octet first.
pub open spec fn ipv4_bits(s: Seq<char>) -> Option<u32> {
    let parts = split_char_spec(s, '.');
    if parts.len() == 4 && octet_value(parts[0]) is Some && octet_value(parts[1]) is Some
        && octet_value(parts[2]) is Some && octet_value(parts[3]) is Some {
        Some(
            (octet_value(parts[0])->0 * 0x100_0000 + octet_value(parts[1])->0 * 0x1_0000
                + octet_value(parts[2])->0 * 0x100 + octet_value(parts[3])->0) as u32,
        )
    } else {
        None
    }
}

/// What `hickory_proto`'s `AAAA::from_str` accepts, as the address's bits.
pub uninterp spec fn ipv6_bits(s: Seq<char>) -> Option<u128>;

/// What `hickory_proto`'s `Name::from_str` gives for a text: nothing when it
/// accepts the text as a domain name, else the text of its error.
pub uninterp spec fn name_parse_error(s: Seq<char>) -> Option<Seq<char>>;

/// Whether `hickory_proto`'s `Name::from_str` accepts the text.
pub open spec fn name_parses(s: Seq<char>) -> bool {
    name_parse_error(s) is None
}

/// Parses an IPv4 address with `hickory_proto::rr::rdata::A::from_str`, which
/// hands the text to the standard library's `Ipv4Addr::from_str`: it accepts
/// dot-decimal notation, four decimal octets divided by dots, and refuses
/// octal (a leading zero) and hexadecimal octets. The result is the address's
/// bits (`u32::from`, most significant octet first).
#[verifier::external_body]
fn parse_ipv4(s: &str) -> (r: Option<u32>)
    ensures
        r == ipv4_bits(s@),
{
    match A::from_str(s) {
        Ok(a) => Some(u32::from(a.0)),
        Err(_) => None,
    }
}

/// Parses an IPv6 address with `hickory_proto::rr::rdata::AAAA::from_str`; the
/// result, as the address's bits, is named by `ipv6_bits`.
#[verifier::external_body]
fn parse_ipv6(s: &str) -> (r: Option<u128>)
    ensures
        r == ipv6_bits(s@),
{
    match AAAA::from_str(s) {
        Ok(a) => Some(u128::from(a.0)),
        Err(_) => None,
    }
}

/// Asks `hickory_proto::rr::Name::from_str` whether it accepts the text as a
/// domain name: nothing when it does, else its error as text (which, with the
/// crate's `backtrace` feature off, is a function of the text alone). The
/// answer is named by `name_parse_error`.
#[verifier::external_body]
pub(crate) fn check_name(s: &str) -> (r: Option<String>)
    ensures
        match r {
            None => name_parse_error(s@) is None,
            Some(m) => name_parse_error(s@) == Some(m@),
        },
{
    match Name::from_str(s) {
        Ok(_) => None,
        Err(e) => Some(e.to_string()),
    }
}

/// The domain name that `name` stands for under `origin`: `@` is the origin
/// itself, a name ending in a dot is complete, and any other name is relative
/// to the origin. `Err` carries the text that the name parser refused.
pub open spec fn domain_name(name: Seq<char>, origin: Seq<char>) -> Result<Seq<char>, Seq<char>> {
    if name == "@"@ {
        Ok(origin)
    } else {
        let full = if name.len() > 0 && name.last() == '.' {
            name
        } else {
            name + "."@ + origin
        };
        if name_parses(full) {
            Ok(full)
        } else {
            Err(full)
        }
    }
}

/// Resolves `name` against `origin` (see `domain_name`).
pub fn parse_domain_name(name: &str, origin: &str) -> (r: Result<String, RecordConversionError>)
    ensures
        match domain_name(name@, origin@) {
            Ok(n) => r matches Ok(x) && x@ == n,
            Err(e) => r matches Err(x) && x@ == ConversionErrorView::InvalidDomainName(e),
        },
{
    if same_text(name, "@") {
        return Ok(origin.to_owned());
    }
    let n = name.unicode_len();
    let full = if n > 0 && name.get_char(n - 1) == '.' {
        name.to_owned()
    } else {
        let with_dot = concat(name, ".");
        concat(with_dot.as_str(), origin)
    };
    match check_name(full.as_str()) {
        None => Ok(full),
        Some(_) => Err(RecordConversionError::InvalidDomainName(full)),
    }
}

/// The priority of a record, or 10 when it has none.
pub open spec fn priority_or_default(p: Option<u16>) -> u16 {
    match p {
        Some(v) => v,
        None => 10,
    }
}

/// The resource data for a record whose value is a domain name.
pub open spec fn name_data(value: Seq<char>, origin: Seq<char>, make: spec_fn(Seq<char>) -> RDataView) -> Result<RDataView, ConversionErrorView> {
    match domain_name(value, origin) {
        Ok(n) => Ok(make(n)),
        Err(e) => Err(ConversionErrorView::InvalidDomainName(e)),
    }
}

/// The resource data of an `SRV` record, whose value is `weight port target`.
pub open spec fn srv_data(rec: DnsRecordView, origin: Seq<char>) -> Result<RDataView, ConversionErrorView> {
    let parts = words(rec.value);
    if parts.len() != 3 {
        Err(ConversionErrorView::InvalidFormat("SRV"@, "expected 'weight port target'"@))
    } else {
        match parse_unsigned(parts[0], 0xffff) {
            None => Err(ConversionErrorView::InvalidFormat("SRV"@, "invalid weight"@)),
            Some(weight) => match parse_unsigned(parts[1], 0xffff) {
                None => Err(ConversionErrorView::InvalidFormat("SRV"@, "invalid port"@)),
                Some(port) => match domain_name(parts[2], origin) {
                    Err(e) => Err(ConversionErrorView::InvalidDomainName(e)),
                    Ok(target) => Ok(
                        RDataView::SRV {
                            priority: priority_or_default(rec.priority),
                            weight: weight as u16,
                            port: port as u16,
                            target,
                        },
                    ),
                },
            },
        }
    }
}

/// What `str::parse` gives for an `i32`.
pub open spec fn parse_i32_spec(s: Seq<char>) -> Option<int> {
    parse_signed(s, -0x8000_0000, 0x7fff_ffff)
}

/// The resource data of an `SOA` record, whose value is
/// `mname rname serial refresh retry expire minimum`.
pub open spec fn soa_data(rec: DnsRecordView, origin: Seq<char>) -> Result<RDataView, ConversionErrorView> {
    let parts = words(rec.value);
    if parts.len() != 7 {
        Err(
            ConversionErrorView::InvalidFormat(
                "SOA"@,
                "expected 'mname rname serial refresh retry expire minimum'"@,
            ),
        )
    } else {
        match domain_name(parts[0], origin) {
            Err(e) => Err(ConversionErrorView::InvalidDomainName(e)),
            Ok(mname) => match domain_name(parts[1], origin) {
                Err(e) => Err(ConversionErrorView::InvalidDomainName(e)),
                Ok(rname) => match parse_unsigned(parts[2], 0xffff_ffff) {
                    None => Err(ConversionErrorView::InvalidFormat("SOA"@, "invalid serial"@)),
                    Some(serial) => match parse_i32_spec(parts[3]) {
                        None => Err(ConversionErrorView::InvalidFormat("SOA"@, "invalid refresh"@)),
                        Some(refresh) => match parse_i32_spec(parts[4]) {
                            None => Err(ConversionErrorView::InvalidFormat("SOA"@, "invalid retry"@)),
                            Some(retry) => match parse_i32_spec(parts[5]) {
                                None => Err(
                                    ConversionErrorView::InvalidFormat("SOA"@, "invalid expire"@),
                                ),
                                Some(expire) => match parse_unsigned(parts[6], 0xffff_ffff) {
                                    None => Err(
                                        ConversionErrorView::InvalidFormat(
                                            "SOA"@,
                                            "invalid minimum"@,
                                        ),
                                    ),
                                    Some(minimum) => Ok(
                                        RDataView::SOA {
                                            mname,
                                            rname,
                                            serial: serial as u32,
                                            refresh: refresh as i32,
                                            retry: retry as i32,
                                            expire: expire as i32,
                                            minimum: minimum as u32,
                                        },
                                    ),
                                },
                            },
                        },
                    },
                },
            },
        }
    }
}

/// Whether `t` is a CAA property tag: one to fifteen ASCII letters and digits.
pub open spec fn is_caa_tag(t: Seq<char>) -> bool {
    &&& 1 <= t.len() <= 15
    &&& forall|i: int|
        0 <= i < t.len() ==> ('a' <= #[trigger] t[i] <= 'z' || 'A' <= t[i] <= 'Z' || '0' <= t[i]
            <= '9')
}

/// A text without one pair of surrounding double quotes, if it has them.
pub open spec fn unquoted(s: Seq<char>) -> Seq<char> {
    if s.len() >= 2 && s[0] == '"' && s.last() == '"' {
        s.subrange(1, s.len() - 1)
    } else {
        s
    }
}

/// The resource data of a `CAA` record, whose value is `flags tag value`, the
/// value optionally in double quotes.
pub open spec fn caa_data(rec: DnsRecordView) -> Result<RDataView, ConversionErrorView> {
    let parts = words(rec.value);
    if parts.len() != 3 {
        Err(ConversionErrorView::InvalidFormat("CAA"@, "expected 'flags tag value'"@))
    } else {
        match parse_unsigned(parts[0], 0xff) {
            None => Err(ConversionErrorView::InvalidFormat("CAA"@, "invalid flags"@)),
            Some(flags) => if !is_caa_tag(parts[1]) {
                Err(ConversionErrorView::InvalidFormat("CAA"@, "invalid tag"@))
            } else {
                Ok(RDataView::CAA { flags: flags as u8, tag: parts[1], value: unquoted(parts[2]) })
            },
        }
    }
}

/// The resource data that a record stands for under `origin`, by its type
/// taken in upper case, or why it has none.
pub open spec fn rdata_of(rec: DnsRecordView, origin: Seq<char>) -> Result<RDataView, ConversionErrorView> {
    let t = uppercase(rec.record_type);
    if t == "A"@ {
        match ipv4_bits(rec.value) {
            Some(a) => Ok(RDataView::A(a)),
            None => Err(ConversionErrorView::InvalidIpv4(rec.value)),
        }
    } else if t == "AAAA"@ {
        match ipv6_bits(rec.value) {
            Some(a) => Ok(RDataView::AAAA(a)),
            None => Err(ConversionErrorView::InvalidIpv6(rec.value)),
        }
    } else if t == "CNAME"@ {
        name_data(rec.value, origin, |n: Seq<char>| RDataView::CNAME(n))
    } else if t == "NS"@ {
        name_data(rec.value, origin, |n: Seq<char>| RDataView::NS(n))
    } else if t == "PTR"@ {
        name_data(rec.value, origin, |n: Seq<char>| RDataView::PTR(n))
    } else if t == "MX"@ {
        name_data(
            rec.value,
            origin,
            |n: Seq<char>| RDataView::MX { preference: priority_or_default(rec.priority), exchange: n },
        )
    } else if t == "TXT"@ {
        Ok(RDataView::TXT(seq![rec.value]))
    } else if t == "SRV"@ {
        srv_data(rec, origin)
    } else if t == "SOA"@ {
        soa_data(rec, origin)
    } else if t == "CAA"@ {
        caa_data(rec)
    } else {
        Err(ConversionErrorView::UnsupportedType(rec.record_type))
    }
}

/// Whether a result of a conversion is the one that `expected` describes.
pub open spec fn result_is<T: View, E: View>(r: Result<T, E>, expected: Result<T::V, E::V>) -> bool {
    match (r, expected) {
        (Ok(x), Ok(v)) => x@ == v,
        (Err(x), Err(v)) => x@ == v,
        _ => false,
    }
}

/// Whether `t` is a CAA property tag.
fn caa_tag(t: &str) -> (r: bool)
    ensures
        r == is_caa_tag(t@),
{
    let v = to_chars(t);
    if v.len() < 1 || v.len() > 15 {
        return false;
    }
    let mut i: usize = 0;
    while i < v.len()
        invariant
            i <= v@.len(),
            v@ == t@,
            forall|j: int|
                0 <= j < i ==> ('a' <= #[trigger] v@[j] <= 'z' || 'A' <= v@[j] <= 'Z' || '0'
                    <= v@[j] <= '9'),
        decreases v.len() - i,
    {
        let c = v[i];
        if !(('a' <= c && c <= 'z') || ('A' <= c && c <= 'Z') || ('0' <= c && c <= '9')) {
            return false;
        }
        i += 1;
    }
    true
}

/// The text without one pair of surrounding double quotes, if it has them.
fn unquote(s: &str) -> (r: String)
    ensures
        r@ == unquoted(s@),
{
    let v = to_chars(s);
    let n = v.len();
    if n >= 2 && v[0] == '"' && v[n - 1] == '"' {
        from_char_range(&v, 1, n - 1)
    } else {
        from_char_range(&v, 0, n)
    }
}

/// A copy of a string given by a literal.
fn text(s: &str) -> (r: String)
    ensures
        r@ == s@,
{
    s.to_owned()
}

impl DnsRecord {
    /// The resource data of an `SRV` record.
    fn srv_rdata(&self, origin: &str) -> (r: Result<RData, RecordConversionError>)
        ensures
            result_is(r, srv_data(self@, origin@)),
    {
        let parts = split_words(self.value.as_str());
        if parts.len() != 3 {
            return Err(
                RecordConversionError::InvalidFormat(
                    text("SRV"),
                    text("expected 'weight port target'"),
                ),
            );
        }
        assert(parts.deep_view()[0] == parts@[0]@ && parts.deep_view()[1] == parts@[1]@
            && parts.deep_view()[2] == parts@[2]@);
        let weight = match parse_u16(parts[0].as_str()) {
            Some(w) => w,
            None => {
                return Err(RecordConversionError::InvalidFormat(text("SRV"), text("invalid weight")));
            },
        };
        let port = match parse_u16(parts[1].as_str()) {
            Some(p) => p,
            None => {
                return Err(RecordConversionError::InvalidFormat(text("SRV"), text("invalid port")));
            },
        };
        let target = parse_domain_name(parts[2].as_str(), origin)?;
        let priority = match self.priority {
            Some(p) => p,
            None => 10,
        };
        Ok(RData::SRV { priority, weight, port, target })
    }

    /// The resource data of an `SOA` record.
    fn soa_rdata(&self, origin: &str) -> (r: Result<RData, RecordConversionError>)
        ensures
            result_is(r, soa_data(self@, origin@)),
    {
        let parts = split_words(self.value.as_str());
        if parts.len() != 7 {
            return Err(
                RecordConversionError::InvalidFormat(
                    text("SOA"),
                    text("expected 'mname rname serial refresh retry expire minimum'"),
                ),
            );
        }
        assert(forall|i: int| 0 <= i < 7 ==> parts.deep_view()[i] == #[trigger] parts@[i]@);
        let mname = parse_domain_name(parts[0].as_str(), origin)?;
        let rname = parse_domain_name(parts[1].as_str(), origin)?;
        let serial = match parse_u32(parts[2].as_str()) {
            Some(v) => v,
            None => {
                return Err(RecordConversionError::InvalidFormat(text("SOA"), text("invalid serial")));
            },
        };
        let refresh = match parse_i32(parts[3].as_str()) {
            Some(v) => v,
            None => {
                return Err(RecordConversionError::InvalidFormat(text("SOA"), text("invalid refresh")));
            },
        };
        let retry = match parse_i32(parts[4].as_str()) {
            Some(v) => v,
            None => {
                return Err(RecordConversionError::InvalidFormat(text("SOA"), text("invalid retry")));
            },
        };
        let expire = match parse_i32(parts[5].as_str()) {
            Some(v) => v,
            None => {
                return Err(RecordConversionError::InvalidFormat(text("SOA"), text("invalid expire")));
            },
        };
        let minimum = match parse_u32(parts[6].as_str()) {
            Some(v) => v,
            None => {
                return Err(RecordConversionError::InvalidFormat(text("SOA"), text("invalid minimum")));
            },
        };
        Ok(RData::SOA { mname, rname, serial, refresh, retry, expire, minimum })
    }

    /// The resource data of a `CAA` record.
    fn caa_rdata(&self) -> (r: Result<RData, RecordConversionError>)
        ensures
            result_is(r, caa_data(self@)),
    {
        let parts = split_words(self.value.as_str());
        if parts.len() != 3 {
            return Err(
                RecordConversionError::InvalidFormat(text("CAA"), text("expected 'flags tag value'")),
            );
        }
        assert(forall|i: int| 0 <= i < 3 ==> parts.deep_view()[i] == #[trigger] parts@[i]@);
        let flags = match parse_u8(parts[0].as_str()) {
            Some(f) => f,
            None => {
                return Err(RecordConversionError::InvalidFormat(text("CAA"), text("invalid flags")));
            },
        };
        if !caa_tag(parts[1].as_str()) {
            return Err(RecordConversionError::InvalidFormat(text("CAA"), text("invalid tag")));
        }
        let tag = parts[1].clone();
        let value = unquote(parts[2].as_str());
        Ok(RData::CAA { flags, tag, value })
    }

    /// The resource data that the record stands for under `origin` (the zone's
    /// name), chosen by the record's type taken in upper case.
    pub fn to_rdata(&self, origin: &str) -> (r: Result<RData, RecordConversionError>)
        ensures
            result_is(r, rdata_of(self@, origin@)),
    {
        let rtype = to_uppercase(self.record_type.as_str());
        let t = rtype.as_str();
        if same_text(t, "A") {
            match parse_ipv4(self.value.as_str()) {
                Some(a) => Ok(RData::A(a)),
                None => Err(RecordConversionError::InvalidIpv4(self.value.clone())),
            }
        } else if same_text(t, "AAAA") {
            match parse_ipv6(self.value.as_str()) {
                Some(a) => Ok(RData::AAAA(a)),
                None => Err(RecordConversionError::InvalidIpv6(self.value.clone())),
            }
        } else if same_text(t, "CNAME") {
            let n = parse_domain_name(self.value.as_str(), origin)?;
            Ok(RData::CNAME(n))
        } else if same_text(t, "NS") {
            let n = parse_domain_name(self.value.as_str(), origin)?;
            Ok(RData::NS(n))
        } else if same_text(t, "PTR") {
            let n = parse_domain_name(self.value.as_str(), origin)?;
            Ok(RData::PTR(n))
        } else if same_text(t, "MX") {
            let exchange = parse_domain_name(self.value.as_str(), origin)?;
            let preference = match self.priority {
                Some(p) => p,
                None => 10,
            };
            Ok(RData::MX { preference, exchange })
        } else if same_text(t, "TXT") {
            let mut texts: Vec<String> = Vec::new();
            texts.push(self.value.clone());
            assert(texts.deep_view() =~= seq![self.value@]);
            Ok(RData::TXT(texts))
        } else if same_text(t, "SRV") {
            self.srv_rdata(origin)
        } else if same_text(t, "SOA") {
            self.soa_rdata(origin)
        } else if same_text(t, "CAA") {
            self.caa_rdata()
        } else {
            Err(RecordConversionError::UnsupportedType(self.record_type.clone()))
        }
    }

    /// The resource record that the record stands for, owned by `name`, under `origin`.
    pub fn to_dns_record(&self, name: &str, origin: &str) -> (r: Result<Record, RecordConversionError>)
        ensures
            match rdata_of(self@, origin@) {
                Ok(v) => r matches Ok(rec) && rec@ == (RecordView { name: name@, ttl: self.ttl, rdata: v }),
                Err(e) => r matches Err(x) && x@ == e,
            },
    {
        let rdata = self.to_rdata(origin)?;
        Ok(Record { name: name.to_owned(), ttl: self.ttl, rdata })
    }
}

/// The DNS record types that the server names, by their numbers in the DNS
/// (RFC 1035, RFC 3596, RFC 2782, RFC 8659); any other type keeps its number.
#[derive(Debug, Clone, Copy, PartialEq, Eq, Structural)]
pub enum RecordType {
    A,
    AAAA,
    CNAME,
    MX,
    NS,
    PTR,
    SOA,
    SRV,
    TXT,
    CAA,
    Unknown(u16),
}

/// The record type with number `code`.
pub open spec fn record_type_of(code: u16) -> RecordType {
    if code == 1 {
        RecordType::A
    } else if code == 28 {
        RecordType::AAAA
    } else if code == 5 {
        RecordType::CNAME
    } else if code == 15 {
        RecordType::MX
    } else if code == 2 {
        RecordType::NS
    } else if code == 12 {
        RecordType::PTR
    } else if code == 6 {
        RecordType::SOA
    } else if code == 33 {
        RecordType::SRV
    } else if code == 16 {
        RecordType::TXT
    } else if code == 257 {
        RecordType::CAA
    } else {
        RecordType::Unknown(code)
    }
}

/// The number of a record type in the DNS.
pub open spec fn record_type_code(rt: RecordType) -> u16 {
    match rt {
        RecordType::A => 1,
        RecordType::AAAA => 28,
        RecordType::CNAME => 5,
        RecordType::MX => 15,
        RecordType::NS => 2,
        RecordType::PTR => 12,
        RecordType::SOA => 6,
        RecordType::SRV => 33,
        RecordType::TXT => 16,
        RecordType::CAA => 257,
        RecordType::Unknown(code) => code,
    }
}

/// A record type taken from its number gives that number back.
pub proof fn law_type_code_round_trip(code: u16)
    ensures
        record_type_code(record_type_of(code)) == code,
{
}

/// The name of a record type as the contract's keys write it.
pub open spec fn record_type_name(rt: RecordType) -> Seq<char> {
    match rt {
        RecordType::A => "A"@,
        RecordType::AAAA => "AAAA"@,
        RecordType::CNAME => "CNAME"@,
        RecordType::MX => "MX"@,
        RecordType::NS => "NS"@,
        RecordType::PTR => "PTR"@,
        RecordType::SOA => "SOA"@,
        RecordType::SRV => "SRV"@,
        RecordType::TXT => "TXT"@,
        RecordType::CAA => "CAA"@,
        RecordType::Unknown(_) => "UNKNOWN"@,
    }
}

impl RecordType {
    /// The record type with number `code`.
    pub fn from_code(code: u16) -> (r: RecordType)
        ensures
            r == record_type_of(code),
    {
        if code == 1 {
            RecordType::A
        } else if code == 28 {
            RecordType::AAAA
        } else if code == 5 {
            RecordType::CNAME
        } else if code == 15 {
            RecordType::MX
        } else if code == 2 {
            RecordType::NS
        } else if code == 12 {
            RecordType::PTR
        } else if code == 6 {
            RecordType::SOA
        } else if code == 33 {
            RecordType::SRV
        } else if code == 16 {
            RecordType::TXT
        } else if code == 257 {
            RecordType::CAA
        } else {
            RecordType::Unknown(code)
        }
    }

    /// The number of the record type in the DNS.
    pub fn code(self) -> (r: u16)
        ensures
            r == record_type_code(self),
    {
        match self {
            RecordType::A => 1,
            RecordType::AAAA => 28,
            RecordType::CNAME => 5,
            RecordType::MX => 15,
            RecordType::NS => 2,
            RecordType::PTR => 12,
            RecordType::SOA => 6,
            RecordType::SRV => 33,
            RecordType::TXT => 16,
            RecordType::CAA => 257,
            RecordType::Unknown(code) => code,
        }
    }
}

/// The name of a record type, `UNKNOWN` for a type the server does not name.
pub fn record_type_to_string(rt: RecordType) -> (r: String)
    ensures
        r@ == record_type_name(rt),
{
    let name = match rt {
        RecordType::A => "A",
        RecordType::AAAA => "AAAA",
        RecordType::CNAME => "CNAME",
        RecordType::MX => "MX",
        RecordType::NS => "NS",
        RecordType::PTR => "PTR",
        RecordType::SOA => "SOA",
        RecordType::SRV => "SRV",
        RecordType::TXT => "TXT",
        RecordType::CAA => "CAA",
        RecordType::Unknown(_) => "UNKNOWN",
    };
    name.to_owned()
}

/// An `MX` record (its type in upper case) whose value names a domain under
/// `origin` converts to `MX` data for that domain with the record's priority as
/// preference, or 10 when the record has none; an `SRV` record likewise takes
/// the record's priority, or 10.
pub proof fn law_priority_is_kept(rec: DnsRecordView, origin: Seq<char>)
    ensures
        uppercase(rec.record_type) == "MX"@ ==> match domain_name(rec.value, origin) {
            Ok(n) => rdata_of(rec, origin) == Ok::<RDataView, ConversionErrorView>(
                RDataView::MX {
                    preference: match rec.priority {
                        Some(p) => p,
                        None => 10,
                    },
                    exchange: n,
                },
            ),
            Err(e) => rdata_of(rec, origin) == Err::<RDataView, ConversionErrorView>(
                ConversionErrorView::InvalidDomainName(e),
            ),
        },
        uppercase(rec.record_type) == "SRV"@ ==> (rdata_of(rec, origin) matches Ok(
            RDataView::SRV { priority, .. },
        ) ==> priority == match rec.priority {
            Some(p) => p,
            None => 10u16,
        }),
{
    reveal_strlit("MX");
    reveal_strlit("SRV");
    reveal_strlit("A");
    reveal_strlit("AAAA");
    reveal_strlit("CNAME");
    reveal_strlit("NS");
    reveal_strlit("PTR");
    if uppercase(rec.record_type) == "MX"@ {
        assert("MX"@ != "A"@) by {
            assert("MX"@.len() != "A"@.len());
        }
        assert("MX"@ != "AAAA"@) by {
            assert("MX"@.len() != "AAAA"@.len());
        }
        assert("MX"@ != "CNAME"@);
        assert("MX"@ != "NS"@) by {
            assert("MX"@[0] != "NS"@[0]);
        }
        assert("MX"@ != "PTR"@);
        match domain_name(rec.value, origin) {
            Ok(n) => {
                assert(priority_or_default(rec.priority) == match rec.priority {
                    Some(p) => p,
                    None => 10u16,
                });
            },
            Err(e) => {},
        }
    }
}

} // verus!
