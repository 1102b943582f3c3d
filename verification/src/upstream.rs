//! The decisions of the upstream resolver, which forwards names outside the
//! NEAR top-level domains to ordinary DNS servers.

use vstd::prelude::*;

use crate::record::check_name;
use crate::record::name_parse_error;
use crate::record::name_parses;
use crate::record::record_type_code;
use crate::record::RData;
use crate::record::RDataView;
use crate::record::Record;
use crate::record::RecordType;
use crate::record::RecordView;
use crate::text::concat;

verus! {

/// Why an upstream lookup gave nothing.
#[derive(Debug)]
pub enum UpstreamError {
    /// The name is not a domain name, or the lookup failed.
    ResolutionFailed(String),
    /// The servers have no records of the type for the name.
    NotFound,
}

/// The kind of upstream lookup that a record type calls for.
#[derive(Debug, PartialEq, Eq, Structural)]
pub enum LookupKind {
    Ipv4,
    Ipv6,
    Mx,
    Txt,
    Ns,
    Soa,
    /// A lookup of any other type, whose answer is filtered to that type.
    Other,
}

/// The kind of lookup for a record type.
pub open spec fn lookup_kind_of(rt: RecordType) -> LookupKind {
    match rt {
        RecordType::A => LookupKind::Ipv4,
        RecordType::AAAA => LookupKind::Ipv6,
        RecordType::MX => LookupKind::Mx,
        RecordType::TXT => LookupKind::Txt,
        RecordType::NS => LookupKind::Ns,
        RecordType::SOA => LookupKind::Soa,
        _ => LookupKind::Other,
    }
}

/// The kind of lookup for a record type.
pub fn lookup_kind(rt: RecordType) -> (r: LookupKind)
    ensures
        r == lookup_kind_of(rt),
{
    match rt {
        RecordType::A => LookupKind::Ipv4,
        RecordType::AAAA => LookupKind::Ipv6,
        RecordType::MX => LookupKind::Mx,
        RecordType::TXT => LookupKind::Txt,
        RecordType::NS => LookupKind::Ns,
        RecordType::SOA => LookupKind::Soa,
        _ => LookupKind::Other,
    }
}

/// The error for a name that is not a domain name, from the parser's message.
pub fn invalid_domain(message: &str) -> (r: UpstreamError)
    ensures
        r matches UpstreamError::ResolutionFailed(m) && m@ == "Invalid domain: "@ + message@,
{
    UpstreamError::ResolutionFailed(concat("Invalid domain: ", message))
}

/// What `String::from_utf8` gives for bytes: their text when they are UTF-8.
pub uninterp spec fn utf8_text(bytes: Seq<u8>) -> Option<Seq<char>>;

/// `String::from_utf8`; the result is named by `utf8_text`.
#[verifier::external_body]
fn decode_utf8(bytes: &Vec<u8>) -> (r: Option<String>)
    ensures
        match r {
            Some(s) => utf8_text(bytes@) == Some(s@),
            None => utf8_text(bytes@) is None,
        },
{
    String::from_utf8(bytes.clone()).ok()
}

/// The texts of the character strings of a TXT record that are UTF-8, in order.
pub open spec fn utf8_texts(chunks: Seq<Seq<u8>>) -> Seq<Seq<char>>
    decreases chunks.len(),
{
    if chunks.len() == 0 {
        Seq::empty()
    } else {
        let before = utf8_texts(chunks.drop_last());
        match utf8_text(chunks.last()) {
            Some(t) => before.push(t),
            None => before,
        }
    }
}

/// The texts of the character strings of a TXT record; strings that are not
/// UTF-8 are left out.
pub fn txt_strings(chunks: &Vec<Vec<u8>>) -> (r: Vec<String>)
    ensures
        r.deep_view() == utf8_texts(chunks.deep_view()),
{
    let mut out: Vec<String> = Vec::new();
    let mut i: usize = 0;
    assert(chunks.deep_view().take(0) =~= Seq::<Seq<u8>>::empty());
    while i < chunks.len()
        invariant
            i <= chunks@.len(),
            out.deep_view() == utf8_texts(chunks.deep_view().take(i as int)),
        decreases chunks.len() - i,
    {
        let ghost before = out.deep_view();
        assert(chunks.deep_view().take(i + 1).drop_last() =~= chunks.deep_view().take(i as int));
        assert(chunks.deep_view().take(i + 1).last() == chunks@[i as int]@);
        match decode_utf8(&chunks[i]) {
            Some(t) => {
                let ghost tv = t@;
                out.push(t);
                assert(out.deep_view() =~= before.push(tv));
            },
            None => {},
        }
        i += 1;
    }
    assert(chunks.deep_view().take(chunks@.len() as int) =~= chunks.deep_view());
    out
}

/// The checked name of an upstream lookup: the domain itself when it is a
/// domain name, `ResolutionFailed` with the parser's message otherwise.
pub fn upstream_name(domain: &str) -> (r: Result<String, UpstreamError>)
    ensures
        name_parses(domain@) ==> (r matches Ok(n) && n@ == domain@),
        !name_parses(domain@) ==> (r matches Err(UpstreamError::ResolutionFailed(m)) && m@
            == "Invalid domain: "@ + name_parse_error(domain@)->0),
{
    match check_name(domain) {
        None => Ok(domain.to_owned()),
        Some(message) => Err(invalid_domain(message.as_str())),
    }
}

/// One item of an upstream answer, as plain values: the data that a typed
/// lookup found, or a whole record of a generic lookup.
#[derive(Debug)]
pub enum UpstreamItem {
    A(u32),
    AAAA(u128),
    MX { preference: u16, exchange: String },
    /// The character strings of a TXT record, as bytes.
    TXT(Vec<Vec<u8>>),
    NS(String),
    SOA {
        mname: String,
        rname: String,
        serial: u32,
        refresh: i32,
        retry: i32,
        expire: i32,
        minimum: u32,
    },
    /// A record of a generic lookup: its owner name, time to live, type
    /// number and the bytes of its data.
    Other { name: String, ttl: u32, code: u16, data: Vec<u8> },
}

/// An item of an upstream answer as plain values.
pub enum UpstreamItemView {
    A(u32),
    AAAA(u128),
    MX { preference: u16, exchange: Seq<char> },
    TXT(Seq<Seq<u8>>),
    NS(Seq<char>),
    SOA {
        mname: Seq<char>,
        rname: Seq<char>,
        serial: u32,
        refresh: i32,
        retry: i32,
        expire: i32,
        minimum: u32,
    },
    Other { name: Seq<char>, ttl: u32, code: u16, data: Seq<u8> },
}

impl View for UpstreamItem {
    type V = UpstreamItemView;

    open spec fn view(&self) -> UpstreamItemView {
        match self {
            UpstreamItem::A(a) => UpstreamItemView::A(*a),
            UpstreamItem::AAAA(a) => UpstreamItemView::AAAA(*a),
            UpstreamItem::MX { preference, exchange } => UpstreamItemView::MX {
                preference: *preference,
                exchange: exchange@,
            },
            UpstreamItem::TXT(chunks) => UpstreamItemView::TXT(chunks.deep_view()),
            UpstreamItem::NS(n) => UpstreamItemView::NS(n@),
            UpstreamItem::SOA { mname, rname, serial, refresh, retry, expire, minimum } =>
                UpstreamItemView::SOA {
                mname: mname@,
                rname: rname@,
                serial: *serial,
                refresh: *refresh,
                retry: *retry,
                expire: *expire,
                minimum: *minimum,
            },
            UpstreamItem::Other { name, ttl, code, data } => UpstreamItemView::Other {
                name: name@,
                ttl: *ttl,
                code: *code,
                data: data@,
            },
        }
    }
}

impl DeepView for UpstreamItem {
    type V = UpstreamItemView;

    open spec fn deep_view(&self) -> UpstreamItemView {
        self@
    }
}

/// The time to live of the records that a typed upstream lookup gives.
pub open spec fn upstream_ttl() -> u32 {
    300
}

/// The record that an item of an upstream answer becomes in a lookup of kind
/// `kind` for the type numbered `code` of `name`, or nothing when the lookup
/// does not keep it: a typed lookup keeps the data of its own type as a record
/// of `name` with a time to live of 300; a generic lookup keeps the records of
/// the type it asked for as they are.
pub open spec fn upstream_record(kind: LookupKind, code: u16, name: Seq<char>, item: UpstreamItemView) -> Option<RecordView> {
    let typed = |rdata: RDataView| Some(RecordView { name, ttl: upstream_ttl(), rdata });
    match item {
        UpstreamItemView::A(a) => if kind == LookupKind::Ipv4 {
            typed(RDataView::A(a))
        } else {
            None
        },
        UpstreamItemView::AAAA(a) => if kind == LookupKind::Ipv6 {
            typed(RDataView::AAAA(a))
        } else {
            None
        },
        UpstreamItemView::MX { preference, exchange } => if kind == LookupKind::Mx {
            typed(RDataView::MX { preference, exchange })
        } else {
            None
        },
        UpstreamItemView::TXT(chunks) => if kind == LookupKind::Txt {
            typed(RDataView::TXT(utf8_texts(chunks)))
        } else {
            None
        },
        UpstreamItemView::NS(n) => if kind == LookupKind::Ns {
            typed(RDataView::NS(n))
        } else {
            None
        },
        UpstreamItemView::SOA { mname, rname, serial, refresh, retry, expire, minimum } => if kind
            == LookupKind::Soa {
            typed(RDataView::SOA { mname, rname, serial, refresh, retry, expire, minimum })
        } else {
            None
        },
        UpstreamItemView::Other { name: owner, ttl, code: c, data } => if kind == LookupKind::Other
            && c == code {
            Some(RecordView { name: owner, ttl, rdata: RDataView::Other { code: c, data } })
        } else {
            None
        },
    }
}

/// The records that an upstream answer gives, in the answer's order.
pub open spec fn upstream_records_of(kind: LookupKind, code: u16, name: Seq<char>, items: Seq<UpstreamItemView>) -> Seq<RecordView>
    decreases items.len(),
{
    if items.len() == 0 {
        Seq::empty()
    } else {
        let before = upstream_records_of(kind, code, name, items.drop_last());
        match upstream_record(kind, code, name, items.last()) {
            Some(r) => before.push(r),
            None => before,
        }
    }
}

/// The records that an upstream lookup of `rtype` for `name` gives from the
/// items of its answer.
pub open spec fn upstream_records_for(rtype: RecordType, name: Seq<char>, items: Seq<UpstreamItemView>) -> Seq<RecordView> {
    upstream_records_of(lookup_kind_of(rtype), record_type_code(rtype), name, items)
}

/// The record that one item of an upstream answer becomes, if the lookup keeps it.
fn upstream_record_of(kind: &LookupKind, code: u16, name: &str, item: UpstreamItem) -> (r: Option<Record>)
    ensures
        match upstream_record(*kind, code, name@, item@) {
            Some(v) => r matches Some(x) && x@ == v,
            None => r is None,
        },
{
    match item {
        UpstreamItem::A(a) => if *kind == LookupKind::Ipv4 {
            Some(Record { name: name.to_owned(), ttl: 300, rdata: RData::A(a) })
        } else {
            None
        },
        UpstreamItem::AAAA(a) => if *kind == LookupKind::Ipv6 {
            Some(Record { name: name.to_owned(), ttl: 300, rdata: RData::AAAA(a) })
        } else {
            None
        },
        UpstreamItem::MX { preference, exchange } => if *kind == LookupKind::Mx {
            Some(Record { name: name.to_owned(), ttl: 300, rdata: RData::MX { preference, exchange } })
        } else {
            None
        },
        UpstreamItem::TXT(chunks) => if *kind == LookupKind::Txt {
            Some(Record { name: name.to_owned(), ttl: 300, rdata: RData::TXT(txt_strings(&chunks)) })
        } else {
            None
        },
        UpstreamItem::NS(n) => if *kind == LookupKind::Ns {
            Some(Record { name: name.to_owned(), ttl: 300, rdata: RData::NS(n) })
        } else {
            None
        },
        UpstreamItem::SOA { mname, rname, serial, refresh, retry, expire, minimum } => if *kind
            == LookupKind::Soa {
            Some(
                Record {
                    name: name.to_owned(),
                    ttl: 300,
                    rdata: RData::SOA { mname, rname, serial, refresh, retry, expire, minimum },
                },
            )
        } else {
            None
        },
        UpstreamItem::Other { name: owner, ttl, code: c, data } => if *kind == LookupKind::Other
            && c == code {
            Some(Record { name: owner, ttl, rdata: RData::Other { code: c, data } })
        } else {
            None
        },
    }
}

/// The records of an upstream lookup of `rtype` for `name` from the items of
/// its answer, in the answer's order (see `upstream_record`), or `NotFound`
/// when none is kept.
pub fn upstream_records(rtype: RecordType, name: &str, answer: Vec<UpstreamItem>) -> (r: Result<
    Vec<Record>,
    UpstreamError,
>)
    ensures
        upstream_records_for(rtype, name@, answer.deep_view()).len() == 0 ==> r matches Err(
            UpstreamError::NotFound,
        ),
        upstream_records_for(rtype, name@, answer.deep_view()).len() > 0 ==> (r matches Ok(v)
            && v.deep_view() == upstream_records_for(rtype, name@, answer.deep_view())),
{
    let kind = lookup_kind(rtype);
    let code = rtype.code();
    let ghost items = answer.deep_view();
    let n = answer.len();
    let mut rest = answer;
    let mut out: Vec<Record> = Vec::new();
    let mut k: usize = 0;
    assert(items.take(0) =~= Seq::<UpstreamItemView>::empty());
    while rest.len() > 0
        invariant
            k + rest@.len() == items.len(),
            items.len() == n,
            rest.deep_view() == items.skip(k as int),
            kind == lookup_kind_of(rtype),
            code == record_type_code(rtype),
            out.deep_view() == upstream_records_of(kind, code, name@, items.take(k as int)),
        decreases rest.len(),
    {
        let ghost before = out.deep_view();
        let ghost rest_before = rest.deep_view();
        let item = rest.remove(0);
        assert(item@ == items[k as int]) by {
            assert(rest_before[0] == item@);
        }
        assert(rest.deep_view() =~= items.skip(k + 1)) by {
            assert forall|j: int| 0 <= j < rest@.len() implies #[trigger] rest.deep_view()[j]
                == items.skip(k + 1)[j] by {
                assert(rest.deep_view()[j] == rest@[j]@);
                assert(rest_before[j + 1] == items.skip(k as int)[j + 1]);
            }
        }
        assert(items.take(k + 1).drop_last() =~= items.take(k as int));
        assert(items.take(k + 1).last() == items[k as int]);
        match upstream_record_of(&kind, code, name, item) {
            Some(rec) => {
                let ghost rv = rec@;
                out.push(rec);
                assert(out.deep_view() =~= before.push(rv));
            },
            None => {},
        }
        k += 1;
    }
    assert(items.take(k as int) =~= items);
    if out.len() == 0 {
        Err(UpstreamError::NotFound)
    } else {
        Ok(out)
    }
}

/// The records that an answer gives grow item by item: an item of the type
/// that a typed lookup asks for (an address for `A` or `AAAA`, an exchange for
/// `MX`, strings for `TXT`, a server for `NS`, a zone for `SOA`) adds, after the
/// others, a record of the name with a time to live of 300 and that data; a
/// record of a generic lookup is added as it is when its type is the one asked
/// for, and left out otherwise.
pub proof fn law_answer_items_become_records(
    name: Seq<char>,
    items: Seq<UpstreamItemView>,
    it: UpstreamItemView,
    rt: RecordType,
)
    ensures
        match it {
            UpstreamItemView::A(x) => upstream_records_for(RecordType::A, name, items.push(it))
                == upstream_records_for(RecordType::A, name, items).push(
                (RecordView { name, ttl: 300, rdata: RDataView::A(x) }),
            ),
            UpstreamItemView::AAAA(x) => upstream_records_for(RecordType::AAAA, name, items.push(it))
                == upstream_records_for(RecordType::AAAA, name, items).push(
                (RecordView { name, ttl: 300, rdata: RDataView::AAAA(x) }),
            ),
            UpstreamItemView::MX { preference, exchange } => upstream_records_for(
                RecordType::MX,
                name,
                items.push(it),
            ) == upstream_records_for(RecordType::MX, name, items).push(
                (RecordView { name, ttl: 300, rdata: RDataView::MX { preference, exchange } }),
            ),
            UpstreamItemView::TXT(chunks) => upstream_records_for(RecordType::TXT, name, items.push(it))
                == upstream_records_for(RecordType::TXT, name, items).push(
                (RecordView { name, ttl: 300, rdata: RDataView::TXT(utf8_texts(chunks)) }),
            ),
            UpstreamItemView::NS(n) => upstream_records_for(RecordType::NS, name, items.push(it))
                == upstream_records_for(RecordType::NS, name, items).push(
                (RecordView { name, ttl: 300, rdata: RDataView::NS(n) }),
            ),
            UpstreamItemView::SOA { mname, rname, serial, refresh, retry, expire, minimum } =>
                upstream_records_for(RecordType::SOA, name, items.push(it)) == upstream_records_for(
                RecordType::SOA,
                name,
                items,
            ).push(
                (RecordView {
                    name,
                    ttl: 300,
                    rdata: RDataView::SOA { mname, rname, serial, refresh, retry, expire, minimum },
                }),
            ),
            UpstreamItemView::Other { name: owner, ttl, code, data } => lookup_kind_of(rt)
                == LookupKind::Other ==> upstream_records_for(rt, name, items.push(it)) == if code
                == record_type_code(rt) {
                upstream_records_for(rt, name, items).push(
                    (RecordView { name: owner, ttl, rdata: RDataView::Other { code, data } }),
                )
            } else {
                upstream_records_for(rt, name, items)
            },
        },
{
    assert(items.push(it).drop_last() =~= items);
    assert(items.push(it).last() == it);
}

} // verus!
