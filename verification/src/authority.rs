//! The decisions of the DNS authority: where a lookup goes, and what it answers.

use vstd::prelude::*;

use crate::record::check_name;
use crate::record::name_parses;
use crate::record::rdata_of;
use crate::record::DnsRecord;
use crate::record::DnsRecordView;
use crate::record::RDataView;
use crate::record::ConversionErrorView;
use crate::record::domain_name;
use crate::text::uppercase;
use crate::record::Record;
use crate::record::RecordView;
use crate::resolver::domain_labels;
use crate::resolver::near_tlds;
use crate::resolver::NearResolver;
use crate::resolver::ResolverError;
use crate::resolver::ResolverErrorView;
use crate::text::char_is;
use crate::text::lemma_split_on_nonempty;
use crate::text::lowercase;
use crate::text::split_char;
use crate::text::trim_end_char;
use crate::upstream::UpstreamError;

verus! {

/// The answer to a lookup.
#[derive(Debug)]
pub enum LookupAnswer<R> {
    /// These records.
    Records(Vec<R>),
    /// The name does not exist (NXDOMAIN).
    NxDomain,
    /// The lookup failed (SERVFAIL).
    ServFail,
    /// The lookup goes to the upstream servers.
    Upstream,
}

/// Where a lookup goes.
#[derive(Debug, PartialEq, Eq, Structural)]
pub enum Route {
    /// To the NEAR contracts.
    Near,
    /// To the upstream DNS servers.
    Upstream,
}

/// The top-level domain of a name: its last label, trailing dots left out.
pub open spec fn tld_of(name: Seq<char>) -> Seq<char> {
    domain_labels(name).last()
}

/// The top-level domain of a name. A name always has one, possibly empty.
pub fn extract_tld(name: &str) -> (r: Option<String>)
    ensures
        r matches Some(t) && t@ == tld_of(name@),
{
    let trimmed = trim_end_char(name, '.');
    let parts = split_char(trimmed.as_str(), '.');
    proof {
        lemma_split_on_nonempty(trimmed@, char_is('.'));
    }
    if parts.len() == 0 {
        None
    } else {
        let last = parts.len() - 1;
        assert(parts.deep_view()[last as int] == parts@[last as int]@);
        Some(parts[last].clone())
    }
}

/// Where a lookup of `name` goes: to the NEAR contracts when its top-level
/// domain, in lower case, is a NEAR one, upstream otherwise.
pub fn route(resolver: &NearResolver, name: &str) -> (r: Route)
    ensures
        r == (if near_tlds().contains(lowercase(tld_of(name@))) {
            Route::Near
        } else {
            Route::Upstream
        }),
{
    match extract_tld(name) {
        Some(tld) => {
            if resolver.is_near_tld(tld.as_str()) {
                Route::Near
            } else {
                Route::Upstream
            }
        },
        None => Route::Upstream,
    }
}

/// The resource records that a list of stored records stands for, owned by
/// `name` under `origin`, in order; records that do not convert are left out.
pub open spec fn converted(records: Seq<DnsRecordView>, name: Seq<char>, origin: Seq<char>) -> Seq<
    RecordView,
>
    decreases records.len(),
{
    if records.len() == 0 {
        Seq::empty()
    } else {
        let before = converted(records.drop_last(), name, origin);
        match rdata_of(records.last(), origin) {
            Ok(v) => before.push(RecordView { name, ttl: records.last().ttl, rdata: v }),
            Err(_) => before,
        }
    }
}

/// The resource records of the records that convert, in order.
pub fn convert_records(records: Vec<DnsRecord>, name: &str, origin: &str) -> (r: Vec<Record>)
    ensures
        r.deep_view() == converted(records.deep_view(), name@, origin@),
{
    let mut out: Vec<Record> = Vec::new();
    let mut i: usize = 0;
    assert(records.deep_view().take(0) =~= Seq::<DnsRecordView>::empty());
    while i < records.len()
        invariant
            i <= records@.len(),
            out.deep_view() == converted(records.deep_view().take(i as int), name@, origin@),
        decreases records.len() - i,
    {
        let ghost before = out.deep_view();
        assert(records.deep_view().take(i + 1).drop_last() =~= records.deep_view().take(i as int));
        assert(records.deep_view().take(i + 1).last() == records@[i as int]@);
        match records[i].to_dns_record(name, origin) {
            Ok(rec) => {
                let ghost rv = rec@;
                out.push(rec);
                assert(out.deep_view() =~= before.push(rv));
            },
            Err(_) => {},
        }
        i += 1;
    }
    assert(records.deep_view().take(records@.len() as int) =~= records.deep_view());
    out
}

/// The origin of a NEAR name: the name itself when it parses as a domain
/// name, the root otherwise.
pub open spec fn origin_of(domain: Seq<char>) -> Seq<char> {
    if name_parses(domain) {
        domain
    } else {
        "."@
    }
}

/// The answer to a lookup of `domain` that went to the NEAR contracts, from
/// what the resolution gave.
pub open spec fn near_answer_spec(
    domain: Seq<char>,
    result: Result<Seq<DnsRecordView>, ResolverErrorView>,
) -> LookupAnswerView {
    match result {
        Ok(records) => {
            let rs = converted(records, domain, origin_of(domain));
            if rs.len() == 0 {
                LookupAnswerView::NxDomain
            } else {
                LookupAnswerView::Records(rs)
            }
        },
        Err(ResolverErrorView::NotFound) => LookupAnswerView::NxDomain,
        Err(ResolverErrorView::NotNearTld) => LookupAnswerView::Upstream,
        Err(_) => LookupAnswerView::ServFail,
    }
}

/// A lookup answer of resource records, as plain values.
pub enum LookupAnswerView {
    Records(Seq<RecordView>),
    NxDomain,
    ServFail,
    Upstream,
}

/// The answer as plain values.
pub open spec fn answer_view(a: LookupAnswer<Record>) -> LookupAnswerView {
    match a {
        LookupAnswer::Records(rs) => LookupAnswerView::Records(rs.deep_view()),
        LookupAnswer::NxDomain => LookupAnswerView::NxDomain,
        LookupAnswer::ServFail => LookupAnswerView::ServFail,
        LookupAnswer::Upstream => LookupAnswerView::Upstream,
    }
}

/// The resolution's result as plain values.
pub open spec fn result_view(r: Result<Vec<DnsRecord>, ResolverError>) -> Result<
    Seq<DnsRecordView>,
    ResolverErrorView,
> {
    match r {
        Ok(v) => Ok(v.deep_view()),
        Err(e) => Err(e@),
    }
}

/// The answer to a lookup of `domain` through the NEAR contracts: the records
/// that convert, owned by the name; NXDOMAIN when none convert or the name is
/// not found; the upstream servers when the name is not a NEAR one; SERVFAIL
/// on any other error.
pub fn near_answer(domain: &str, result: Result<Vec<DnsRecord>, ResolverError>) -> (r: LookupAnswer<
    Record,
>)
    ensures
        answer_view(r) == near_answer_spec(domain@, result_view(result)),
{
    match result {
        Ok(records) => {
            let origin = if check_name(domain).is_none() {
                domain.to_owned()
            } else {
                ".".to_owned()
            };
            let rs = convert_records(records, domain, origin.as_str());
            if rs.len() == 0 {
                LookupAnswer::NxDomain
            } else {
                LookupAnswer::Records(rs)
            }
        },
        Err(ResolverError::NotFound) => LookupAnswer::NxDomain,
        Err(ResolverError::NotNearTld) => LookupAnswer::Upstream,
        Err(_) => LookupAnswer::ServFail,
    }
}

/// The answer to a lookup that went to the upstream servers: their records,
/// NXDOMAIN when they have none, SERVFAIL when the lookup failed.
pub fn upstream_answer<R>(result: Result<Vec<R>, UpstreamError>) -> (r: LookupAnswer<R>)
    ensures
        match result {
            Ok(v) => r == LookupAnswer::Records(v),
            Err(UpstreamError::NotFound) => r is NxDomain,
            Err(_) => r is ServFail,
        },
{
    match result {
        Ok(records) => LookupAnswer::Records(records),
        Err(UpstreamError::NotFound) => LookupAnswer::NxDomain,
        Err(_) => LookupAnswer::ServFail,
    }
}

/// A NEAR name that parses as a domain name is the origin of its records: the
/// answer converts every record under the name itself. So a `CNAME` record
/// whose value is a relative name `v` answers with the target `v`, a dot and
/// the name, whenever that text parses.
pub proof fn law_records_are_relative_to_the_name(
    domain: Seq<char>,
    records: Seq<DnsRecordView>,
    rec: DnsRecordView,
)
    ensures
        name_parses(domain) ==> near_answer_spec(domain, Ok(records)) == (if converted(
            records,
            domain,
            domain,
        ).len() == 0 {
            LookupAnswerView::NxDomain
        } else {
            LookupAnswerView::Records(converted(records, domain, domain))
        }),
        name_parses(domain) && uppercase(rec.record_type) == "CNAME"@ && rec.value != "@"@ && !(
        rec.value.len() > 0 && rec.value.last() == '.') && name_parses(rec.value + "."@ + domain)
            ==> near_answer_spec(domain, Ok(seq![rec])) == LookupAnswerView::Records(
            seq![(RecordView { name: domain, ttl: rec.ttl, rdata: RDataView::CNAME(rec.value + "."@ + domain) })],
        ),
{
    reveal_strlit("CNAME");
    reveal_strlit("A");
    reveal_strlit("AAAA");
    if name_parses(domain) && uppercase(rec.record_type) == "CNAME"@ && rec.value != "@"@ && !(
    rec.value.len() > 0 && rec.value.last() == '.') && name_parses(rec.value + "."@ + domain) {
        assert("CNAME"@ != "A"@) by {
            assert("CNAME"@.len() != "A"@.len());
        }
        assert("CNAME"@ != "AAAA"@) by {
            assert("CNAME"@.len() != "AAAA"@.len());
        }
        let one = seq![rec];
        assert(one.drop_last() =~= Seq::<DnsRecordView>::empty());
        assert(one.last() == rec);
        let target = rec.value + "."@ + domain;
        assert(domain_name(rec.value, domain) == Ok::<Seq<char>, Seq<char>>(target));
        assert(rdata_of(rec, domain) == Ok::<RDataView, ConversionErrorView>(RDataView::CNAME(target)));
        assert(converted(one.drop_last(), domain, domain) =~= Seq::<RecordView>::empty());
        let rv = RecordView { name: domain, ttl: rec.ttl, rdata: RDataView::CNAME(target) };
        assert(converted(one, domain, domain) =~= seq![rv]);
        assert(origin_of(domain) == domain);
    }
}

} // verus!
