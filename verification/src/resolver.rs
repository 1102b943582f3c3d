//! Resolution of names under NEAR top-level domains: which contracts are asked
//! for which names, in what order, and how their answers combine.

use vstd::prelude::*;

use crate::account::is_valid_account_id;
use crate::account::valid_account_id;
use crate::record::duplicate_records;
use crate::record::DnsRecord;
use crate::text::concat;
use crate::text::contains_text;
use crate::text::dedup;
use crate::text::has_substring;
use crate::text::join;
use crate::text::join_range;
use crate::text::lemma_dedup;
use crate::text::lowercase;
use crate::text::same_text;
use crate::text::split_char;
use crate::text::split_char_spec;
use crate::text::texts;
use crate::text::to_lowercase;
use crate::text::trim_end;
use crate::text::trim_end_char;

verus! {

/// Why a name could not be resolved through NEAR.
#[derive(Debug)]
pub enum ResolverError {
    /// The name has fewer than two labels.
    InvalidDomain,
    /// The name's top-level domain is not a NEAR one.
    NotNearTld,
    /// No contract holds records for the name (NXDOMAIN).
    NotFound,
    /// The RPC call failed.
    RpcError(String),
    /// A contract's name is not a valid account id.
    InvalidAccountId(String),
}

/// A resolver error as plain values.
pub enum ResolverErrorView {
    InvalidDomain,
    NotNearTld,
    NotFound,
    RpcError(Seq<char>),
    InvalidAccountId(Seq<char>),
}

impl View for ResolverError {
    type V = ResolverErrorView;

    open spec fn view(&self) -> ResolverErrorView {
        match self {
            ResolverError::InvalidDomain => ResolverErrorView::InvalidDomain,
            ResolverError::NotNearTld => ResolverErrorView::NotNearTld,
            ResolverError::NotFound => ResolverErrorView::NotFound,
            ResolverError::RpcError(m) => ResolverErrorView::RpcError(m@),
            ResolverError::InvalidAccountId(a) => ResolverErrorView::InvalidAccountId(a@),
        }
    }
}

/// The top-level domains whose names live in NEAR contracts. Only these are
/// resolved through NEAR, so that a traditional domain is never resolved there
/// even when an account of its name exists.
pub open spec fn near_tlds() -> Seq<Seq<char>> {
    seq!["near"@, "testnet"@, "aurora"@, "tg"@, "sweat"@, "kaiching"@, "sharddog"@]
}

/// The contract asked at level `i`: `dns.` followed by the labels from `i` on,
/// a dot and the top-level domain.
pub open spec fn contract_for(parts: Seq<Seq<char>>, tld: Seq<char>, i: int) -> Seq<char> {
    "dns."@ + join(parts.subrange(i, parts.len() as int), "."@) + "."@ + tld
}

/// The name asked of the contract at level `i` for an exact match: `@` at the
/// top level, the labels before `i` otherwise.
pub open spec fn exact_name(parts: Seq<Seq<char>>, i: int) -> Seq<char> {
    if i == 0 {
        "@"@
    } else {
        join(parts.subrange(0, i), "."@)
    }
}

/// The wildcard asked of the contract at level `i` that stands for the labels
/// before `j`: `*` alone when `j` is `i`, `*.` and the labels from `j` to `i` otherwise.
pub open spec fn wildcard_name(parts: Seq<Seq<char>>, i: int, j: int) -> Seq<char> {
    if j == i {
        "*"@
    } else {
        "*."@ + join(parts.subrange(j, i), "."@)
    }
}

/// The queries of level `i`: the exact name first, then the wildcards from the
/// most specific (`j` = 1) to the broadest (`j` = `i`).
pub open spec fn level_queries(parts: Seq<Seq<char>>, tld: Seq<char>, i: int) -> Seq<
    (Seq<char>, Seq<char>),
> {
    seq![(contract_for(parts, tld, i), exact_name(parts, i))] + Seq::new(
        i as nat,
        |k: int| (contract_for(parts, tld, i), wildcard_name(parts, i, k + 1)),
    )
}

/// The queries of levels `0..n`, level after level.
pub open spec fn candidate_queries(parts: Seq<Seq<char>>, tld: Seq<char>, n: int) -> Seq<
    (Seq<char>, Seq<char>),
>
    decreases n,
{
    if n <= 0 {
        Seq::empty()
    } else {
        candidate_queries(parts, tld, n - 1) + level_queries(parts, tld, n - 1)
    }
}

/// The order in which contracts are asked for a name whose labels before the
/// top-level domain are `parts`: every level from the most specific contract to
/// the broadest, each query once, where it first comes.
pub open spec fn resolution_order_spec(parts: Seq<Seq<char>>, tld: Seq<char>) -> Seq<
    (Seq<char>, Seq<char>),
> {
    dedup(candidate_queries(parts, tld, parts.len() as int))
}

/// The labels of a domain name: the pieces between dots, trailing dots left out.
pub open spec fn domain_labels(domain: Seq<char>) -> Seq<Seq<char>> {
    split_char_spec(trim_end(domain, '.'), '.')
}

/// The queries for a domain name, or why it is not resolved through NEAR.
pub open spec fn resolution_plan(domain: Seq<char>) -> Result<
    Seq<(Seq<char>, Seq<char>)>,
    ResolverErrorView,
> {
    let labels = domain_labels(domain);
    if labels.len() < 2 {
        Err(ResolverErrorView::InvalidDomain)
    } else if !near_tlds().contains(lowercase(labels.last())) {
        Err(ResolverErrorView::NotNearTld)
    } else {
        Ok(resolution_order_spec(labels.drop_last(), labels.last()))
    }
}

/// The error message that `url::Url::parse` gives for a text, or nothing when it parses.
pub uninterp spec fn url_parse_error(s: Seq<char>) -> Option<Seq<char>>;

/// Parses a URL with `url::Url::parse`; whether it parses, and the error's
/// message, are named by `url_parse_error`.
#[verifier::external_body]
fn check_url(s: &str) -> (r: Result<(), String>)
    ensures
        match r {
            Ok(()) => url_parse_error(s@) is None,
            Err(m) => url_parse_error(s@) == Some(m@),
        },
{
    match url::Url::parse(s) {
        Ok(_) => Ok(()),
        Err(e) => Err(e.to_string()),
    }
}

/// Whether `out` already holds the pair `(a, b)`.
fn holds_pair(out: &Vec<(String, String)>, a: &str, b: &str) -> (r: bool)
    ensures
        r == out.deep_view().contains((a@, b@)),
{
    let mut i: usize = 0;
    while i < out.len()
        invariant
            i <= out@.len(),
            forall|t: int| 0 <= t < i ==> out.deep_view()[t] != (a@, b@),
        decreases out.len() - i,
    {
        assert(out.deep_view()[i as int] == (out@[i as int].0@, out@[i as int].1@));
        if same_text(out[i].0.as_str(), a) && same_text(out[i].1.as_str(), b) {
            return true;
        }
        i += 1;
    }
    false
}

/// Adds the pair `(a, b)` to `out` unless it is there already.
fn push_unique(out: &mut Vec<(String, String)>, a: String, b: String)
    ensures
        final(out).deep_view() == if old(out).deep_view().contains((a@, b@)) {
            old(out).deep_view()
        } else {
            old(out).deep_view().push((a@, b@))
        },
{
    if !holds_pair(out, a.as_str(), b.as_str()) {
        let ghost before = out.deep_view();
        let ghost entry = (a@, b@);
        out.push((a, b));
        assert(out.deep_view() =~= before.push(entry));
    }
}

/// A resolver of names under NEAR top-level domains, reading from the NEAR
/// RPC endpoint at `rpc_url`.
pub struct NearResolver {
    rpc_url: String,
}

impl NearResolver {
    /// The RPC endpoint, as text.
    pub closed spec fn rpc_url_text(&self) -> Seq<char> {
        self.rpc_url@
    }

    /// A resolver for the RPC endpoint `rpc_url`, which must be a URL.
    pub fn new(rpc_url: &str) -> (r: Result<Self, ResolverError>)
        ensures
            match url_parse_error(rpc_url@) {
                None => r matches Ok(x) && x.rpc_url_text() == rpc_url@,
                Some(m) => r matches Err(e) && e@ == ResolverErrorView::RpcError(
                    "Invalid RPC URL: "@ + m,
                ),
            },
    {
        match check_url(rpc_url) {
            Ok(()) => Ok(NearResolver { rpc_url: rpc_url.to_owned() }),
            Err(m) => Err(ResolverError::RpcError(concat("Invalid RPC URL: ", m.as_str()))),
        }
    }

    /// The RPC endpoint.
    pub fn rpc_url(&self) -> (r: &str)
        ensures
            r@ == self.rpc_url_text(),
    {
        self.rpc_url.as_str()
    }

    /// Whether `tld`, in lower case, is a NEAR top-level domain.
    pub fn is_near_tld(&self, tld: &str) -> (r: bool)
        ensures
            r == near_tlds().contains(lowercase(tld@)),
    {
        let lower = to_lowercase(tld);
        let l = lower.as_str();
        let r = same_text(l, "near") || same_text(l, "testnet") || same_text(l, "aurora")
            || same_text(l, "tg") || same_text(l, "sweat") || same_text(l, "kaiching") || same_text(
            l,
            "sharddog",
        );
        proof {
            let t = near_tlds();
            if t.contains(lower@) {
                let i = choose|i: int| 0 <= i < t.len() && t[i] == lower@;
                assert(r);
            }
            if r {
                if lower@ == "near"@ {
                    assert(t[0] == lower@);
                } else if lower@ == "testnet"@ {
                    assert(t[1] == lower@);
                } else if lower@ == "aurora"@ {
                    assert(t[2] == lower@);
                } else if lower@ == "tg"@ {
                    assert(t[3] == lower@);
                } else if lower@ == "sweat"@ {
                    assert(t[4] == lower@);
                } else if lower@ == "kaiching"@ {
                    assert(t[5] == lower@);
                } else {
                    assert(t[6] == lower@);
                }
            }
        }
        r
    }

    /// The contract asked at level `i`.
    fn contract_at(parts: &[&str], tld: &str, i: usize) -> (r: String)
        requires
            i <= parts@.len(),
        ensures
            r@ == contract_for(texts(parts@), tld@, i as int),
    {
        let rest = join_range(parts, i, parts.len(), ".");
        let with_prefix = concat("dns.", rest.as_str());
        let with_dot = concat(with_prefix.as_str(), ".");
        let r = concat(with_dot.as_str(), tld);
        assert(texts(parts@).subrange(i as int, parts@.len() as int) =~= texts(parts@).subrange(
            i as int,
            texts(parts@).len() as int,
        ));
        r
    }

    /// The order in which contracts are asked for a name whose labels before
    /// the top-level domain `tld` are `parts` (see `resolution_order_spec`).
    pub fn resolution_order(&self, parts: &[&str], tld: &str) -> (r: Vec<(String, String)>)
        ensures
            r.deep_view() == resolution_order_spec(texts(parts@), tld@),
    {
        let n = parts.len();
        let ghost ps = texts(parts@);
        let mut out: Vec<(String, String)> = Vec::new();
        let ghost mut pushed: Seq<(Seq<char>, Seq<char>)> = Seq::empty();
        let mut i: usize = 0;
        assert(out.deep_view() =~= dedup(pushed));
        while i < n
            invariant
                n == parts@.len(),
                ps == texts(parts@),
                ps.len() == n,
                i <= n,
                pushed == candidate_queries(ps, tld@, i as int),
                out.deep_view() == dedup(pushed),
            decreases n - i,
        {
            let ghost level = level_queries(ps, tld@, i as int);
            let ghost start = pushed;
            let contract = Self::contract_at(parts, tld, i);
            let base = if i == 0 {
                "@".to_owned()
            } else {
                join_range(parts, 0, i, ".")
            };
            assert(base@ == exact_name(ps, i as int));
            let ghost entry = (contract@, base@);
            assert(level[0] == entry);
            push_unique(&mut out, contract.clone(), base);
            proof {
                assert(pushed.push(entry).drop_last() =~= pushed);
                pushed = pushed.push(entry);
                assert(pushed =~= start + level.take(1));
            }
            let mut j: usize = 1;
            while j <= i
                invariant
                    n == parts@.len(),
                    ps == texts(parts@),
                    1 <= j <= i + 1,
                    i < n,
                    contract@ == contract_for(ps, tld@, i as int),
                    level == level_queries(ps, tld@, i as int),
                    level.len() == i + 1,
                    pushed == start + level.take(j as int),
                    out.deep_view() == dedup(pushed),
                decreases i + 1 - j,
            {
                let wildcard = if j == i {
                    "*".to_owned()
                } else {
                    let rest = join_range(parts, j, i, ".");
                    concat("*.", rest.as_str())
                };
                assert(wildcard@ == wildcard_name(ps, i as int, j as int));
                let ghost w = (contract@, wildcard@);
                assert(level[j as int] == w);
                push_unique(&mut out, contract.clone(), wildcard);
                proof {
                    assert(pushed.push(w).drop_last() =~= pushed);
                    pushed = pushed.push(w);
                    assert(level.take(j + 1) =~= level.take(j as int).push(w));
                    assert(pushed =~= start + level.take(j + 1));
                }
                j += 1;
            }
            assert(level.take(i + 1) =~= level);
            i += 1;
        }
        out
    }

    /// Starts the resolution of `domain`: its queries, in order, or why it is
    /// not resolved through NEAR (see `resolution_plan`).
    pub fn start_resolution(&self, domain: &str) -> (r: Result<Resolution, ResolverError>)
        ensures
            match resolution_plan(domain@) {
                Ok(q) => r matches Ok(res) && res.pending() == q && res.wf(),
                Err(e) => r matches Err(x) && x@ == e,
            },
    {
        let trimmed = trim_end_char(domain, '.');
        let labels = split_char(trimmed.as_str(), '.');
        let n = labels.len();
        assert(labels.deep_view() == domain_labels(domain@));
        if n < 2 {
            return Err(ResolverError::InvalidDomain);
        }
        assert(labels.deep_view().last() == labels@[n - 1]@);
        if !self.is_near_tld(labels[n - 1].as_str()) {
            return Err(ResolverError::NotNearTld);
        }
        let mut parts: Vec<&str> = Vec::new();
        let mut k: usize = 0;
        while k < n - 1
            invariant
                k <= n - 1,
                n == labels@.len(),
                texts(parts@) == labels.deep_view().take(k as int),
            decreases n - 1 - k,
        {
            let ghost before = parts@;
            let label = labels[k].as_str();
            parts.push(label);
            assert(parts@ =~= before.push(label));
            assert(labels.deep_view()[k as int] == labels@[k as int]@);
            assert(texts(parts@) =~= texts(before).push(label@));
            assert(texts(parts@) =~= labels.deep_view().take(k + 1));
            k += 1;
        }
        assert(labels.deep_view().take(n - 1) =~= labels.deep_view().drop_last());
        let queries = self.resolution_order(parts.as_slice(), labels[n - 1].as_str());
        let r = Resolution { queries, next: 0 };
        assert(r.queries.deep_view().skip(0) =~= r.queries.deep_view());
        Ok(r)
    }

    /// What a cached record list answers: an empty list stands for "no records".
    pub fn cached_answer(cached: Vec<DnsRecord>) -> (r: Option<Vec<DnsRecord>>)
        ensures
            cached@.len() == 0 ==> r is None,
            cached@.len() > 0 ==> r == Some(cached),
    {
        if cached.len() == 0 {
            None
        } else {
            Some(cached)
        }
    }

    /// What to cache for a contract's answer: its records, or an empty list for "no records".
    pub fn answer_to_cache(answer: &Option<Vec<DnsRecord>>) -> (r: Vec<DnsRecord>)
        ensures
            match answer {
                Some(v) => r.deep_view() == v.deep_view(),
                None => r@.len() == 0,
            },
    {
        match answer {
            Some(v) => duplicate_records(v),
            None => Vec::new(),
        }
    }

    /// The account id of a DNS contract, checked: the id itself when it is a
    /// valid account id, `InvalidAccountId` otherwise.
    pub fn contract_account(contract_id: &str) -> (r: Result<String, ResolverError>)
        ensures
            r is Ok <==> valid_account_id(contract_id@),
            r matches Ok(t) ==> t@ == contract_id@,
            r matches Err(e) ==> e@ == ResolverErrorView::InvalidAccountId(contract_id@),
    {
        if is_valid_account_id(contract_id) {
            Ok(contract_id.to_owned())
        } else {
            Err(ResolverError::InvalidAccountId(contract_id.to_owned()))
        }
    }

    /// What a failed contract call answers, from its error message: "no
    /// records" when the message says that the method, the account or the code
    /// does not exist, an RPC error otherwise.
    pub fn failed_call_answer(message: String) -> (r: Result<Option<Vec<DnsRecord>>, ResolverError>)
        ensures
            missing_contract_message(message@) ==> r matches Ok(None),
            !missing_contract_message(message@) ==> (r matches Err(e) && e@
                == ResolverErrorView::RpcError(message@)),
    {
        if contains_text(message.as_str(), "MethodNotFound") || contains_text(
            message.as_str(),
            "AccountDoesNotExist",
        ) || contains_text(message.as_str(), "does not exist") || contains_text(
            message.as_str(),
            "CodeDoesNotExist",
        ) {
            Ok(None)
        } else {
            Err(ResolverError::RpcError(message))
        }
    }
}

/// Whether an RPC error message says that the contract or its method is missing.
pub open spec fn missing_contract_message(m: Seq<char>) -> bool {
    ||| has_substring(m, "MethodNotFound"@)
    ||| has_substring(m, "AccountDoesNotExist"@)
    ||| has_substring(m, "does not exist"@)
    ||| has_substring(m, "CodeDoesNotExist"@)
}

/// What an answer to a query does to the resolution: records end it with
/// them, no records or a failed RPC call let it go on, any other error ends it
/// with that error.
pub open spec fn answer_effect(answer: Result<Option<Vec<DnsRecord>>, ResolverError>) -> Option<
    Result<Vec<DnsRecord>, ResolverError>,
> {
    match answer {
        Ok(Some(records)) => if records@.len() > 0 {
            Some(Ok(records))
        } else {
            None
        },
        Ok(None) => None,
        Err(ResolverError::RpcError(_)) => None,
        Err(e) => Some(Err(e)),
    }
}

/// The result of a resolution whose queries got `answers`, in order: the
/// first answer that ends it, or "not found" when none does.
pub open spec fn resolution_result(answers: Seq<Result<Option<Vec<DnsRecord>>, ResolverError>>) -> Result<
    Vec<DnsRecord>,
    ResolverError,
>
    decreases answers.len(),
{
    if answers.len() == 0 {
        Err(ResolverError::NotFound)
    } else {
        match answer_effect(answers[0]) {
            Some(r) => r,
            None => resolution_result(answers.drop_first()),
        }
    }
}

/// A resolution answers with the first contract answer that has records or
/// fails other than by RPC, and with "not found" when every contract answered
/// with no records or a failed RPC call.
pub proof fn law_first_decisive_answer_wins(
    answers: Seq<Result<Option<Vec<DnsRecord>>, ResolverError>>,
    k: int,
)
    requires
        0 <= k <= answers.len(),
        forall|j: int| 0 <= j < k ==> answer_effect(#[trigger] answers[j]) is None,
        k < answers.len() ==> answer_effect(answers[k]) is Some,
    ensures
        k < answers.len() ==> Some(resolution_result(answers)) == answer_effect(answers[k]),
        k == answers.len() ==> resolution_result(answers) == Err::<Vec<DnsRecord>, ResolverError>(
            ResolverError::NotFound,
        ),
    decreases k,
{
    if k > 0 {
        let rest = answers.drop_first();
        assert(answer_effect(answers[0]) is None);
        assert forall|j: int| 0 <= j < k - 1 implies answer_effect(#[trigger] rest[j]) is None by {
            assert(rest[j] == answers[j + 1]);
        }
        if k < answers.len() {
            assert(rest[k - 1] == answers[k]);
        }
        law_first_decisive_answer_wins(rest, k - 1);
    }
}

/// What the resolution does next: ask a contract for a name, or answer.
#[derive(Debug)]
pub enum ResolveStep {
    Ask { contract_id: String, dns_name: String },
    Done(Result<Vec<DnsRecord>, ResolverError>),
}

/// A resolution in progress: its queries, and how many have been answered.
pub struct Resolution {
    queries: Vec<(String, String)>,
    next: usize,
}

impl Resolution {
    /// The queries not yet asked, in order.
    pub closed spec fn pending(&self) -> Seq<(Seq<char>, Seq<char>)> {
        self.queries.deep_view().skip(self.next as int)
    }

    /// The state's invariant: it has not asked more queries than it holds.
    pub closed spec fn wf(&self) -> bool {
        self.next <= self.queries@.len()
    }

    /// What to do next: ask the first pending query, or, when none is left,
    /// answer that the name was not found.
    pub fn next_step(&self) -> (r: ResolveStep)
        requires
            self.wf(),
        ensures
            self.pending().len() > 0 ==> (r matches ResolveStep::Ask { contract_id, dns_name }
                && (contract_id@, dns_name@) == self.pending()[0]),
            self.pending().len() == 0 ==> (r matches ResolveStep::Done(Err(e)) && e@
                == ResolverErrorView::NotFound),
    {
        if self.next < self.queries.len() {
            let q = &self.queries[self.next];
            assert(self.pending()[0] == self.queries.deep_view()[self.next as int]);
            ResolveStep::Ask { contract_id: q.0.clone(), dns_name: q.1.clone() }
        } else {
            ResolveStep::Done(Err(ResolverError::NotFound))
        }
    }

    /// Takes the answer to the first pending query. Records end the
    /// resolution with them; no records, or a failed RPC call, move on to the
    /// next query; any other error ends the resolution with that error.
    pub fn record_answer(&mut self, answer: Result<Option<Vec<DnsRecord>>, ResolverError>) -> (r:
        Option<Result<Vec<DnsRecord>, ResolverError>>)
        requires
            old(self).wf(),
            old(self).pending().len() > 0,
        ensures
            final(self).wf(),
            r == answer_effect(answer),
            r is None ==> final(self).pending() == old(self).pending().drop_first(),
    {
        let ghost before = self.pending();
        match answer {
            Ok(Some(records)) => {
                if records.len() > 0 {
                    return Some(Ok(records));
                }
            },
            Ok(None) => {},
            Err(ResolverError::RpcError(_)) => {},
            Err(e) => {
                return Some(Err(e));
            },
        }
        let n = self.queries.len();
        assert(self.queries.deep_view().len() == n);
        self.next = self.next + 1;
        assert(self.pending() =~= before.drop_first());
        None
    }
}

/// `dedup` keeps the first element first.
proof fn lemma_dedup_first<A>(s: Seq<A>)
    requires
        s.len() > 0,
    ensures
        dedup(s).len() > 0,
        dedup(s)[0] == s[0],
    decreases s.len(),
{
    if s.len() == 1 {
        assert(s.drop_last().len() == 0);
        assert(dedup(s.drop_last()).len() == 0);
        assert(!dedup(s.drop_last()).contains(s.last()));
    } else {
        lemma_dedup_first(s.drop_last());
    }
}

/// The first candidate query asks the most specific contract for `@`.
proof fn lemma_candidates_first(parts: Seq<Seq<char>>, tld: Seq<char>, n: int)
    requires
        n >= 1,
    ensures
        candidate_queries(parts, tld, n).len() >= 1,
        candidate_queries(parts, tld, n)[0] == (contract_for(parts, tld, 0), "@"@),
    decreases n,
{
    if n == 1 {
        assert(candidate_queries(parts, tld, 0).len() == 0);
        assert(level_queries(parts, tld, 0)[0] == (contract_for(parts, tld, 0), "@"@));
    } else {
        lemma_candidates_first(parts, tld, n - 1);
    }
}

/// The candidate queries of levels `0..n` are the queries of those levels.
proof fn lemma_candidates_contain(parts: Seq<Seq<char>>, tld: Seq<char>, n: int)
    ensures
        forall|q: (Seq<char>, Seq<char>)|
            candidate_queries(parts, tld, n).contains(q) <==> exists|i: int|
                0 <= i < n && #[trigger] level_queries(parts, tld, i).contains(q),
    decreases n,
{
    if n > 0 {
        lemma_candidates_contain(parts, tld, n - 1);
        let before = candidate_queries(parts, tld, n - 1);
        let level = level_queries(parts, tld, n - 1);
        assert forall|q: (Seq<char>, Seq<char>)|
            candidate_queries(parts, tld, n).contains(q) <==> exists|i: int|
                0 <= i < n && #[trigger] level_queries(parts, tld, i).contains(q) by {
            let all = before + level;
            if all.contains(q) {
                let k = choose|k: int| 0 <= k < all.len() && all[k] == q;
                if k < before.len() {
                    assert(before[k] == q);
                    assert(before.contains(q));
                } else {
                    assert(level[k - before.len()] == q);
                    assert(level.contains(q));
                }
            }
            if exists|i: int| 0 <= i < n && #[trigger] level_queries(parts, tld, i).contains(q) {
                let i = choose|i: int| 0 <= i < n && #[trigger] level_queries(parts, tld, i).contains(q);
                if i < n - 1 {
                    assert(before.contains(q));
                    let k = choose|k: int| 0 <= k < before.len() && before[k] == q;
                    assert(all[k] == q);
                } else {
                    let k = choose|k: int| 0 <= k < level.len() && level[k] == q;
                    assert(all[before.len() + k] == q);
                }
            }
        }
    }
}

/// The resolution order of a name starts with its most specific contract
/// asked for `@`, asks no query twice, asks at every level the exact name and
/// every wildcard, and asks nothing else.
pub proof fn law_resolution_order(parts: Seq<Seq<char>>, tld: Seq<char>)
    ensures
        parts.len() > 0 ==> resolution_order_spec(parts, tld).len() > 0 && resolution_order_spec(
            parts,
            tld,
        )[0] == (contract_for(parts, tld, 0), "@"@),
        resolution_order_spec(parts, tld).no_duplicates(),
        forall|i: int|
            0 <= i < parts.len() ==> resolution_order_spec(parts, tld).contains(
                (contract_for(parts, tld, i), #[trigger] exact_name(parts, i)),
            ),
        forall|i: int, j: int|
            1 <= j <= i < parts.len() ==> resolution_order_spec(parts, tld).contains(
                (contract_for(parts, tld, i), #[trigger] wildcard_name(parts, i, j)),
            ),
        forall|q: (Seq<char>, Seq<char>)|
            resolution_order_spec(parts, tld).contains(q) ==> exists|i: int|
                0 <= i < parts.len() && #[trigger] level_queries(parts, tld, i).contains(q),
{
    let n = parts.len() as int;
    let c = candidate_queries(parts, tld, n);
    lemma_dedup(c);
    lemma_candidates_contain(parts, tld, n);
    if n > 0 {
        lemma_candidates_first(parts, tld, n);
        lemma_dedup_first(c);
    }
    assert forall|q: (Seq<char>, Seq<char>)|
        resolution_order_spec(parts, tld).contains(q) implies exists|i: int|
            0 <= i < parts.len() && #[trigger] level_queries(parts, tld, i).contains(q) by {
        assert(dedup(c).contains(q));
        assert(c.contains(q));
    }
    assert forall|i: int| 0 <= i < parts.len() implies resolution_order_spec(parts, tld).contains(
        (contract_for(parts, tld, i), #[trigger] exact_name(parts, i)),
    ) by {
        let level = level_queries(parts, tld, i);
        let q = (contract_for(parts, tld, i), exact_name(parts, i));
        assert(level[0] == q);
        assert(level.contains(q));
        assert(c.contains(q));
        assert(dedup(c).contains(q));
    }
    assert forall|i: int, j: int| 1 <= j <= i < parts.len() implies resolution_order_spec(
        parts,
        tld,
    ).contains((contract_for(parts, tld, i), #[trigger] wildcard_name(parts, i, j))) by {
        let level = level_queries(parts, tld, i);
        let q = (contract_for(parts, tld, i), wildcard_name(parts, i, j));
        assert(level[j] == q);
        assert(level.contains(q));
        assert(c.contains(q));
        assert(dedup(c).contains(q));
    }
}

/// A name whose top-level domain is not a NEAR one is never resolved through
/// NEAR, and a name of fewer than two labels is refused as invalid.
pub proof fn law_only_near_names(domain: Seq<char>)
    ensures
        domain_labels(domain).len() < 2 ==> resolution_plan(domain) == Err::<
            Seq<(Seq<char>, Seq<char>)>,
            ResolverErrorView,
        >(ResolverErrorView::InvalidDomain),
        domain_labels(domain).len() >= 2 && !near_tlds().contains(
            lowercase(domain_labels(domain).last()),
        ) ==> resolution_plan(domain) == Err::<Seq<(Seq<char>, Seq<char>)>, ResolverErrorView>(
            ResolverErrorView::NotNearTld,
        ),
{
}

/// `dedup` keeps a sequence ordered by a key.
proof fn lemma_dedup_sorted<A>(s: Seq<A>, f: spec_fn(A) -> int)
    requires
        forall|a: int, b: int| 0 <= a < b < s.len() ==> f(s[a]) <= f(s[b]),
    ensures
        forall|a: int, b: int|
            0 <= a < b < dedup(s).len() ==> f(dedup(s)[a]) <= f(dedup(s)[b]),
    decreases s.len(),
{
    if s.len() > 0 {
        let init = s.drop_last();
        let d = dedup(init);
        lemma_dedup_sorted(init, f);
        lemma_dedup(init);
        assert forall|a: int, b: int| 0 <= a < b < dedup(s).len() implies f(dedup(s)[a]) <= f(
            dedup(s)[b],
        ) by {
            if b == d.len() {
                assert(dedup(s) == d.push(s.last()));
                assert(dedup(s)[a] == d[a]);
                assert(dedup(s)[b] == s.last());
                assert(d.contains(d[a]));
                assert(init.contains(d[a]));
                let p = choose|p: int| 0 <= p < init.len() && init[p] == d[a];
                assert(init[p] == s[p]);
                assert(f(s[p]) <= f(s[s.len() - 1]));
            } else {
                assert(dedup(s)[a] == d[a]);
                assert(dedup(s)[b] == d[b]);
            }
        }
    }
}

/// In `dedup(s)`, the first element of `s` with a given key comes before every
/// other element with that key.
proof fn lemma_dedup_first_of_key<A>(s: Seq<A>, f: spec_fn(A) -> int, p: int)
    requires
        0 <= p < s.len(),
        forall|q: int| 0 <= q < p ==> f(s[q]) != f(s[p]),
    ensures
        dedup(s).contains(s[p]),
        forall|a: int|
            0 <= a < dedup(s).len() && f(dedup(s)[a]) == f(s[p]) ==> exists|b: int|
                0 <= b <= a && dedup(s)[b] == s[p],
    decreases s.len(),
{
    let init = s.drop_last();
    let d = dedup(init);
    lemma_dedup(init);
    if p == s.len() - 1 {
        assert(!d.contains(s[p])) by {
            if d.contains(s[p]) {
                assert(init.contains(s[p]));
                let q = choose|q: int| 0 <= q < init.len() && init[q] == s[p];
                assert(init[q] == s[q]);
                assert(f(s[q]) == f(s[p]));
            }
        }
        assert(dedup(s) == d.push(s[p]));
        assert(dedup(s)[d.len() as int] == s[p]);
        assert forall|a: int|
            0 <= a < dedup(s).len() && f(dedup(s)[a]) == f(s[p]) implies exists|b: int|
                0 <= b <= a && dedup(s)[b] == s[p] by {
            if a < d.len() {
                assert(dedup(s)[a] == d[a]);
                assert(d.contains(d[a]));
                assert(init.contains(d[a]));
                let q = choose|q: int| 0 <= q < init.len() && init[q] == d[a];
                assert(init[q] == s[q]);
                assert(f(s[q]) == f(s[p]));
            }
        }
    } else {
        lemma_dedup_first_of_key(init, f, p);
        assert(init[p] == s[p]);
        let bp = choose|b: int| 0 <= b < d.len() && d[b] == s[p];
        assert(dedup(s)[bp] == s[p]);
        assert forall|a: int|
            0 <= a < dedup(s).len() && f(dedup(s)[a]) == f(s[p]) implies exists|b: int|
                0 <= b <= a && dedup(s)[b] == s[p] by {
            if a < d.len() {
                assert(d[a] == dedup(s)[a]);
                let b = choose|b: int| 0 <= b <= a && d[b] == init[p];
                assert(dedup(s)[b] == s[p]);
            } else {
                assert(dedup(s)[bp] == s[p]);
            }
        }
    }
}

/// The total length of some pieces.
spec fn total_len(ps: Seq<Seq<char>>) -> int
    decreases ps.len(),
{
    if ps.len() == 0 {
        0
    } else {
        total_len(ps.drop_last()) + ps.last().len()
    }
}

/// The total length counts the first piece and then the rest.
proof fn lemma_total_len_front(ps: Seq<Seq<char>>)
    requires
        ps.len() >= 1,
    ensures
        total_len(ps) == ps[0].len() + total_len(ps.drop_first()),
    decreases ps.len(),
{
    if ps.len() == 1 {
        assert(ps.drop_first().len() == 0);
        assert(ps.drop_last().len() == 0);
        assert(total_len(ps.drop_first()) == 0);
        assert(total_len(ps.drop_last()) == 0);
        assert(ps.last() == ps[0]);
    } else {
        let init = ps.drop_last();
        let rest = ps.drop_first();
        lemma_total_len_front(init);
        assert(init.drop_first() =~= rest.drop_last());
        assert(rest.last() == ps.last());
        assert(init[0] == ps[0]);
        assert(total_len(ps) == total_len(init) + ps.last().len());
        assert(total_len(rest) == total_len(rest.drop_last()) + rest.last().len());
    }
}

/// Joined pieces are as long as the pieces and the separators between them.
proof fn lemma_join_len(ps: Seq<Seq<char>>, sep: Seq<char>)
    requires
        ps.len() >= 1,
        sep.len() == 1,
    ensures
        join(ps, sep).len() == total_len(ps) + ps.len() - 1,
    decreases ps.len(),
{
    if ps.len() > 1 {
        lemma_join_len(ps.drop_last(), sep);
        assert(join(ps, sep) == join(ps.drop_last(), sep) + sep + ps.last());
        assert(total_len(ps) == total_len(ps.drop_last()) + ps.last().len());
    } else {
        assert(ps.drop_last().len() == 0);
        assert(total_len(ps.drop_last()) == 0);
        assert(join(ps, sep) == ps[0]);
        assert(ps.last() == ps[0]);
    }
}

/// A later suffix of the labels is no longer in total.
proof fn lemma_suffix_total_len(ps: Seq<Seq<char>>, i: int, j: int)
    requires
        0 <= i <= j <= ps.len(),
    ensures
        total_len(ps.subrange(i, ps.len() as int)) >= total_len(ps.subrange(j, ps.len() as int)),
    decreases j - i,
{
    if i < j {
        let sub = ps.subrange(i, ps.len() as int);
        lemma_total_len_front(sub);
        assert(sub.drop_first() =~= ps.subrange(i + 1, ps.len() as int));
        lemma_suffix_total_len(ps, i + 1, j);
    }
}

/// Different levels ask different contracts: a broader level's contract
/// name is shorter.
proof fn lemma_contracts_differ(parts: Seq<Seq<char>>, tld: Seq<char>, i: int, j: int)
    requires
        0 <= i < j < parts.len(),
    ensures
        contract_for(parts, tld, i).len() > contract_for(parts, tld, j).len(),
{
    let n = parts.len() as int;
    reveal_strlit(".");
    reveal_strlit("dns.");
    lemma_join_len(parts.subrange(i, n), "."@);
    lemma_join_len(parts.subrange(j, n), "."@);
    lemma_suffix_total_len(parts, i, j);
}

/// The level whose contract a query asks.
spec fn level_of(parts: Seq<Seq<char>>, tld: Seq<char>, q: (Seq<char>, Seq<char>)) -> int {
    choose|i: int| 0 <= i < parts.len() && q.0 == contract_for(parts, tld, i)
}

/// A query to the contract of level `i` belongs to level `i`.
proof fn lemma_level_of(parts: Seq<Seq<char>>, tld: Seq<char>, q: (Seq<char>, Seq<char>), i: int)
    requires
        0 <= i < parts.len(),
        q.0 == contract_for(parts, tld, i),
    ensures
        level_of(parts, tld, q) == i,
{
    let l = level_of(parts, tld, q);
    if l != i {
        if l < i {
            lemma_contracts_differ(parts, tld, l, i);
        } else {
            lemma_contracts_differ(parts, tld, i, l);
        }
    }
}

/// The candidate queries of levels `0..n` go level by level: each asks the
/// contract of its level, and the levels never go back.
proof fn lemma_candidates_by_level(parts: Seq<Seq<char>>, tld: Seq<char>, n: int)
    requires
        0 <= n <= parts.len(),
    ensures
        forall|k: int|
            0 <= k < candidate_queries(parts, tld, n).len() ==> {
                let l = level_of(parts, tld, #[trigger] candidate_queries(parts, tld, n)[k]);
                &&& 0 <= l < n
                &&& candidate_queries(parts, tld, n)[k].0 == contract_for(parts, tld, l)
            },
        forall|a: int, b: int|
            0 <= a < b < candidate_queries(parts, tld, n).len() ==> level_of(
                parts,
                tld,
                candidate_queries(parts, tld, n)[a],
            ) <= level_of(parts, tld, candidate_queries(parts, tld, n)[b]),
    decreases n,
{
    if n > 0 {
        lemma_candidates_by_level(parts, tld, n - 1);
        let before = candidate_queries(parts, tld, n - 1);
        let level = level_queries(parts, tld, n - 1);
        let c = candidate_queries(parts, tld, n);
        assert(c == before + level);
        assert forall|k: int| 0 <= k < c.len() implies {
            let l = level_of(parts, tld, #[trigger] c[k]);
            &&& 0 <= l < n
            &&& c[k].0 == contract_for(parts, tld, l)
        } by {
            if k < before.len() {
                assert(c[k] == before[k]);
            } else {
                assert(c[k] == level[k - before.len()]);
                lemma_level_of(parts, tld, c[k], n - 1);
            }
        }
        assert forall|a: int, b: int| 0 <= a < b < c.len() implies level_of(parts, tld, c[a])
            <= level_of(parts, tld, c[b]) by {
            if b < before.len() {
                assert(c[a] == before[a] && c[b] == before[b]);
            } else if a < before.len() {
                assert(c[a] == before[a]);
                assert(c[b] == level[b - before.len()]);
                lemma_level_of(parts, tld, c[b], n - 1);
            } else {
                assert(c[a] == level[a - before.len()]);
                assert(c[b] == level[b - before.len()]);
                lemma_level_of(parts, tld, c[a], n - 1);
                lemma_level_of(parts, tld, c[b], n - 1);
            }
        }
    }
}

/// The exact query of level `i` is the first candidate query of that level.
proof fn lemma_exact_first_of_level(parts: Seq<Seq<char>>, tld: Seq<char>, n: int, i: int)
    requires
        0 <= i < n <= parts.len(),
    ensures
        ({
            let c = candidate_queries(parts, tld, n);
            let p = candidate_queries(parts, tld, i).len() as int;
            &&& 0 <= p < c.len()
            &&& c[p] == (contract_for(parts, tld, i), exact_name(parts, i))
            &&& forall|q: int|
                0 <= q < p ==> level_of(parts, tld, c[q]) != level_of(parts, tld, c[p])
        }),
    decreases n,
{
    let c = candidate_queries(parts, tld, n);
    let p = candidate_queries(parts, tld, i).len() as int;
    if i == n - 1 {
        let before = candidate_queries(parts, tld, n - 1);
        let level = level_queries(parts, tld, n - 1);
        assert(c == before + level);
        assert(c[p] == level[0]);
        lemma_candidates_by_level(parts, tld, n - 1);
        lemma_level_of(parts, tld, c[p], i);
        assert forall|q: int| 0 <= q < p implies level_of(parts, tld, c[q]) != level_of(
            parts,
            tld,
            c[p],
        ) by {
            assert(c[q] == before[q]);
        }
    } else {
        lemma_exact_first_of_level(parts, tld, n - 1, i);
        let before = candidate_queries(parts, tld, n - 1);
        assert(c == before + level_queries(parts, tld, n - 1));
        assert forall|q: int| 0 <= q < p implies level_of(parts, tld, c[q]) != level_of(
            parts,
            tld,
            c[p],
        ) by {
            assert(c[q] == before[q]);
            assert(c[p] == before[p]);
        }
    }
}

/// The resolution order goes from the most specific contract to the broadest:
/// a query never comes after a query to a broader contract, and at every level
/// the exact name is asked before any wildcard of that level.
pub proof fn law_resolution_goes_from_specific_to_broad(parts: Seq<Seq<char>>, tld: Seq<char>)
    ensures
        forall|a: int, b: int, i: int, j: int|
            #![trigger resolution_order_spec(parts, tld)[a], resolution_order_spec(parts, tld)[b], contract_for(parts, tld, i), contract_for(parts, tld, j)]
            0 <= a < b < resolution_order_spec(parts, tld).len() && 0 <= i < parts.len() && 0
                <= j < parts.len() && resolution_order_spec(parts, tld)[a].0 == contract_for(
                parts,
                tld,
                i,
            ) && resolution_order_spec(parts, tld)[b].0 == contract_for(parts, tld, j) ==> i
                <= j,
        forall|a: int, i: int|
            #![trigger resolution_order_spec(parts, tld)[a], contract_for(parts, tld, i)]
            0 <= a < resolution_order_spec(parts, tld).len() && 0 <= i < parts.len()
                && resolution_order_spec(parts, tld)[a].0 == contract_for(parts, tld, i)
                ==> exists|b: int|
                0 <= b <= a && resolution_order_spec(parts, tld)[b] == (
                    contract_for(parts, tld, i),
                    exact_name(parts, i),
                ),
{
    let n = parts.len() as int;
    let c = candidate_queries(parts, tld, n);
    let o = resolution_order_spec(parts, tld);
    let f = |q: (Seq<char>, Seq<char>)| level_of(parts, tld, q);
    lemma_candidates_by_level(parts, tld, n);
    lemma_dedup_sorted(c, f);
    lemma_dedup(c);
    assert forall|a: int, b: int, i: int, j: int|
        #![trigger o[a], o[b], contract_for(parts, tld, i), contract_for(parts, tld, j)]
        0 <= a < b < o.len() && 0 <= i < parts.len() && 0 <= j < parts.len() && o[a].0
            == contract_for(parts, tld, i) && o[b].0 == contract_for(parts, tld, j) implies i
        <= j by {
        lemma_level_of(parts, tld, o[a], i);
        lemma_level_of(parts, tld, o[b], j);
        assert(f(o[a]) <= f(o[b]));
    }
    assert forall|a: int, i: int|
        #![trigger o[a], contract_for(parts, tld, i)]
        0 <= a < o.len() && 0 <= i < parts.len() && o[a].0 == contract_for(parts, tld, i)
        implies exists|b: int|
        0 <= b <= a && o[b] == (contract_for(parts, tld, i), exact_name(parts, i)) by {
        lemma_exact_first_of_level(parts, tld, n, i);
        let p = candidate_queries(parts, tld, i).len() as int;
        lemma_level_of(parts, tld, c[p], i);
        lemma_level_of(parts, tld, o[a], i);
        lemma_dedup_first_of_key(c, f, p);
    }
}

/// Every query of the resolution order, written out: at each level `i` the
/// contract `dns.` + the labels from `i` on + `.` + the top-level domain is
/// asked for `@` (at the top level) or the labels before `i`, for `*`, and for
/// `*.` followed by the labels from `j` to `i`, for each `0 < j < i`.
pub proof fn law_resolution_queries_written_out(parts: Seq<Seq<char>>, tld: Seq<char>)
    ensures
        parts.len() > 0 ==> resolution_order_spec(parts, tld).contains(
            ("dns."@ + join(parts, "."@) + "."@ + tld, "@"@),
        ),
        forall|i: int|
            #![trigger parts.subrange(0, i)]
            0 < i < parts.len() ==> resolution_order_spec(parts, tld).contains(
                (
                    "dns."@ + join(parts.subrange(i, parts.len() as int), "."@) + "."@ + tld,
                    join(parts.subrange(0, i), "."@),
                ),
            ),
        forall|i: int|
            #![trigger parts.subrange(i, parts.len() as int)]
            0 < i < parts.len() ==> resolution_order_spec(parts, tld).contains(
                ("dns."@ + join(parts.subrange(i, parts.len() as int), "."@) + "."@ + tld, "*"@),
            ),
        forall|i: int, j: int|
            #![trigger parts.subrange(j, i), parts.subrange(i, parts.len() as int)]
            0 < j < i < parts.len() ==> resolution_order_spec(parts, tld).contains(
                (
                    "dns."@ + join(parts.subrange(i, parts.len() as int), "."@) + "."@ + tld,
                    "*."@ + join(parts.subrange(j, i), "."@),
                ),
            ),
{
    law_resolution_order(parts, tld);
    if parts.len() > 0 {
        assert(parts.subrange(0, parts.len() as int) =~= parts);
        assert(exact_name(parts, 0) == "@"@);
    }
    assert forall|i: int| #![trigger parts.subrange(0, i)] 0 < i < parts.len() implies resolution_order_spec(
        parts,
        tld,
    ).contains(
        (
            "dns."@ + join(parts.subrange(i, parts.len() as int), "."@) + "."@ + tld,
            join(parts.subrange(0, i), "."@),
        ),
    ) by {
        assert(exact_name(parts, i) == join(parts.subrange(0, i), "."@));
    }
    assert forall|i: int|
        #![trigger parts.subrange(i, parts.len() as int)]
        0 < i < parts.len() implies resolution_order_spec(parts, tld).contains(
        ("dns."@ + join(parts.subrange(i, parts.len() as int), "."@) + "."@ + tld, "*"@),
    ) by {
        assert(wildcard_name(parts, i, i) == "*"@);
    }
    assert forall|i: int, j: int|
        #![trigger parts.subrange(j, i), parts.subrange(i, parts.len() as int)]
        0 < j < i < parts.len() implies resolution_order_spec(parts, tld).contains(
        (
            "dns."@ + join(parts.subrange(i, parts.len() as int), "."@) + "."@ + tld,
            "*."@ + join(parts.subrange(j, i), "."@),
        ),
    ) by {
        assert(wildcard_name(parts, i, j) == "*."@ + join(parts.subrange(j, i), "."@));
    }
}

} // verus!
