//! Request statistics: counters for the total number of requests, per
//! "method path" key, and per response status, plus the plaintext dump
//! served on the configured reporting path.

use vstd::prelude::*;

use crate::http_response::{HttpResponse, HttpStatusCode};
use crate::strmap::{
    entries_unique, lemma_map_of_entries_domain, lemma_map_of_entries_update, map_of_entries,
};
use crate::strutil::{dec_chars, eq_str, usize_to_string};
use vstd::string::StringSliceAdditionalSpecFns;

verus! {

/// `x + 1`, stopping at the largest representable value instead of
/// overflowing.
pub open spec fn sat_inc(x: u64) -> u64 {
    if x < u64::MAX {
        (x + 1) as u64
    } else {
        x
    }
}

// ---------------------------------------------------------------------------
// Counters keyed by string
// ---------------------------------------------------------------------------

/// A counter per string key, kept in insertion order with unique keys.
pub struct CountMap {
    entries: Vec<(String, u64)>,
}

impl View for CountMap {
    type V = Seq<(Seq<char>, u64)>;

    closed spec fn view(&self) -> Seq<(Seq<char>, u64)> {
        Seq::new(self.entries@.len(), |i: int| (self.entries@[i].0@, self.entries@[i].1))
    }
}

impl CountMap {
    /// The counters as a mathematical map.
    pub open spec fn map_view(&self) -> Map<Seq<char>, u64> {
        map_of_entries(self@)
    }

    /// Keys never repeat.
    #[verifier::type_invariant]
    spec fn wf(&self) -> bool {
        entries_unique(self@)
    }

    /// An empty counter map.
    pub fn new() -> (r: CountMap)
        ensures
            r@ == Seq::<(Seq<char>, u64)>::empty(),
            r.map_view() == Map::<Seq<char>, u64>::empty(),
    {
        let r = CountMap { entries: Vec::new() };
        proof {
            assert(r@ =~= Seq::<(Seq<char>, u64)>::empty());
        }
        r
    }

    /// How many keys are present.
    pub fn len(&self) -> (r: usize)
        ensures
            r == self@.len(),
    {
        self.entries.len()
    }

    /// The key at position `i`.
    pub fn key_at(&self, i: usize) -> (r: &String)
        requires
            i < self@.len(),
        ensures
            r@ == self@[i as int].0,
    {
        &self.entries[i].0
    }

    /// The count at position `i`.
    pub fn count_at(&self, i: usize) -> (r: u64)
        requires
            i < self@.len(),
        ensures
            r == self@[i as int].1,
    {
        self.entries[i].1
    }

    /// Adds one to the counter for `key`, which starts at zero; the
    /// counter saturates instead of overflowing.
    pub fn bump(&mut self, key: &str)
        ensures
            final(self).map_view() == old(self).map_view().insert(
                key@,
                sat_inc(
                    if old(self).map_view().contains_key(key@) {
                        old(self).map_view()[key@]
                    } else {
                        0
                    },
                ),
            ),
    {
        proof {
            use_type_invariant(&*self);
        }
        let ghost es0 = self@;
        let k = key.to_owned();
        let mut entries: Vec<(String, u64)> = Vec::new();
        std::mem::swap(&mut entries, &mut self.entries);
        proof {
            assert(count_entries_view(entries@) =~= es0);
        }
        match find_count_key(&entries, key) {
            Some(i) => {
                let v = entries[i].1;
                let nv: u64 = if v < u64::MAX {
                    v + 1
                } else {
                    v
                };
                entries[i] = (k, nv);
                proof {
                    assert(count_entries_view(entries@) =~= es0.update(i as int, (key@, nv)));
                    assert(es0[i as int].0 == key@);
                    crate::strmap::lemma_map_of_entries_at(es0, i as int);
                    lemma_map_of_entries_update(es0, i as int, nv);
                    lemma_map_of_entries_domain(es0, key@);
                    assert(entries_unique(count_entries_view(entries@)));
                }
            },
            None => {
                entries.push((k, 1));
                proof {
                    assert(count_entries_view(entries@) =~= es0.push((key@, 1u64)));
                    assert(count_entries_view(entries@).drop_last() =~= es0);
                    lemma_map_of_entries_domain(es0, key@);
                    assert(entries_unique(count_entries_view(entries@)));
                }
            },
        }
        self.entries = entries;
    }
}

/// The entry views of a raw counter list.
spec fn count_entries_view(es: Seq<(String, u64)>) -> Seq<(Seq<char>, u64)> {
    Seq::new(es.len(), |i: int| (es[i].0@, es[i].1))
}

/// The position of the first counter for `key`, if any.
fn find_count_key(entries: &Vec<(String, u64)>, key: &str) -> (r: Option<usize>)
    ensures
        match r {
            Some(i) => i < entries@.len() && entries@[i as int].0@ == key@ && forall|j: int|
                0 <= j < i ==> entries@[j].0@ != key@,
            None => forall|j: int| 0 <= j < entries@.len() ==> entries@[j].0@ != key@,
        },
{
    let n = entries.len();
    let mut i: usize = 0;
    while i < n
        invariant
            n == entries@.len(),
            i <= n,
            forall|j: int| 0 <= j < i ==> entries@[j].0@ != key@,
        decreases n - i,
    {
        if eq_str(entries[i].0.as_str(), key) {
            return Some(i);
        }
        i = i + 1;
    }
    None
}

// ---------------------------------------------------------------------------
// Counters keyed by status
// ---------------------------------------------------------------------------

/// One counter per response status.
#[derive(Clone, Copy, PartialEq, Eq, Structural, Debug)]
pub struct StatusCounts {
    pub ok: u64,
    pub created: u64,
    pub bad_request: u64,
    pub not_found: u64,
    pub internal_error: u64,
    pub not_implemented: u64,
    pub service_unavailable: u64,
}

/// All status counters at zero.
pub open spec fn zero_status_counts() -> StatusCounts {
    StatusCounts {
        ok: 0,
        created: 0,
        bad_request: 0,
        not_found: 0,
        internal_error: 0,
        not_implemented: 0,
        service_unavailable: 0,
    }
}

/// `sc` with the counter for `code` raised by one, saturating.
pub open spec fn bump_status(sc: StatusCounts, code: HttpStatusCode) -> StatusCounts {
    match code {
        HttpStatusCode::OK => StatusCounts { ok: sat_inc(sc.ok), ..sc },
        HttpStatusCode::Created => StatusCounts { created: sat_inc(sc.created), ..sc },
        HttpStatusCode::BadRequest => StatusCounts { bad_request: sat_inc(sc.bad_request), ..sc },
        HttpStatusCode::NotFound => StatusCounts { not_found: sat_inc(sc.not_found), ..sc },
        HttpStatusCode::InternalServerError => StatusCounts {
            internal_error: sat_inc(sc.internal_error),
            ..sc
        },
        HttpStatusCode::NotImplemented => StatusCounts {
            not_implemented: sat_inc(sc.not_implemented),
            ..sc
        },
        HttpStatusCode::ServiceUnavailable => StatusCounts {
            service_unavailable: sat_inc(sc.service_unavailable),
            ..sc
        },
    }
}

// ---------------------------------------------------------------------------
// The dump format
// ---------------------------------------------------------------------------

/// One `"key": count` item of the per-path listing.
pub open spec fn count_entry_chars(e: (Seq<char>, u64)) -> Seq<char> {
    "\""@ + e.0 + "\": "@ + dec_chars(e.1 as int)
}

/// The per-path listing, comma-separated in insertion order.
pub open spec fn counts_chars(es: Seq<(Seq<char>, u64)>) -> Seq<char>
    decreases es.len(),
{
    if es.len() == 0 {
        Seq::<char>::empty()
    } else if es.len() == 1 {
        count_entry_chars(es[0])
    } else {
        counts_chars(es.drop_last()) + ", "@ + count_entry_chars(es.last())
    }
}

/// The per-status listing, every status in a fixed order.
pub open spec fn status_counts_chars(sc: StatusCounts) -> Seq<char> {
    "{200: "@ + dec_chars(sc.ok as int) + ", 201: "@ + dec_chars(sc.created as int) + ", 400: "@
        + dec_chars(sc.bad_request as int) + ", 404: "@ + dec_chars(sc.not_found as int)
        + ", 500: "@ + dec_chars(sc.internal_error as int) + ", 501: "@ + dec_chars(
        sc.not_implemented as int,
    ) + ", 503: "@ + dec_chars(sc.service_unavailable as int) + "}"@
}

/// The whole plaintext dump.
pub open spec fn dump_chars(total: u64, by_path: Seq<(Seq<char>, u64)>, sc: StatusCounts) -> Seq<
    char,
> {
    "Total Requests: "@ + dec_chars(total as int) + "\nRequests by Path: {"@ + counts_chars(
        by_path,
    ) + "}\nResponse Statuses: "@ + status_counts_chars(sc)
}

// ---------------------------------------------------------------------------
// The middleware
// ---------------------------------------------------------------------------

/// Counts requests and responses, and serves the counters as plaintext
/// when the request path equals the configured reporting path (without
/// counting that request).
pub struct StatisticMiddleware {
    path: String,
    total_requests: u64,
    requests_by_path: CountMap,
    response_statuses: StatusCounts,
}

impl StatisticMiddleware {
    /// The reporting path.
    pub closed spec fn path_spec(&self) -> Seq<char> {
        self.path@
    }

    /// The total number of recorded requests.
    pub closed spec fn total_spec(&self) -> u64 {
        self.total_requests
    }

    /// The per-key counters, in insertion order.
    pub closed spec fn by_path_seq(&self) -> Seq<(Seq<char>, u64)> {
        self.requests_by_path@
    }

    /// The per-key counters as a map.
    pub open spec fn by_path_map(&self) -> Map<Seq<char>, u64> {
        map_of_entries(self.by_path_seq())
    }

    /// The per-status counters.
    pub closed spec fn statuses_spec(&self) -> StatusCounts {
        self.response_statuses
    }

    /// Fresh counters reporting on `path`.
    pub fn new(path: &str) -> (r: StatisticMiddleware)
        ensures
            r.path_spec() == path@,
            r.total_spec() == 0,
            r.by_path_seq() == Seq::<(Seq<char>, u64)>::empty(),
            r.statuses_spec() == zero_status_counts(),
    {
        StatisticMiddleware {
            path: path.to_owned(),
            total_requests: 0,
            requests_by_path: CountMap::new(),
            response_statuses: StatusCounts {
                ok: 0,
                created: 0,
                bad_request: 0,
                not_found: 0,
                internal_error: 0,
                not_implemented: 0,
                service_unavailable: 0,
            },
        }
    }

    /// Whether `path` is the reporting path.
    pub fn is_report_path(&self, path: &str) -> (r: bool)
        ensures
            r == (path@ == self.path_spec()),
    {
        eq_str(path, self.path.as_str())
    }

    /// Counts one incoming request under `key`; the total and the per-key
    /// counter each grow by exactly one (saturating at the maximum).
    pub fn record_request(&mut self, key: &str)
        ensures
            final(self).path_spec() == old(self).path_spec(),
            final(self).statuses_spec() == old(self).statuses_spec(),
            final(self).total_spec() == sat_inc(old(self).total_spec()),
            final(self).by_path_map() == old(self).by_path_map().insert(
                key@,
                sat_inc(
                    if old(self).by_path_map().contains_key(key@) {
                        old(self).by_path_map()[key@]
                    } else {
                        0
                    },
                ),
            ),
    {
        if self.total_requests < u64::MAX {
            self.total_requests = self.total_requests + 1;
        }
        self.requests_by_path.bump(key);
    }

    /// Counts one outgoing response status, saturating at the maximum.
    pub fn record_status(&mut self, code: HttpStatusCode)
        ensures
            final(self).path_spec() == old(self).path_spec(),
            final(self).total_spec() == old(self).total_spec(),
            final(self).by_path_seq() == old(self).by_path_seq(),
            final(self).statuses_spec() == bump_status(old(self).statuses_spec(), code),
    {
        match code {
            HttpStatusCode::OK => {
                if self.response_statuses.ok < u64::MAX {
                    self.response_statuses.ok = self.response_statuses.ok + 1;
                }
            },
            HttpStatusCode::Created => {
                if self.response_statuses.created < u64::MAX {
                    self.response_statuses.created = self.response_statuses.created + 1;
                }
            },
            HttpStatusCode::BadRequest => {
                if self.response_statuses.bad_request < u64::MAX {
                    self.response_statuses.bad_request = self.response_statuses.bad_request + 1;
                }
            },
            HttpStatusCode::NotFound => {
                if self.response_statuses.not_found < u64::MAX {
                    self.response_statuses.not_found = self.response_statuses.not_found + 1;
                }
            },
            HttpStatusCode::InternalServerError => {
                if self.response_statuses.internal_error < u64::MAX {
                    self.response_statuses.internal_error = self.response_statuses.internal_error
                        + 1;
                }
            },
            HttpStatusCode::NotImplemented => {
                if self.response_statuses.not_implemented < u64::MAX {
                    self.response_statuses.not_implemented =
                        self.response_statuses.not_implemented + 1;
                }
            },
            HttpStatusCode::ServiceUnavailable => {
                if self.response_statuses.service_unavailable < u64::MAX {
                    self.response_statuses.service_unavailable =
                        self.response_statuses.service_unavailable + 1;
                }
            },
        }
    }

    /// Renders the counters as plaintext.
    pub fn render_dump(&self) -> (r: String)
        ensures
            r@ == dump_chars(self.total_spec(), self.by_path_seq(), self.statuses_spec()),
    {
        let mut s = String::new();
        s.append("Total Requests: ");
        let total_digits = u64_digits(self.total_requests);
        s.append(total_digits.as_str());
        s.append("\nRequests by Path: {");
        let n = self.requests_by_path.len();
        let mut i: usize = 0;
        let ghost es = self.by_path_seq();
        proof {
            assert(counts_chars(es.subrange(0, 0)) =~= Seq::<char>::empty());
            assert(es.subrange(0, 0) =~= Seq::<(Seq<char>, u64)>::empty());
        }
        while i < n
            invariant
                i <= n,
                n == es.len(),
                es == self.by_path_seq(),
                s@ == "Total Requests: "@ + dec_chars(self.total_spec() as int)
                    + "\nRequests by Path: {"@ + counts_chars(es.subrange(0, i as int)),
            decreases n - i,
        {
            let ghost pre = s@;
            if i > 0 {
                s.append(", ");
            }
            s.append("\"");
            let key = self.requests_by_path.key_at(i);
            s.append(key.as_str());
            s.append("\": ");
            let digits = u64_digits(self.requests_by_path.count_at(i));
            s.append(digits.as_str());
            proof {
                assert(es.subrange(0, i as int + 1).drop_last() =~= es.subrange(0, i as int));
                assert(es.subrange(0, i as int + 1).last() == es[i as int]);
                if i == 0 {
                    assert(es.subrange(0, 1).len() == 1);
                    assert(es.subrange(0, 1)[0] == es[0]);
                    assert(counts_chars(es.subrange(0, 1)) == count_entry_chars(es[0]));
                    assert(s@ =~= pre + count_entry_chars(es[0]));
                } else {
                    assert(s@ =~= pre + ", "@ + count_entry_chars(es[i as int]));
                }
                assert(s@ =~= "Total Requests: "@ + dec_chars(self.total_spec() as int)
                    + "\nRequests by Path: {"@ + counts_chars(es.subrange(0, i as int + 1)));
            }
            i = i + 1;
        }
        s.append("}\nResponse Statuses: ");
        proof {
            assert(es.subrange(0, n as int) =~= es);
        }
        let sc = &self.response_statuses;
        s.append("{200: ");
        let d0 = u64_digits(sc.ok);
        s.append(d0.as_str());
        s.append(", 201: ");
        let d1 = u64_digits(sc.created);
        s.append(d1.as_str());
        s.append(", 400: ");
        let d2 = u64_digits(sc.bad_request);
        s.append(d2.as_str());
        s.append(", 404: ");
        let d3 = u64_digits(sc.not_found);
        s.append(d3.as_str());
        s.append(", 500: ");
        let d4 = u64_digits(sc.internal_error);
        s.append(d4.as_str());
        s.append(", 501: ");
        let d5 = u64_digits(sc.not_implemented);
        s.append(d5.as_str());
        s.append(", 503: ");
        let d6 = u64_digits(sc.service_unavailable);
        s.append(d6.as_str());
        s.append("}");
        proof {
            assert(s@ =~= dump_chars(self.total_spec(), self.by_path_seq(), self.statuses_spec()));
        }
        s
    }

    /// The reporting response: the current counters as a plain-text body,
    /// with `Content-Length` and `Content-Type` set by the body.
    pub fn report_response(&self) -> (r: HttpResponse)
        ensures
            r.status_spec() == HttpStatusCode::OK,
            r.body_spec() == Some(
                vstd::utf8::encode_utf8(
                    dump_chars(self.total_spec(), self.by_path_seq(), self.statuses_spec()),
                ),
            ),
            r.headers_map() == Map::<Seq<char>, Seq<char>>::empty().insert(
                "Content-Length"@,
                "0"@,
            ).insert(
                "Content-Length"@,
                dec_chars(
                    vstd::utf8::encode_utf8(
                        dump_chars(self.total_spec(), self.by_path_seq(), self.statuses_spec()),
                    ).len() as int,
                ),
            ).insert("Content-Type"@, "text/plain"@),
    {
        let dump = self.render_dump();
        let r = HttpResponse::new(HttpStatusCode::OK).with_body(dump.as_str());
        proof {
            crate::strmap::lemma_map_of_entries_singleton("Content-Length"@, "0"@);
        }
        r
    }
}

/// Renders a 64-bit counter in decimal.
fn u64_digits(n: u64) -> (r: String)
    ensures
        r@ == dec_chars(n as int),
    decreases n,
{
    if n < 10 {
        usize_to_string(n as usize)
    } else {
        let q = n / 10;
        let d = n % 10;
        let r = u64_digits(q);
        let ds = usize_to_string((d as usize));
        r.concat(ds.as_str())
    }
}

// ---------------------------------------------------------------------------
// The lost-update law
// ---------------------------------------------------------------------------

/// Under exclusive access to the counters, no update is lost: across any
/// chain of states in which each total arises from the previous one by
/// one recording step, the total never decreases, and below the
/// saturation bound the final total exceeds the first by exactly the
/// number of steps.
pub proof fn lemma_counter_no_lost_updates(totals: Seq<u64>)
    requires
        totals.len() >= 1,
        forall|i: int| 0 <= i < totals.len() - 1 ==> totals[i + 1] == #[trigger] sat_inc(totals[i]),
    ensures
        forall|i: int, j: int| 0 <= i <= j < totals.len() ==> totals[i] <= totals[j],
        totals[0] + totals.len() - 1 <= u64::MAX ==> totals.last() == totals[0] + totals.len() - 1,
    decreases totals.len(),
{
    if totals.len() > 1 {
        let pre = totals.drop_last();
        assert forall|i: int| 0 <= i < pre.len() - 1 implies pre[i + 1] == #[trigger] sat_inc(
            pre[i],
        ) by {
            assert(totals[i + 1] == sat_inc(totals[i]));
            assert(pre[i] == totals[i] && pre[i + 1] == totals[i + 1]);
        }
        lemma_counter_no_lost_updates(pre);
        assert(totals.last() == sat_inc(totals[totals.len() - 2]));
        assert forall|i: int, j: int| 0 <= i <= j < totals.len() implies totals[i] <= totals[j] by {
            if j < totals.len() - 1 {
                assert(pre[i] <= pre[j]);
            } else if i < totals.len() - 1 {
                assert(pre[i] <= pre[totals.len() - 2]);
            }
        }
    }
}

} // verus!
