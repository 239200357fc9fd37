//! The `ListResponse` message of RFC 7644 §3.4.2 and the paging parameters of §3.4.2.4.

use crate::text;
use vstd::prelude::*;

verus! {

pub const LIST_RESPONSE_SCHEMA_URI: &'static str = "urn:ietf:params:scim:api:messages:2.0:ListResponse";

/// One page of results.
#[derive(Clone, Debug, PartialEq)]
pub struct ListResponse<T> {
    pub schemas: Vec<String>,
    pub total_results: u64,
    pub items_per_page: u64,
    /// Where this page starts among all results; counted from 1.
    pub start_index: u64,
    pub resources: Vec<T>,
}

impl<T> ListResponse<T> {
    /// A page that holds `resources`. The count of items on the page is that of `resources`; the
    /// count over all pages is the caller's to give.
    pub fn new(resources: Vec<T>, total_results: u64, start_index: u64) -> (r: ListResponse<T>)
        ensures
            text::texts(r.schemas@) == seq![LIST_RESPONSE_SCHEMA_URI@],
            r.total_results == total_results,
            r.items_per_page == resources.len(),
            r.start_index == start_index,
            r.resources == resources,
    {
        let items_per_page: u64 = resources.len() as u64;
        let r = ListResponse {
            schemas: vec![LIST_RESPONSE_SCHEMA_URI.to_owned()],
            total_results,
            items_per_page,
            start_index,
            resources,
        };
        assert(text::texts(r.schemas@) =~= seq![LIST_RESPONSE_SCHEMA_URI@]);
        r
    }
}

/// The `startIndex` and `count` of a request, brought into range. A `count` has no upper bound of
/// its own: cap it with [`Pagination::clamped`] before it sizes an allocation or a query.
#[derive(Clone, Copy, Debug, PartialEq, Eq, Structural)]
pub struct Pagination {
    pub start_index: u64,
    pub count: Option<u64>,
}

/// The paging that raw request parameters stand for: a start below 1, or none, is 1; a negative
/// count is 0.
pub open spec fn requested(start: Option<i64>, count: Option<i64>) -> Pagination {
    Pagination {
        start_index: match start {
            Some(v) => if v < 1 {
                1
            } else {
                v as u64
            },
            None => 1,
        },
        count: match count {
            Some(v) => Some(
                if v < 0 {
                    0
                } else {
                    v as u64
                },
            ),
            None => None,
        },
    }
}

/// Paging with its count capped.
pub open spec fn capped(p: Pagination, max_count: u64) -> Pagination {
    Pagination {
        start_index: p.start_index,
        count: match p.count {
            Some(c) => Some(
                if c < max_count {
                    c
                } else {
                    max_count
                },
            ),
            None => None,
        },
    }
}

impl Pagination {
    /// Reads the raw request parameters; `None` stands for one that was left out.
    pub fn from_request(raw_start_index: Option<i64>, raw_count: Option<i64>) -> (p: Pagination)
        ensures
            p == requested(raw_start_index, raw_count),
            p.start_index >= 1,
    {
        let start_index: u64 = match raw_start_index {
            Some(v) => if v < 1 {
                1
            } else {
                v as u64
            },
            None => 1,
        };
        let count = match raw_count {
            Some(v) => Some(
                if v < 0 {
                    0
                } else {
                    v as u64
                },
            ),
            None => None,
        };
        Pagination { start_index, count }
    }

    /// The same paging with `count` at most `max_count`; a count that was left out stays out.
    #[must_use]
    pub fn clamped(self, max_count: u64) -> (p: Pagination)
        ensures
            p == capped(self, max_count),
    {
        let count = match self.count {
            Some(c) => Some(
                if c < max_count {
                    c
                } else {
                    max_count
                },
            ),
            None => None,
        };
        Pagination { start_index: self.start_index, count }
    }
}

/// A page always starts at 1 or later, whatever was asked for.
pub proof fn law_pages_start_at_one(start: Option<i64>, count: Option<i64>)
    ensures
        requested(start, count).start_index >= 1,
{
}

/// Capping a count never raises it, never exceeds the cap, and leaves the start alone.
pub proof fn law_capped_count_is_bounded(p: Pagination, max_count: u64)
    ensures
        capped(p, max_count).start_index == p.start_index,
        capped(p, max_count).count is Some <==> p.count is Some,
        p.count matches Some(c) ==> capped(p, max_count).count->0 <= c && capped(
            p,
            max_count,
        ).count->0 <= max_count,
{
}

/// Capping twice is capping once, at the lower of the two bounds.
pub proof fn law_capping_composes(p: Pagination, a: u64, b: u64)
    ensures
        capped(capped(p, a), b) == capped(
            p,
            if a < b {
                a
            } else {
                b
            },
        ),
{
}

} // verus!
