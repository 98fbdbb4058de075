//! Paging, ordering and search parameters for the message listing.

use crate::bytes::{ascii_seq, bytes_eq, is_ws, str_bytes, subvec, trim_with, trim_ws};
use vstd::prelude::*;

verus! {

/// Query parameters of the message listing, already read from the request.
pub struct ListParams {
    /// 1-based page number.
    pub page: Option<u32>,
    /// Page size.
    pub limit: Option<u32>,
    /// Sort column name.
    pub sort: Option<Vec<u8>>,
    /// Sort direction, `asc` or anything else for descending.
    pub dir: Option<Vec<u8>>,
    /// Free-text search.
    pub q: Option<Vec<u8>>,
}

/// The column a listing is ordered by.
pub enum SortColumn {
    ReceivedAt,
    Subject,
    FromAddr,
    ToRecipients,
}

/// The direction a listing is ordered in.
pub enum SortDir {
    Asc,
    Desc,
}

impl SortColumn {
    /// The column's name in the message store.
    pub fn sql_name(&self) -> (r: &'static str)
        ensures
            r@ == (match self {
                SortColumn::ReceivedAt => "received_at"@,
                SortColumn::Subject => "subject"@,
                SortColumn::FromAddr => "from_addr"@,
                SortColumn::ToRecipients => "to_recipients"@,
            }),
    {
        match self {
            SortColumn::ReceivedAt => "received_at",
            SortColumn::Subject => "subject",
            SortColumn::FromAddr => "from_addr",
            SortColumn::ToRecipients => "to_recipients",
        }
    }
}

impl SortDir {
    /// The direction keyword in the message store's query language.
    pub fn sql_name(&self) -> (r: &'static str)
        ensures
            r@ == (match self {
                SortDir::Asc => "ASC"@,
                SortDir::Desc => "DESC"@,
            }),
    {
        match self {
            SortDir::Asc => "ASC",
            SortDir::Desc => "DESC",
        }
    }
}

/// The effective page: the requested one, at least 1.
pub open spec fn spec_page(p: ListParams) -> u32 {
    match p.page {
        Some(v) => if v < 1 {
            1u32
        } else {
            v
        },
        None => 1u32,
    }
}

/// The effective page size: the requested one, clamped to 1..=200.
pub open spec fn spec_limit(p: ListParams) -> u32 {
    match p.limit {
        Some(v) => if v < 1 {
            1u32
        } else if v > 200 {
            200u32
        } else {
            v
        },
        None => 50u32,
    }
}

/// The column selected by the `sort` parameter.
pub open spec fn spec_sort(p: ListParams) -> SortColumn {
    match p.sort {
        Some(s) => if s@ == ascii_seq("subject"@) {
            SortColumn::Subject
        } else if s@ == ascii_seq("from"@) {
            SortColumn::FromAddr
        } else if s@ == ascii_seq("to"@) {
            SortColumn::ToRecipients
        } else {
            SortColumn::ReceivedAt
        },
        None => SortColumn::ReceivedAt,
    }
}

/// The direction selected by the `dir` parameter; anything but `asc` is
/// descending.
pub open spec fn spec_dir(p: ListParams) -> SortDir {
    match p.dir {
        Some(s) => if s@ == ascii_seq("asc"@) {
            SortDir::Asc
        } else {
            SortDir::Desc
        },
        None => SortDir::Desc,
    }
}

/// The LIKE pattern of the `q` parameter: the trimmed text wrapped in `%`,
/// absent when nothing is left after trimming.
pub open spec fn spec_like(p: ListParams) -> Option<Seq<u8>> {
    match p.q {
        Some(s) => {
            let t = trim_with(s@, |b: u8| is_ws(b));
            if t.len() == 0 {
                None
            } else {
                Some(seq![37u8] + t + seq![37u8])
            }
        },
        None => None,
    }
}

/// Compute the effective paging, ordering and search values of a listing
/// request: page size, row offset, sort column, direction and LIKE pattern.
pub fn compute_list_params(p: &ListParams) -> (r: (u32, u32, SortColumn, SortDir, Option<Vec<u8>>))
    requires
        (spec_page(*p) - 1) * spec_limit(*p) <= u32::MAX,
    ensures
        r.0 == spec_limit(*p),
        r.1 == (spec_page(*p) - 1) * spec_limit(*p),
        r.2 == spec_sort(*p),
        r.3 == spec_dir(*p),
        r.4.deep_view() == spec_like(*p),
{
    let page: u32 = match p.page {
        Some(v) => if v < 1 {
            1
        } else {
            v
        },
        None => 1,
    };
    let limit: u32 = match p.limit {
        Some(v) => if v < 1 {
            1
        } else if v > 200 {
            200
        } else {
            v
        },
        None => 50,
    };
    let offset: u32 = (page - 1) * limit;
    proof {
        reveal_strlit("subject");
        reveal_strlit("from");
        reveal_strlit("to");
        reveal_strlit("asc");
    }
    let order_by = match &p.sort {
        Some(s) => {
            if bytes_eq(s.as_slice(), str_bytes("subject").as_slice()) {
                SortColumn::Subject
            } else if bytes_eq(s.as_slice(), str_bytes("from").as_slice()) {
                SortColumn::FromAddr
            } else if bytes_eq(s.as_slice(), str_bytes("to").as_slice()) {
                SortColumn::ToRecipients
            } else {
                SortColumn::ReceivedAt
            }
        },
        None => SortColumn::ReceivedAt,
    };
    let dir = match &p.dir {
        Some(s) => {
            if bytes_eq(s.as_slice(), str_bytes("asc").as_slice()) {
                SortDir::Asc
            } else {
                SortDir::Desc
            }
        },
        None => SortDir::Desc,
    };
    let like: Option<Vec<u8>> = match &p.q {
        Some(s) => {
            let t = trim_ws(s.as_slice());
            if t.len() == 0 {
                None
            } else {
                let mut v: Vec<u8> = Vec::new();
                v.push(37);
                let mut middle = t;
                v.append(&mut middle);
                v.push(37);
                proof {
                    assert(v@ =~= seq![37u8] + trim_with(s@, |b: u8| is_ws(b)) + seq![37u8]);
                }
                Some(v)
            }
        },
        None => None,
    };
    (limit, offset, order_by, dir, like)
}

} // verus!
