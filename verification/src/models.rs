//! Small request-level data models: pagination parameters and their SQL
//! form.

use vstd::prelude::*;

verus! {

/// Pagination as a caller supplies it: an optional zero-based page number.
pub struct PaginationParams {
    pub page: Option<i64>,
}

/// Pagination as a query consumes it.
#[derive(Clone, Copy, Debug, Eq, PartialEq, Structural)]
pub struct SqlPagination {
    pub limit: i64,
    pub offset: i64,
}

/// The default page size.
pub const SQL_PAGE_SIZE: i64 = 100;

/// `p * 100`, saturated at the bounds of `i64`.
pub open spec fn spec_offset_of_page(p: int) -> int {
    if p * SQL_PAGE_SIZE > i64::MAX {
        i64::MAX as int
    } else if p * SQL_PAGE_SIZE < i64::MIN {
        i64::MIN as int
    } else {
        p * SQL_PAGE_SIZE
    }
}

impl vstd::std_specs::convert::FromSpecImpl<PaginationParams> for SqlPagination {
    open spec fn obeys_from_spec() -> bool {
        true
    }

    open spec fn from_spec(v: PaginationParams) -> Self {
        SqlPagination {
            limit: SQL_PAGE_SIZE,
            offset: spec_offset_of_page(
                match v.page {
                    Some(p) => p as int,
                    None => 0,
                },
            ) as i64,
        }
    }
}

/// Uses a default page size of 100 items; an absent page number means the
/// first page, and an absurdly large one saturates rather than overflowing.
impl From<PaginationParams> for SqlPagination {
    fn from(value: PaginationParams) -> (r: SqlPagination) {
        let page: i64 = match value.page {
            Some(p) => p,
            None => 0,
        };
        let offset: i64 = if page > i64::MAX / SQL_PAGE_SIZE {
            i64::MAX
        } else if page < i64::MIN / SQL_PAGE_SIZE {
            i64::MIN
        } else {
            page * SQL_PAGE_SIZE
        };
        SqlPagination { limit: SQL_PAGE_SIZE, offset }
    }
}

} // verus!
