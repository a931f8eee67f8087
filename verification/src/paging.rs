use vstd::prelude::*;

verus! {

/// The query parameters of the listing endpoint, as they arrive: absent
/// values mean "use the default".
#[derive(Debug)]
pub struct ListPatientsQuery {
    pub page: Option<u32>,
    pub limit: Option<u32>,
    pub search: Option<String>,
}

/// The pagination block of a listing response.
#[derive(Clone, Copy, Debug, PartialEq, Eq, Structural)]
pub struct Pagination {
    pub page: u32,
    pub limit: u32,
    pub total: u64,
    pub total_pages: u32,
}

/// Mathematical ceiling of `total / limit` for a positive `limit`.
pub open spec fn spec_ceil_div(total: int, limit: int) -> int {
    (total + limit - 1) / limit
}

impl ListPatientsQuery {
    /// The page requested, defaulting to the first.
    pub fn effective_page(&self) -> (r: u32)
        ensures
            r == match self.page {
                Some(p) => p,
                None => 1u32,
            },
    {
        match self.page {
            Some(p) => p,
            None => 1,
        }
    }

    /// The page size requested, defaulting to twenty rows.
    pub fn effective_limit(&self) -> (r: u32)
        ensures
            r == match self.limit {
                Some(l) => l,
                None => 20u32,
            },
    {
        match self.limit {
            Some(l) => l,
            None => 20,
        }
    }
}

impl Pagination {
    /// Builds the pagination block for a listing of `total` rows shown
    /// `limit` to a page: `total_pages` is `total / limit` rounded up,
    /// saturated to `u32`. A zero `limit` yields zero pages of an empty
    /// listing and the saturation value otherwise.
    pub fn compute(page: u32, limit: u32, total: u64) -> (pg: Pagination)
        ensures
            pg.page == page,
            pg.limit == limit,
            pg.total == total,
            limit >= 1 ==> pg.total_pages as int == vstd::math::min(
                u32::MAX as int,
                spec_ceil_div(total as int, limit as int),
            ),
            limit == 0 ==> pg.total_pages == (if total == 0 {
                0u32
            } else {
                u32::MAX
            }),
    {
        let total_pages: u32 = if limit == 0 {
            if total == 0 {
                0
            } else {
                u32::MAX
            }
        } else {
            let tp: u128 = ((total as u128) + (limit as u128) - 1) / (limit as u128);
            proof {
                vstd::arithmetic::div_mod::lemma_div_nonincreasing(
                    (total as int) + (limit as int) - 1,
                    limit as int,
                );
                vstd::arithmetic::div_mod::lemma_div_pos_is_pos(
                    (total as int) + (limit as int) - 1,
                    limit as int,
                );
            }
            if tp > (u32::MAX as u128) {
                u32::MAX
            } else {
                tp as u32
            }
        };
        Pagination { page, limit, total, total_pages }
    }
}

/// How many rows a listing skips to reach `page`: pages before the first are
/// treated as the first.
pub fn page_offset(page: u32, limit: u32) -> (r: u64)
    ensures
        page >= 1 ==> r == (page - 1) * (limit as int),
        page == 0 ==> r == 0,
{
    if page == 0 {
        0
    } else {
        proof {
            assert(((page - 1) as int) * (limit as int) <= (u32::MAX as int) * (u32::MAX as int))
                by (nonlinear_arith)
                requires page <= u32::MAX, limit <= u32::MAX;
            assert(0 <= ((page - 1) as int) * (limit as int)) by (nonlinear_arith)
                requires 1 <= page;
        }
        ((page - 1) as u64) * (limit as u64)
    }
}

} // verus!
