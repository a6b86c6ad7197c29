//! Where a row lives: the arithmetic that maps a row index to a page and to
//! a byte offset within that page.

use vstd::prelude::*;

verus! {

/// How many rows of `row_size` bytes a page of `page_size` bytes holds. The
/// bytes left over at the end of a page are never used.
pub open spec fn rows_per_page(page_size: nat, row_size: nat) -> nat
    recommends
        row_size > 0,
{
    page_size / row_size
}

/// The index of the page that holds row `row_index`.
pub open spec fn page_of(row_index: nat, page_size: nat, row_size: nat) -> nat
    recommends
        0 < row_size <= page_size,
{
    row_index / rows_per_page(page_size, row_size)
}

/// The offset within its page of the first byte of row `row_index`.
pub open spec fn offset_of(row_index: nat, page_size: nat, row_size: nat) -> nat
    recommends
        0 < row_size <= page_size,
{
    (row_index % rows_per_page(page_size, row_size)) * row_size
}

/// How many pages it takes to hold `num_rows` rows.
pub open spec fn pages_for(num_rows: nat, page_size: nat, row_size: nat) -> nat
    recommends
        0 < row_size <= page_size,
{
    let per_page = rows_per_page(page_size, row_size);
    if num_rows % per_page == 0 {
        num_rows / per_page
    } else {
        num_rows / per_page + 1
    }
}

/// Whether byte `offset` of page `page` belongs to one of the first
/// `num_rows` rows.
pub open spec fn in_row(page: nat, offset: nat, num_rows: nat, page_size: nat, row_size: nat) -> bool
    recommends
        0 < row_size <= page_size,
{
    let per_page = rows_per_page(page_size, row_size);
    let slot = offset / row_size;
    slot < per_page && page * per_page + slot < num_rows
}

/// A page holds at least one row, and the rows it holds fit in it.
pub proof fn lemma_rows_per_page(page_size: nat, row_size: nat)
    requires
        0 < row_size <= page_size,
    ensures
        rows_per_page(page_size, row_size) >= 1,
        rows_per_page(page_size, row_size) * row_size <= page_size,
{
    let per_page = page_size / row_size;
    assert(per_page >= 1 && per_page * row_size <= page_size) by (nonlinear_arith)
        requires
            0 < row_size <= page_size,
            per_page == page_size / row_size,
    ;
}

/// Every row lies within its page.
pub proof fn lemma_row_in_page(row_index: nat, page_size: nat, row_size: nat)
    requires
        0 < row_size <= page_size,
    ensures
        offset_of(row_index, page_size, row_size) + row_size <= page_size,
{
    lemma_rows_per_page(page_size, row_size);
    let per_page = rows_per_page(page_size, row_size);
    let slot = row_index % per_page;
    assert(slot * row_size + row_size <= per_page * row_size) by (nonlinear_arith)
        requires
            0 <= slot < per_page,
            row_size > 0,
    ;
}

/// The bytes of a row belong to that row: they belong to the first
/// `num_rows` rows exactly when the row is one of them.
pub proof fn lemma_row_bytes_in_row(
    row_index: nat,
    offset: nat,
    num_rows: nat,
    page_size: nat,
    row_size: nat,
)
    requires
        0 < row_size <= page_size,
        offset_of(row_index, page_size, row_size) <= offset < offset_of(
            row_index,
            page_size,
            row_size,
        ) + row_size,
    ensures
        in_row(page_of(row_index, page_size, row_size), offset, num_rows, page_size, row_size) == (
        row_index < num_rows),
{
    lemma_rows_per_page(page_size, row_size);
    let per_page = rows_per_page(page_size, row_size) as int;
    let slot = row_index as int % per_page;
    let size = row_size as int;
    let at = offset as int;
    vstd::arithmetic::div_mod::lemma_fundamental_div_mod(row_index as int, per_page);
    vstd::arithmetic::div_mod::lemma_fundamental_div_mod(at, size);
    let q = at / size;
    let r = at % size;
    assert(q == slot) by (nonlinear_arith)
        requires
            size > 0,
            at == size * q + r,
            0 <= r < size,
            slot * size <= at < slot * size + size,
    ;
    let page = page_of(row_index, page_size, row_size) as int;
    assert(page * per_page == per_page * page) by (nonlinear_arith);
}

/// Two different rows of one page do not overlap.
pub proof fn lemma_rows_disjoint(i: nat, j: nat, page_size: nat, row_size: nat)
    requires
        0 < row_size <= page_size,
        i != j,
        page_of(i, page_size, row_size) == page_of(j, page_size, row_size),
    ensures
        offset_of(i, page_size, row_size) + row_size <= offset_of(j, page_size, row_size)
            || offset_of(j, page_size, row_size) + row_size <= offset_of(i, page_size, row_size),
{
    lemma_rows_per_page(page_size, row_size);
    let per_page = rows_per_page(page_size, row_size) as int;
    let slot_i = i as int % per_page;
    let slot_j = j as int % per_page;
    vstd::arithmetic::div_mod::lemma_fundamental_div_mod(i as int, per_page);
    vstd::arithmetic::div_mod::lemma_fundamental_div_mod(j as int, per_page);
    assert(slot_i != slot_j);
    assert(slot_i * row_size + row_size <= slot_j * row_size || slot_j * row_size + row_size
        <= slot_i * row_size) by (nonlinear_arith)
        requires
            slot_i != slot_j,
            row_size > 0,
    ;
}

/// The pages that hold `num_rows` rows include the page of each of them.
pub proof fn lemma_page_allocated(i: nat, num_rows: nat, page_size: nat, row_size: nat)
    requires
        0 < row_size <= page_size,
        i < num_rows,
    ensures
        page_of(i, page_size, row_size) < pages_for(num_rows, page_size, row_size),
{
    lemma_rows_per_page(page_size, row_size);
    let per_page = rows_per_page(page_size, row_size) as int;
    vstd::arithmetic::div_mod::lemma_fundamental_div_mod(i as int, per_page);
    vstd::arithmetic::div_mod::lemma_fundamental_div_mod(num_rows as int, per_page);
    let qi = i as int / per_page;
    let qn = num_rows as int / per_page;
    let ri = i as int % per_page;
    let rn = num_rows as int % per_page;
    assert(qi < qn || (qi == qn && rn > 0)) by (nonlinear_arith)
        requires
            per_page >= 1,
            i == per_page * qi + ri,
            num_rows == per_page * qn + rn,
            0 <= ri < per_page,
            0 <= rn < per_page,
            i < num_rows,
    ;
}

/// The next row goes to the last page while that page has room, and to a new
/// page when it is full; either way its page is the last one afterwards.
pub proof fn lemma_next_row(num_rows: nat, page_size: nat, row_size: nat)
    requires
        0 < row_size <= page_size,
    ensures
        pages_for(num_rows + 1, page_size, row_size) == page_of(num_rows, page_size, row_size) + 1,
        num_rows % rows_per_page(page_size, row_size) == 0 ==> pages_for(
            num_rows,
            page_size,
            row_size,
        ) == page_of(num_rows, page_size, row_size),
        num_rows % rows_per_page(page_size, row_size) != 0 ==> pages_for(
            num_rows,
            page_size,
            row_size,
        ) == page_of(num_rows, page_size, row_size) + 1,
{
    lemma_rows_per_page(page_size, row_size);
    let per_page = rows_per_page(page_size, row_size) as int;
    let n = num_rows as int;
    vstd::arithmetic::div_mod::lemma_fundamental_div_mod(n, per_page);
    vstd::arithmetic::div_mod::lemma_fundamental_div_mod(n + 1, per_page);
    let q = n / per_page;
    let r = n % per_page;
    let q1 = (n + 1) / per_page;
    let r1 = (n + 1) % per_page;
    assert((r1 == 0 && q1 == q + 1) || (r1 != 0 && q1 == q)) by (nonlinear_arith)
        requires
            per_page >= 1,
            n == per_page * q + r,
            n + 1 == per_page * q1 + r1,
            0 <= r < per_page,
            0 <= r1 < per_page,
    ;
}

/// Computes the page that holds row `row_index` and the offset of the row
/// within that page.
pub fn row_location(page_size: usize, row_size: usize, row_index: usize) -> (location: (
    usize,
    usize,
))
    requires
        0 < row_size <= page_size,
    ensures
        location.0 == page_of(row_index as nat, page_size as nat, row_size as nat),
        location.1 == offset_of(row_index as nat, page_size as nat, row_size as nat),
        location.1 + row_size <= page_size,
{
    proof {
        lemma_rows_per_page(page_size as nat, row_size as nat);
        lemma_row_in_page(row_index as nat, page_size as nat, row_size as nat);
    }
    let per_page = page_size / row_size;
    let page_index = row_index / per_page;
    let slot = row_index % per_page;
    (page_index, slot * row_size)
}

} // verus!
