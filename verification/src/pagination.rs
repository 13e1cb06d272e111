//! Pages of a longer list.

use vstd::prelude::*;

verus! {

/// The smallest number from which on not every integer is a double-precision number.
pub const DOUBLE_INTEGERS: u64 = 0x20_0000_0000_0000;

/// The distance between neighbouring double-precision numbers around an integer, where that is
/// one or more.
pub open spec fn double_step(n: nat) -> nat
    decreases n,
{
    if n < DOUBLE_INTEGERS {
        1
    } else {
        2 * double_step(n / 2)
    }
}

/// The double-precision number nearest to an integer; of two that are equally near, the one whose
/// multiple of the step is even.
pub open spec fn nearest_double(n: nat) -> nat {
    let step = double_step(n);
    let below = n / step;
    let rest = n % step;
    if 2 * rest < step || (2 * rest == step && below % 2 == 0) {
        below * step
    } else {
        (below + 1) * step
    }
}

/// The greatest power of two that is not above an integer; zero for zero.
pub open spec fn top_bit(n: nat) -> nat
    decreases n,
{
    if n <= 1 {
        n
    } else {
        2 * top_bit(n / 2)
    }
}

/// Whether the fraction `rest / per_page` is too small to be seen behind the whole number of the
/// same quotient in double precision, so that the quotient is rounded to the whole number.
pub open spec fn fraction_is_lost(whole: nat, rest: nat, per_page: nat) -> bool {
    rest * DOUBLE_INTEGERS <= per_page * top_bit(whole)
}

/// How many pages a list fills: the number of items divided by those on a page, in double
/// precision, rounded up, and at most the greatest 32-bit number. Without room on a page, an empty
/// list fills no page and any other list as many as can be counted.
pub open spec fn page_count(total: nat, per_page: nat) -> nat {
    if per_page == 0 {
        if total == 0 {
            0
        } else {
            u32::MAX as nat
        }
    } else {
        let items = nearest_double(total);
        let whole = items / per_page;
        let rest = items % per_page;
        let pages = if rest == 0 || fraction_is_lost(whole, rest, per_page) {
            whole
        } else {
            whole + 1
        };
        if pages > u32::MAX {
            u32::MAX as nat
        } else {
            pages
        }
    }
}

/// The quotient of two natural numbers, rounded up.
pub open spec fn divided_up(total: nat, per_page: nat) -> nat {
    if total % per_page == 0 {
        total / per_page
    } else {
        total / per_page + 1
    }
}

proof fn lemma_top_bit(n: nat)
    ensures
        top_bit(n) <= n,
    decreases n,
{
    if n > 1 {
        lemma_top_bit(n / 2);
    }
}

/// As long as every integer up to the number of items is a double-precision number, the number of
/// pages is the exact quotient, rounded up, as far as it can be counted in 32 bits.
pub proof fn pages_are_exact(total: nat, per_page: nat)
    requires
        total <= DOUBLE_INTEGERS,
        per_page > 0,
    ensures
        page_count(total, per_page) == if divided_up(total, per_page) > u32::MAX {
            u32::MAX as nat
        } else {
            divided_up(total, per_page)
        },
{
    assert(nearest_double(total) == total) by {
        reveal_with_fuel(double_step, 2);
        if total == DOUBLE_INTEGERS {
            assert(double_step(total) == 2);
            assert(total / 2 == 0x10_0000_0000_0000 && total % 2 == 0);
        } else {
            assert(double_step(total) == 1);
            assert(total / 1 == total && total % 1 == 0);
        }
    }
    let whole = total / per_page;
    let rest = total % per_page;
    if rest != 0 && fraction_is_lost(whole, rest, per_page) {
        lemma_top_bit(whole);
        vstd::arithmetic::div_mod::lemma_fundamental_div_mod(total as int, per_page as int);
        assert(per_page * top_bit(whole) <= per_page * whole) by (nonlinear_arith)
            requires
                top_bit(whole) <= whole,
        ;
        assert(rest * DOUBLE_INTEGERS >= DOUBLE_INTEGERS) by (nonlinear_arith)
            requires
                rest >= 1,
        ;
        assert(false);
    }
}

/// The pages are enough to hold all the items, and one page fewer is not, for as many items and
/// pages as are counted exactly.
pub proof fn pages_hold_all(total: nat, per_page: nat)
    requires
        total <= DOUBLE_INTEGERS,
        per_page > 0,
        page_count(total, per_page) < u32::MAX,
    ensures
        page_count(total, per_page) * per_page >= total,
        total > 0 ==> (page_count(total, per_page) - 1) * per_page < total,
        total == 0 ==> page_count(total, per_page) == 0,
{
    pages_are_exact(total, per_page);
    let whole = total / per_page;
    let rest = total % per_page;
    vstd::arithmetic::div_mod::lemma_fundamental_div_mod(total as int, per_page as int);
    assert(whole * per_page == per_page * whole) by (nonlinear_arith);
    assert((whole + 1) * per_page == per_page * whole + per_page) by (nonlinear_arith);
    assert((whole - 1) * per_page == per_page * whole - per_page) by (nonlinear_arith);
}

fn step_of(n: u128) -> (r: u128)
    requires
        n <= u64::MAX,
    ensures
        r == double_step(n as nat),
        1 <= r <= n || r == 1,
    decreases n,
{
    if n < DOUBLE_INTEGERS as u128 {
        1
    } else {
        2 * step_of(n / 2)
    }
}

fn top_bit_of(n: u128) -> (r: u128)
    ensures
        r == top_bit(n as nat),
        r <= n,
    decreases n,
{
    if n <= 1 {
        n
    } else {
        2 * top_bit_of(n / 2)
    }
}

fn nearest_double_of(n: u64) -> (r: u128)
    ensures
        r == nearest_double(n as nat),
        r <= 2 * u64::MAX,
{
    let number: u128 = n as u128;
    let step = step_of(number);
    let below = number / step;
    let rest = number % step;
    proof {
        vstd::arithmetic::div_mod::lemma_fundamental_div_mod(number as int, step as int);
        assert(below * step <= number) by (nonlinear_arith)
            requires
                number == step * below + rest,
                rest >= 0,
        ;
        assert((below + 1) * step == below * step + step) by (nonlinear_arith);
    }
    if 2 * rest < step || (2 * rest == step && below % 2 == 0) {
        below * step
    } else {
        (below + 1) * step
    }
}

fn count_pages(total: u64, per_page: u32) -> (r: u32)
    ensures
        r == page_count(total as nat, per_page as nat),
{
    if per_page == 0 {
        if total == 0 {
            0
        } else {
            u32::MAX
        }
    } else {
        let items = nearest_double_of(total);
        let size: u128 = per_page as u128;
        let whole = items / size;
        let rest = items % size;
        let pages: u128 = if rest == 0 {
            whole
        } else {
            let top = top_bit_of(whole);
            proof {
                assert(rest * DOUBLE_INTEGERS <= 0xffff_ffff * 0x20_0000_0000_0000)
                    by (nonlinear_arith)
                    requires
                        rest <= 0xffff_ffff,
                        DOUBLE_INTEGERS == 0x20_0000_0000_0000,
                ;
                assert(whole <= items) by (nonlinear_arith)
                    requires
                        whole == items / size,
                        size >= 1,
                ;
                assert(size * top <= 0xffff_ffff * (2 * 0xffff_ffff_ffff_ffff)) by (nonlinear_arith)
                    requires
                        size <= 0xffff_ffff,
                        top <= 2 * 0xffff_ffff_ffff_ffff,
                ;
            }
            if rest * (DOUBLE_INTEGERS as u128) <= size * top {
                whole
            } else {
                whole + 1
            }
        };
        if pages > u32::MAX as u128 {
            u32::MAX
        } else {
            pages as u32
        }
    }
}

/// Which page of a list is asked for, and how the list falls into pages. Pages count from one.
#[derive(Debug, Clone, Copy)]
pub struct Pagination {
    pub page: u32,
    pub per_page: u32,
    pub total: u64,
    pub total_pages: u32,
}

impl Pagination {
    /// The pagination of a list of `total` items.
    pub fn new(page: u32, per_page: u32, total: u64) -> (r: Pagination)
        ensures
            r.page == page,
            r.per_page == per_page,
            r.total == total,
            r.total_pages == page_count(total as nat, per_page as nat),
    {
        Pagination { page, per_page, total, total_pages: count_pages(total, per_page) }
    }

    /// How many items lie before the page.
    pub fn offset(&self) -> (r: u64)
        requires
            self.page >= 1,
            (self.page - 1) * self.per_page <= u32::MAX,
        ensures
            r == (self.page - 1) * self.per_page,
    {
        ((self.page - 1) * self.per_page) as u64
    }

    /// How many items there are at most on the page.
    pub fn limit(&self) -> (r: u64)
        ensures
            r == self.per_page,
    {
        self.per_page as u64
    }
}

/// One page of a list, with its pagination.
pub struct PaginatedResponse<T> {
    pub data: Vec<T>,
    pub pagination: Pagination,
}

impl<T> PaginatedResponse<T> {
    pub fn new(data: Vec<T>, pagination: Pagination) -> (r: PaginatedResponse<T>)
        ensures
            r.data == data,
            r.pagination == pagination,
    {
        PaginatedResponse { data, pagination }
    }
}

/// Without room on a page an empty list fills no page, and any other list as many as can be counted.
/// No list fills more pages than can be counted in 32 bits.
pub proof fn pages_are_counted_in_32_bits(total: nat, per_page: nat)
    ensures
        page_count(total, per_page) <= 0xffff_ffff,
        page_count(0, 0) == 0,
        total > 0 ==> page_count(total, 0) == 0xffff_ffff,
{
}

proof fn lemma_double_step(n: nat)
    ensures
        double_step(n) >= 1,
        n < 0x20_0000_0000_0000 ==> double_step(n) == 1,
        n >= 0x20_0000_0000_0000 ==> double_step(n) * 0x10_0000_0000_0000 <= n,
        n < double_step(n) * 0x20_0000_0000_0000,
        double_step(n) == 1 || double_step(n) % 2 == 0,
    decreases n,
{
    if n >= 0x20_0000_0000_0000 {
        lemma_double_step(n / 2);
    }
}

/// A number of items is rounded to one of 53 bits, to the nearest: the smaller ones stay as they are,
/// and of the others none moves by more than half of the last of these bits.
pub proof fn items_are_rounded_to_the_nearest(n: nat)
    ensures
        n <= 0x20_0000_0000_0000 ==> nearest_double(n) == n,
        ({
            let step = double_step(n);
            &&& nearest_double(n) % step == 0
            &&& 2 * nearest_double(n) <= 2 * n + step
            &&& 2 * n <= 2 * nearest_double(n) + step
            &&& step == 1 || step * 0x10_0000_0000_0000 <= n < step * 0x20_0000_0000_0000
            &&& 2 * (n % step) == step ==> (nearest_double(n) / step) % 2 == 0
        }),
{
    lemma_double_step(n);
    let step = double_step(n);
    let below = n / step;
    let rest = n % step;
    vstd::arithmetic::div_mod::lemma_fundamental_div_mod(n as int, step as int);
    assert(below * step == step * below) by (nonlinear_arith);
    assert((below + 1) * step == step * below + step) by (nonlinear_arith);
    vstd::arithmetic::div_mod::lemma_mod_multiples_basic(below as int, step as int);
    vstd::arithmetic::div_mod::lemma_mod_multiples_basic(below as int + 1, step as int);
    vstd::arithmetic::div_mod::lemma_div_multiples_vanish(below as int, step as int);
    vstd::arithmetic::div_mod::lemma_div_multiples_vanish(below as int + 1, step as int);
    assert((below + 1) * step == step * (below + 1)) by (nonlinear_arith);
    if n == 0x20_0000_0000_0000 {
        reveal_with_fuel(double_step, 2);
        assert(step == 2 && below == 0x10_0000_0000_0000 && rest == 0);
    } else if n < 0x20_0000_0000_0000 {
        assert(below == n && rest == 0);
    }
}

/// However many items there are, the pages hold all of them but for the rounding, and one page fewer
/// holds fewer: the number of pages is a quotient of the rounded number of items, rounded up or, where
/// the fraction is too small to be seen, down.
pub proof fn pages_hold_the_rounded_items(total: nat, per_page: nat)
    requires
        per_page > 0,
        page_count(total, per_page) < 0xffff_ffff,
    ensures
        ({
            let items = nearest_double(total);
            let pages = page_count(total, per_page);
            &&& (pages - 1) * per_page < items || items == 0
            &&& items < (pages + 1) * per_page
            &&& items % per_page == 0 ==> pages * per_page == items
            &&& pages * per_page < items ==> (items - pages * per_page) * 0x20_0000_0000_0000
                <= items
            &&& (items % per_page) * 0x20_0000_0000_0000 > items ==> pages * per_page > items
        }),
{
    let items = nearest_double(total);
    let whole = items / per_page;
    let rest = items % per_page;
    vstd::arithmetic::div_mod::lemma_fundamental_div_mod(items as int, per_page as int);
    assert(whole * per_page == per_page * whole) by (nonlinear_arith);
    assert((whole + 1) * per_page == per_page * whole + per_page) by (nonlinear_arith);
    assert((whole + 2) * per_page == per_page * whole + 2 * per_page) by (nonlinear_arith);
    assert((whole - 1) * per_page == per_page * whole - per_page) by (nonlinear_arith);
    lemma_top_bit(whole);
    assert(per_page * top_bit(whole) <= per_page * whole) by (nonlinear_arith)
        requires
            top_bit(whole) <= whole,
    ;
}

proof fn lemma_top_bit_between(n: nat, k: nat)
    requires
        vstd::arithmetic::power2::pow2(k) <= n < vstd::arithmetic::power2::pow2(k + 1),
    ensures
        top_bit(n) == vstd::arithmetic::power2::pow2(k),
    decreases k,
{
    vstd::arithmetic::power2::lemma_pow2_unfold(k + 1);
    if k == 0 {
        vstd::arithmetic::power2::lemma2_to64();
    } else {
        vstd::arithmetic::power2::lemma_pow2_unfold(k);
        vstd::arithmetic::power2::lemma_pow2_pos((k - 1) as nat);
        lemma_top_bit_between(n / 2, (k - 1) as nat);
    }
}

/// A last page that is not full is counted, unless the fraction that it makes of a page is at most half
/// of the last of the 53 bits that the quotient is kept in.
pub proof fn a_page_that_is_not_full_counts(total: nat, per_page: nat, k: nat)
    requires
        per_page > 0,
        page_count(total, per_page) < 0xffff_ffff,
    ensures
        ({
            let items = nearest_double(total);
            let whole = items / per_page;
            let rest = items % per_page;
            let pages = page_count(total, per_page);
            &&& rest == 0 ==> pages == whole
            &&& rest > 0 && whole == 0 ==> pages == 1
            &&& vstd::arithmetic::power2::pow2(k) <= whole < vstd::arithmetic::power2::pow2(k + 1)
                && rest > 0 ==> pages == if rest * 0x20_0000_0000_0000 <= per_page
                * vstd::arithmetic::power2::pow2(k) {
                whole
            } else {
                whole + 1
            }
        }),
{
    let items = nearest_double(total);
    let whole = items / per_page;
    let rest = items % per_page;
    if vstd::arithmetic::power2::pow2(k) <= whole < vstd::arithmetic::power2::pow2(k + 1) {
        lemma_top_bit_between(whole, k);
    }
    if whole == 0 {
        assert(per_page * top_bit(whole) == 0) by (nonlinear_arith)
            requires
                top_bit(whole) == 0,
        ;
    }
}

} // verus!
