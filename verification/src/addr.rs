//! Address arithmetic shared by the whole kernel: 4 KiB pages and
//! power-of-two alignment.

use vstd::prelude::*;

verus! {

/// Size of a physical frame and of a virtual page, in bytes.
pub const PAGE_SIZE: u64 = 4096;

/// True when `a` is a power of two (1, 2, 4, ...).
pub open spec fn is_power_of_two(a: int) -> bool
    decreases a,
{
    if a <= 0 {
        false
    } else if a == 1 {
        true
    } else {
        a % 2 == 0 && is_power_of_two(a / 2)
    }
}

/// Start of the page containing `addr`.
pub open spec fn spec_page_base(addr: u64) -> u64 {
    (addr - (addr % (PAGE_SIZE as u64))) as u64
}

/// `x` rounded up to the next multiple of `a`.
pub open spec fn spec_align_up(x: int, a: int) -> int
    recommends
        a > 0,
{
    if x % a == 0 {
        x
    } else {
        x + a - x % a
    }
}

/// Start of the page containing `addr` (the page-table walk drops the low
/// twelve bits).
pub fn page_base(addr: u64) -> (r: u64)
    ensures
        r == spec_page_base(addr),
        r % PAGE_SIZE == 0,
        r <= addr < r + PAGE_SIZE,
{
    addr - addr % PAGE_SIZE
}

/// Rounds `x` up to alignment `a`; `None` when the rounded value does not
/// fit in a machine word.
pub fn align_up(x: u64, a: u64) -> (r: Option<u64>)
    requires
        is_power_of_two(a as int),
    ensures
        spec_align_up(x as int, a as int) <= u64::MAX ==> r == Some(
            spec_align_up(x as int, a as int) as u64,
        ),
        spec_align_up(x as int, a as int) > u64::MAX ==> r is None,
{
    proof {
        lemma_power_of_two_pos(a as int);
    }
    let rem = x % a;
    if rem == 0 {
        Some(x)
    } else {
        x.checked_add(a - rem)
    }
}

/// An address is its page base plus its offset within the page.
pub proof fn lemma_page_base_decompose(a: u64)
    ensures
        spec_page_base(a) + a % PAGE_SIZE == a,
        spec_page_base(a) % PAGE_SIZE == 0,
{
    assert(a % (PAGE_SIZE as u64) <= a) by {
        vstd::arithmetic::div_mod::lemma_mod_decreases(a as nat, PAGE_SIZE as nat);
    };
    assert(spec_page_base(a) == a - a % (PAGE_SIZE as u64));
    assert((a - a % (PAGE_SIZE as u64)) % (PAGE_SIZE as int) == 0) by {
        lemma_mod_cancel_sub(a as int, PAGE_SIZE as int);
    };
}

/// `(x - x % a) % a == 0` for positive `a`.
proof fn lemma_mod_cancel_sub(x: int, a: int)
    requires
        a > 0,
        x >= 0,
    ensures
        (x - x % a) % a == 0,
{
    let q = x / a;
    assert(x == q * a + x % a) by {
        vstd::arithmetic::div_mod::lemma_fundamental_div_mod(x, a);
    };
    assert(x - x % a == q * a);
    assert((q * a) % a == 0) by {
        vstd::arithmetic::div_mod::lemma_mod_multiples_basic(q, a);
    };
}

/// Page bases follow address order.
pub proof fn lemma_page_base_monotonic(a: u64, b: u64)
    requires
        a <= b,
    ensures
        spec_page_base(a) <= spec_page_base(b),
{
    let p = PAGE_SIZE as int;
    vstd::arithmetic::div_mod::lemma_fundamental_div_mod(a as int, p);
    vstd::arithmetic::div_mod::lemma_fundamental_div_mod(b as int, p);
    assert(spec_page_base(a) == p * (a as int / p));
    assert(spec_page_base(b) == p * (b as int / p));
    vstd::arithmetic::div_mod::lemma_div_is_ordered(a as int, b as int, p);
    vstd::arithmetic::mul::lemma_mul_inequality(a as int / p, b as int / p, p);
}

/// A page-aligned address is its own page base.
pub proof fn lemma_page_base_of_aligned(q: u64)
    requires
        q % PAGE_SIZE == 0,
    ensures
        spec_page_base(q) == q,
{
}

/// A power of two is positive.
pub proof fn lemma_power_of_two_pos(a: int)
    requires
        is_power_of_two(a),
    ensures
        a >= 1,
    decreases a,
{
    if a > 1 {
        lemma_power_of_two_pos(a / 2);
    }
}

/// Rounding up to an alignment yields a multiple of it, at most `a - 1`
/// beyond `x`.
pub proof fn lemma_align_up_props(x: int, a: int)
    requires
        a > 0,
        x >= 0,
    ensures
        spec_align_up(x, a) % a == 0,
        x <= spec_align_up(x, a) < x + a,
{
    let r = x % a;
    if r != 0 {
        assert((x + a - r) % a == 0) by {
            lemma_mod_cancel(x, a);
        };
    }
}

/// `(x + a - x % a) % a == 0` for positive `a`.
proof fn lemma_mod_cancel(x: int, a: int)
    requires
        a > 0,
        x % a != 0,
    ensures
        (x + a - x % a) % a == 0,
{
    let q = x / a;
    assert(x == q * a + x % a) by {
        vstd::arithmetic::div_mod::lemma_fundamental_div_mod(x, a);
    };
    assert(x + a - x % a == (q + 1) * a) by {
        assert((q + 1) * a == q * a + a) by (nonlinear_arith);
    };
    assert(((q + 1) * a) % a == 0) by {
        vstd::arithmetic::div_mod::lemma_mod_multiples_basic(q + 1, a);
    };
}

/// An aligned value rounds up to itself.
pub proof fn lemma_align_up_aligned(x: int, a: int)
    requires
        a > 0,
        x % a == 0,
    ensures
        spec_align_up(x, a) == x,
{
}

} // verus!
