use std::collections::HashSet;
use vstd::prelude::*;

verus! {

broadcast use vstd::std_specs::hash::group_hash_axioms;

/// Lowest port of the registered range (Tier A).
pub const TIER_A_START: u16 = 1024;

/// Highest port of the registered range (Tier A).
pub const TIER_A_END: u16 = 49151;

/// Lowest port of the dynamic/private range (Tier B).
pub const TIER_B_START: u16 = 49152;

/// Highest port of the dynamic/private range (Tier B).
pub const TIER_B_END: u16 = 65535;

/// Which of the two port ranges is searched first.
#[derive(Clone, Copy, Debug, PartialEq, Eq)]
pub enum TierOrder {
    /// Registered ports (1024..=49151) first, then dynamic ports.
    RegisteredFirst,
    /// Dynamic ports (49152..=65535) first, then registered ports.
    DynamicFirst,
}

/// Whether `p` lies in one of the two searchable ranges.
pub open spec fn in_tiers(p: int) -> bool {
    TIER_A_START <= p <= TIER_B_END
}

/// Inclusive bounds of the tier searched at position `k` (0 or 1) under `order`.
pub open spec fn tier(order: TierOrder, k: int) -> (int, int) {
    let registered = (TIER_A_START as int, TIER_A_END as int);
    let dynamic = (TIER_B_START as int, TIER_B_END as int);
    match order {
        TierOrder::RegisteredFirst => if k == 0 { registered } else { dynamic },
        TierOrder::DynamicFirst => if k == 0 { dynamic } else { registered },
    }
}

/// The ports of `[lo, hi]` that `ex` does not hold, ascending.
pub open spec fn free_run(ex: Set<u16>, lo: int, hi: int) -> Seq<u16>
    decreases hi - lo + 1,
{
    if hi < lo {
        seq![]
    } else {
        let rest = free_run(ex, lo, hi - 1);
        if ex.contains(hi as u16) {
            rest
        } else {
            rest.push(hi as u16)
        }
    }
}

/// Every free port of both tiers, in discovery order.
pub open spec fn free_ports(ex: Set<u16>, order: TierOrder) -> Seq<u16> {
    free_run(ex, tier(order, 0).0, tier(order, 0).1) + free_run(
        ex,
        tier(order, 1).0,
        tier(order, 1).1,
    )
}

/// The first `k` elements of `s`, or all of `s` when it is shorter.
pub open spec fn take_upto(s: Seq<u16>, k: int) -> Seq<u16> {
    if s.len() <= k {
        s
    } else {
        s.take(k)
    }
}

/// The `n` consecutive ports starting at `p`.
pub open spec fn block(p: int, n: int) -> Seq<u16> {
    Seq::new(n as nat, |i: int| (p + i) as u16)
}

/// The block of `n` ports starting at `p` lies in `[lo, hi]` and misses `ex`.
pub open spec fn is_window(ex: Set<u16>, lo: int, hi: int, n: int, p: int) -> bool {
    &&& lo <= p
    &&& p + n - 1 <= hi
    &&& forall|q: int| p <= q < p + n ==> !ex.contains(#[trigger] (q as u16))
}

/// Some block of `n` ports in `[lo, hi]` misses `ex`.
pub open spec fn has_window(ex: Set<u16>, lo: int, hi: int, n: int) -> bool {
    exists|p: int| is_window(ex, lo, hi, n, p)
}

/// `p` is the lowest start of a free block of `n` ports in `[lo, hi]`.
pub open spec fn is_first_window(ex: Set<u16>, lo: int, hi: int, n: int, p: int) -> bool {
    &&& is_window(ex, lo, hi, n, p)
    &&& forall|q: int| is_window(ex, lo, hi, n, q) ==> p <= q
}

/// The lowest start of a free block of `n` ports in `[lo, hi]`, where there is one.
pub open spec fn first_window(ex: Set<u16>, lo: int, hi: int, n: int) -> int {
    choose|p: int| is_first_window(ex, lo, hi, n, p)
}

/// The lowest free block of `n` ports in the first tier that has one.
pub open spec fn contiguous_result(ex: Set<u16>, n: int, order: TierOrder) -> Seq<u16> {
    let (lo0, hi0) = tier(order, 0);
    let (lo1, hi1) = tier(order, 1);
    if has_window(ex, lo0, hi0, n) {
        block(first_window(ex, lo0, hi0, n), n)
    } else if has_window(ex, lo1, hi1, n) {
        block(first_window(ex, lo1, hi1, n), n)
    } else {
        seq![]
    }
}

/// The ports that a search for `n` ports returns.
pub open spec fn search_result(ex: Set<u16>, n: int, contiguous: bool, order: TierOrder) -> Seq<
    u16,
> {
    if n == 0 {
        seq![]
    } else if contiguous {
        contiguous_result(ex, n, order)
    } else {
        take_upto(free_ports(ex, order), n)
    }
}

proof fn lemma_free_run_split(ex: Set<u16>, lo: int, mid: int, hi: int)
    requires
        lo - 1 <= mid <= hi,
    ensures
        free_run(ex, lo, hi) == free_run(ex, lo, mid) + free_run(ex, mid + 1, hi),
    decreases hi - mid,
{
    if mid == hi {
        assert(free_run(ex, mid + 1, hi) =~= seq![]);
        assert(free_run(ex, lo, mid) + free_run(ex, mid + 1, hi) =~= free_run(ex, lo, mid));
    } else {
        lemma_free_run_split(ex, lo, mid, hi - 1);
        if ex.contains(hi as u16) {
        } else {
            assert(free_run(ex, lo, hi) =~= free_run(ex, lo, mid) + free_run(ex, mid + 1, hi));
        }
    }
}

proof fn lemma_free_run_members(ex: Set<u16>, lo: int, hi: int)
    requires
        0 <= lo,
        hi <= u16::MAX,
    ensures
        forall|i: int|
            0 <= i < free_run(ex, lo, hi).len() ==> {
                &&& lo <= free_run(ex, lo, hi)[i] <= hi
                &&& !ex.contains(#[trigger] free_run(ex, lo, hi)[i])
            },
    decreases hi - lo + 1,
{
    if hi >= lo {
        lemma_free_run_members(ex, lo, hi - 1);
        let rest = free_run(ex, lo, hi - 1);
        assert forall|i: int| 0 <= i < free_run(ex, lo, hi).len() implies {
            &&& lo <= free_run(ex, lo, hi)[i] <= hi
            &&& !ex.contains(#[trigger] free_run(ex, lo, hi)[i])
        } by {
            if i < rest.len() {
                assert(free_run(ex, lo, hi)[i] == rest[i]);
            }
        }
    }
}

proof fn lemma_take_upto_append(a: Seq<u16>, b: Seq<u16>, k: int)
    requires
        0 <= k,
    ensures
        take_upto(take_upto(a, k) + b, k) == take_upto(a + b, k),
{
    if a.len() <= k {
    } else {
        assert(take_upto(a.take(k) + b, k) =~= (a + b).take(k));
    }
}

/// Appends to `found` the free ports of `[lo, hi]`, ascending, until it holds `want`.
fn collect_free(ex: &HashSet<u16>, lo: u16, hi: u16, want: usize, found: &mut Vec<u16>)
    requires
        lo <= hi,
        old(found).len() <= want,
    ensures
        final(found)@ == take_upto(old(found)@ + free_run(ex@, lo as int, hi as int), want as int),
{
    let ghost start = found@;
    if found.len() == want {
        proof {
            assert(take_upto(start + free_run(ex@, lo as int, hi as int), want as int) =~= start);
        }
        return;
    }
    let mut p: u32 = lo as u32;
    while p <= hi as u32
        invariant
            lo <= p <= hi as u32 + 1,
            start == old(found)@,
            found@ == start + free_run(ex@, lo as int, p - 1),
            found.len() < want,
        decreases hi as u32 + 1 - p,
    {
        if !ex.contains(&(p as u16)) {
            found.push(p as u16);
        }
        assert(found@ == start + free_run(ex@, lo as int, p as int)) by {
            assert(free_run(ex@, lo as int, p as int) == if ex@.contains(p as u16) {
                free_run(ex@, lo as int, p - 1)
            } else {
                free_run(ex@, lo as int, p - 1).push(p as u16)
            });
        }
        if found.len() == want {
            proof {
                lemma_free_run_split(ex@, lo as int, p as int, hi as int);
                let all = start + free_run(ex@, lo as int, hi as int);
                assert(all =~= found@ + free_run(ex@, p + 1, hi as int));
                if all.len() <= want {
                    assert(all =~= found@);
                } else {
                    assert(all.take(want as int) =~= found@);
                }

            }
            return;
        }
        p = p + 1;
    }
}

/// The lowest start of a block of `n` ports in `[lo, hi]` that misses `ex`, if any.
fn first_window_in(ex: &HashSet<u16>, lo: u16, hi: u16, n: u16) -> (r: Option<u16>)
    requires
        lo <= hi,
        n >= 1,
    ensures
        match r {
            Some(p) => is_first_window(ex@, lo as int, hi as int, n as int, p as int),
            None => !has_window(ex@, lo as int, hi as int, n as int),
        },
{
    let mut run: u32 = 0;
    let mut q: u32 = lo as u32;
    while q <= hi as u32
        invariant
            lo <= q <= hi as u32 + 1,
            run <= q - lo,
            run < n,
            forall|k: int| q - run <= k < q ==> !ex@.contains(#[trigger] (k as u16)),
            run == q - lo || ex@.contains((q - run - 1) as u16),
            forall|p: int| is_window(ex@, lo as int, hi as int, n as int, p) ==> p + n - 1 >= q,
        decreases hi as u32 + 1 - q,
    {
        if ex.contains(&(q as u16)) {
            run = 0;
            assert forall|p: int| is_window(ex@, lo as int, hi as int, n as int, p) implies p + n
                - 1 >= q + 1 by {
                if p + n - 1 == q {
                    assert(!ex@.contains(q as u16));
                }
            }
        } else {
            run = run + 1;
            if run == n as u32 {
                let p = q + 1 - n as u32;
                proof {
                    assert(is_window(ex@, lo as int, hi as int, n as int, p as int));
                }
                return Some(p as u16);
            }
            assert forall|p: int| is_window(ex@, lo as int, hi as int, n as int, p) implies p + n
                - 1 >= q + 1 by {
                if p + n - 1 == q {
                    if run != q + 1 - lo {
                        let blocker = q + 1 - run - 1;
                        assert(p <= blocker < p + n);
                    }
                }
            }
        }
        q = q + 1;
    }
    None
}

/// The ports `p, p + 1, ..., p + n - 1`.
fn block_vec(p: u16, n: u16) -> (r: Vec<u16>)
    requires
        p + n - 1 <= u16::MAX,
    ensures
        r@ == block(p as int, n as int),
{
    let mut v: Vec<u16> = Vec::new();
    let mut i: u16 = 0;
    while i < n
        invariant
            i <= n,
            p + n - 1 <= u16::MAX,
            v@ == block(p as int, i as int),
        decreases n - i,
    {
        v.push(p + i);
        i = i + 1;
        assert(v@ =~= block(p as int, i as int));
    }
    v
}

/// Bounds of the first tier, or of the second when `second` holds, under `order`.
fn tier_bounds(order: TierOrder, second: bool) -> (r: (u16, u16))
    ensures
        r.0 as int == tier(order, if second { 1 } else { 0 }).0,
        r.1 as int == tier(order, if second { 1 } else { 0 }).1,
        r.0 <= r.1,
{
    let registered_first = match order {
        TierOrder::RegisteredFirst => true,
        TierOrder::DynamicFirst => false,
    };
    if registered_first != second {
        (TIER_A_START, TIER_A_END)
    } else {
        (TIER_B_START, TIER_B_END)
    }
}

proof fn lemma_first_window_unique(ex: Set<u16>, lo: int, hi: int, n: int, p: int)
    requires
        is_first_window(ex, lo, hi, n, p),
    ensures
        first_window(ex, lo, hi, n) == p,
        has_window(ex, lo, hi, n),
{
    let c = first_window(ex, lo, hi, n);
    assert(is_first_window(ex, lo, hi, n, c));
}

proof fn lemma_block_props(ex: Set<u16>, lo: int, hi: int, n: int, p: int)
    requires
        n >= 1,
        is_window(ex, lo, hi, n, p),
        TIER_A_START <= lo,
        hi <= TIER_B_END,
    ensures
        forall|i: int|
            0 <= i < block(p, n).len() ==> {
                &&& in_tiers(#[trigger] block(p, n)[i] as int)
                &&& !ex.contains(block(p, n)[i])
            },
{
    assert forall|i: int| 0 <= i < block(p, n).len() implies {
        &&& in_tiers(#[trigger] block(p, n)[i] as int)
        &&& !ex.contains(block(p, n)[i])
    } by {
        assert(block(p, n).len() == n);
        assert(block(p, n)[i] == (p + i) as u16);
        assert(p <= p + i < p + n);
        assert(!ex.contains(((p + i) as u16)));
    }
}

/// Searches both tiers, in `order`, for `num_ports` ports that `forbidden` does not hold.
///
/// Without `continuous` the free ports are taken in discovery order until
/// `num_ports` are found or both tiers are exhausted. With `continuous` the
/// result is the lowest block of `num_ports` consecutive free ports of the first
/// tier that has one, or empty when neither tier has one.
pub fn find_available_ports_in_order(
    forbidden: &HashSet<u16>,
    num_ports: u16,
    continuous: bool,
    order: TierOrder,
) -> (r: Vec<u16>)
    ensures
        r@ == search_result(forbidden@, num_ports as int, continuous, order),
        num_ports == 0 ==> r@.len() == 0,
        r@.len() <= num_ports,
        forall|i: int|
            0 <= i < r@.len() ==> in_tiers(#[trigger] r@[i] as int) && !forbidden@.contains(
                r@[i],
            ),
        continuous && r@.len() > 0 ==> {
            &&& r@.len() == num_ports
            &&& forall|i: int| 0 <= i < r@.len() - 1 ==> #[trigger] r@[i + 1] == r@[i] + 1
        },
{
    if num_ports == 0 {
        return Vec::new();
    }
    let (lo0, hi0) = tier_bounds(order, false);
    let (lo1, hi1) = tier_bounds(order, true);
    let ghost ex = forbidden@;
    if continuous {
        match first_window_in(forbidden, lo0, hi0, num_ports) {
            Some(p) => {
                proof {
                    lemma_first_window_unique(ex, lo0 as int, hi0 as int, num_ports as int, p as int);
                    lemma_block_props(ex, lo0 as int, hi0 as int, num_ports as int, p as int);
                }
                block_vec(p, num_ports)
            },
            None => match first_window_in(forbidden, lo1, hi1, num_ports) {
                Some(p) => {
                    proof {
                        lemma_first_window_unique(ex, lo1 as int, hi1 as int, num_ports as int, p as int);
                        lemma_block_props(ex, lo1 as int, hi1 as int, num_ports as int, p as int);
                    }
                    block_vec(p, num_ports)
                },
                None => Vec::new(),
            },
        }
    } else {
        let mut found: Vec<u16> = Vec::new();
        collect_free(forbidden, lo0, hi0, num_ports as usize, &mut found);
        collect_free(forbidden, lo1, hi1, num_ports as usize, &mut found);
        proof {
            let a = free_run(ex, lo0 as int, hi0 as int);
            let b = free_run(ex, lo1 as int, hi1 as int);
            assert(seq![] + a =~= a);
            lemma_take_upto_append(a, b, num_ports as int);
            assert(free_ports(ex, order) == a + b);
            lemma_free_run_members(ex, lo0 as int, hi0 as int);
            lemma_free_run_members(ex, lo1 as int, hi1 as int);
            assert forall|i: int| 0 <= i < found@.len() implies in_tiers(
                #[trigger] found@[i] as int,
            ) && !ex.contains(found@[i]) by {
                assert(found@[i] == (a + b)[i]);
                if i < a.len() {
                    assert((a + b)[i] == a[i]);
                } else {
                    assert((a + b)[i] == b[i - a.len()]);
                }
            }
        }
        found
    }
}

/// Searches for `num_ports` free ports, registered range first.
pub fn find_available_ports(forbidden: &HashSet<u16>, num_ports: u16, continuous: bool) -> (r: Vec<
    u16,
>)
    ensures
        r@ == search_result(forbidden@, num_ports as int, continuous, TierOrder::RegisteredFirst),
        num_ports == 0 ==> r@.len() == 0,
        r@.len() <= num_ports,
        forall|i: int|
            0 <= i < r@.len() ==> in_tiers(#[trigger] r@[i] as int) && !forbidden@.contains(
                r@[i],
            ),
        continuous && r@.len() > 0 ==> {
            &&& r@.len() == num_ports
            &&& forall|i: int| 0 <= i < r@.len() - 1 ==> #[trigger] r@[i + 1] == r@[i] + 1
        },
{
    find_available_ports_in_order(forbidden, num_ports, continuous, TierOrder::RegisteredFirst)
}

} // verus!
