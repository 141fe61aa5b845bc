//! Splitting a length between children that each insist on a floor.

use vstd::prelude::*;

verus! {

/// `num / den` to the nearest whole number, halves going away from zero.
pub open spec fn round_div(num: int, den: int) -> int {
    if num >= 0 {
        (2 * num + den) / (2 * den)
    } else {
        -((2 * -num + den) / (2 * den))
    }
}

/// `value`, held to the range of an `i32`.
pub open spec fn saturate(value: int) -> int {
    if value > i32::MAX {
        i32::MAX as int
    } else if value < i32::MIN {
        i32::MIN as int
    } else {
        value
    }
}

/// The whole-pixel share that a child of `size` has of `free_total`, where the
/// children dividing it have `free_size` between them.
pub open spec fn share(free_total: int, size: int, free_size: int) -> int {
    saturate(round_div(free_total * size, free_size))
}

/// What the floors of the pinned children add up to.
pub open spec fn pinned_total(mins: Seq<i32>, pinned: Seq<bool>) -> int
    decreases pinned.len(),
{
    if pinned.len() == 0 {
        0
    } else {
        let last: int = pinned.len() - 1;
        pinned_total(mins, pinned.drop_last()) + if pinned[last] {
            mins[last] as int
        } else {
            0
        }
    }
}

/// What the sizes of the children that are not pinned add up to.
pub open spec fn free_size(sizes: Seq<u32>, pinned: Seq<bool>) -> int
    decreases pinned.len(),
{
    if pinned.len() == 0 {
        0
    } else {
        let last: int = pinned.len() - 1;
        free_size(sizes, pinned.drop_last()) + if pinned[last] {
            0
        } else {
            sizes[last] as int
        }
    }
}

/// The number of children that are not pinned.
pub open spec fn free_count(pinned: Seq<bool>) -> nat
    decreases pinned.len(),
{
    if pinned.len() == 0 {
        0
    } else {
        free_count(pinned.drop_last()) + if pinned.last() {
            0nat
        } else {
            1nat
        }
    }
}

/// The share of child `i` once the pinned children have taken their floors.
pub open spec fn child_share(
    sizes: Seq<u32>,
    mins: Seq<i32>,
    total: int,
    pinned: Seq<bool>,
    i: int,
) -> int {
    share(total - pinned_total(mins, pinned), sizes[i] as int, free_size(sizes, pinned))
}

/// The pinned children after one more pass: those already pinned, and those
/// whose share is below their floor.
pub open spec fn pin_pass(
    sizes: Seq<u32>,
    mins: Seq<i32>,
    total: int,
    pinned: Seq<bool>,
) -> Seq<bool> {
    Seq::new(
        pinned.len(),
        |i: int| pinned[i] || child_share(sizes, mins, total, pinned, i) < mins[i],
    )
}

/// Whether a further pass would pin nobody: either there is no share left to
/// divide, or every child that is still free clears its floor.
pub open spec fn settled(
    sizes: Seq<u32>,
    mins: Seq<i32>,
    total: int,
    pinned: Seq<bool>,
) -> bool {
    free_size(sizes, pinned) <= 0 || pin_pass(sizes, mins, total, pinned) == pinned
}

/// The children that end up pinned when passes are repeated from `pinned`
/// until nothing changes.
pub open spec fn settle(
    sizes: Seq<u32>,
    mins: Seq<i32>,
    total: int,
    pinned: Seq<bool>,
) -> Seq<bool>
    decreases free_count(pinned),
{
    if settled(sizes, mins, total, pinned) {
        pinned
    } else {
        let next = pin_pass(sizes, mins, total, pinned);
        proof {
            lemma_pass_pins(sizes, mins, total, pinned);
        }
        settle(sizes, mins, total, next)
    }
}

/// How many passes pin somebody before nothing changes any more.
pub open spec fn passes(sizes: Seq<u32>, mins: Seq<i32>, total: int, pinned: Seq<bool>) -> nat
    decreases free_count(pinned),
{
    if settled(sizes, mins, total, pinned) {
        0
    } else {
        let next = pin_pass(sizes, mins, total, pinned);
        proof {
            lemma_pass_pins(sizes, mins, total, pinned);
        }
        1 + passes(sizes, mins, total, next)
    }
}

/// Nobody pinned, among `n` children.
pub open spec fn none_pinned(n: nat) -> Seq<bool> {
    Seq::new(n, |i: int| false)
}

/// The children that are held at their floor.
pub open spec fn finally_pinned(sizes: Seq<u32>, mins: Seq<i32>, total: int) -> Seq<bool> {
    settle(sizes, mins, total, none_pinned(sizes.len()))
}

/// What the first `upto` floors add up to.
pub open spec fn floor_total(mins: Seq<i32>, upto: nat) -> int
    decreases upto,
{
    if upto == 0 {
        0
    } else {
        floor_total(mins, (upto - 1) as nat) + mins[upto - 1]
    }
}

/// Whether the floors alone exceed the total.
pub open spec fn is_overfull(sizes: Seq<u32>, mins: Seq<i32>, total: int) -> bool {
    floor_total(mins, sizes.len()) > total
}

/// The length of child `i`: its floor if the floors cannot all fit, or it is
/// pinned, or nothing is left to divide; otherwise its share of what the pinned
/// children leave.
pub open spec fn resolved_length(sizes: Seq<u32>, mins: Seq<i32>, total: int, i: int) -> int {
    let pinned = finally_pinned(sizes, mins, total);
    if is_overfull(sizes, mins, total) || pinned[i] || free_size(sizes, pinned) <= 0 {
        mins[i] as int
    } else {
        child_share(sizes, mins, total, pinned, i)
    }
}

/// A sequence that differs only by pinning more has fewer free children.
pub proof fn lemma_more_pinned(before: Seq<bool>, after: Seq<bool>)
    requires
        before.len() == after.len(),
        forall|i: int| 0 <= i < before.len() && before[i] ==> after[i],
    ensures
        free_count(after) <= free_count(before),
        before != after ==> free_count(after) < free_count(before),
    decreases before.len(),
{
    if before.len() > 0 {
        let last: int = before.len() - 1;
        lemma_more_pinned(before.drop_last(), after.drop_last());
        if before.drop_last() == after.drop_last() && before[last] == after[last] {
            assert(before =~= before.drop_last().push(before[last]));
            assert(after =~= after.drop_last().push(after[last]));
        }
    } else {
        assert(before =~= after);
    }
}

/// A pass that changes anything pins at least one child more.
pub proof fn lemma_pass_pins(sizes: Seq<u32>, mins: Seq<i32>, total: int, pinned: Seq<bool>)
    ensures
        free_count(pin_pass(sizes, mins, total, pinned)) <= free_count(pinned),
        pin_pass(sizes, mins, total, pinned) != pinned ==> free_count(
            pin_pass(sizes, mins, total, pinned),
        ) < free_count(pinned),
{
    lemma_more_pinned(pinned, pin_pass(sizes, mins, total, pinned));
}

/// What the first `upto` resolved lengths add up to.
pub open spec fn length_total(sizes: Seq<u32>, mins: Seq<i32>, total: int, upto: nat) -> int
    decreases upto,
{
    if upto == 0 {
        0
    } else {
        length_total(sizes, mins, total, (upto - 1) as nat) + resolved_length(
            sizes,
            mins,
            total,
            upto - 1,
        )
    }
}

/// What is left to divide once the pinned children have their floors.
pub open spec fn finally_free(sizes: Seq<u32>, mins: Seq<i32>, total: int) -> int {
    total - pinned_total(mins, finally_pinned(sizes, mins, total))
}

/// A child that is free is part of the free size.
proof fn lemma_size_within(sizes: Seq<u32>, pinned: Seq<bool>, i: int)
    requires
        pinned.len() <= sizes.len(),
        0 <= i < pinned.len(),
        !pinned[i],
    ensures
        sizes[i] <= free_size(sizes, pinned),
    decreases pinned.len(),
{
    let shorter = pinned.drop_last();
    lemma_free_size_positive(sizes, shorter);
    if i < pinned.len() - 1 {
        lemma_size_within(sizes, shorter, i);
    }
}

proof fn lemma_free_size_positive(sizes: Seq<u32>, pinned: Seq<bool>)
    ensures
        0 <= free_size(sizes, pinned),
    decreases pinned.len(),
{
    if pinned.len() > 0 {
        lemma_free_size_positive(sizes, pinned.drop_last());
    }
}

/// The share of one child, computed without overflow.
fn share_of(free_total: i128, size: u32, free_size: i128) -> (length: i32)
    requires
        0 < free_size <= 0x7fff_ffff_ffff_ffff_ffff,
        -0x7fff_ffff_ffff_ffff_ffff <= free_total <= 0x7fff_ffff_ffff_ffff_ffff,
    ensures
        length == share(free_total as int, size as int, free_size as int),
{
    let negative: bool = free_total < 0;
    let magnitude: u128 = if negative {
        (-free_total) as u128
    } else {
        free_total as u128
    };
    let divisor: u128 = free_size as u128;
    assert(0 <= magnitude * size <= 0x7fff_ffff_ffff_ffff_ffff * 0xffff_ffff) by (nonlinear_arith)
        requires
            0 <= magnitude <= 0x7fff_ffff_ffff_ffff_ffff,
            0 <= size <= 0xffff_ffff,
    ;
    let product: u128 = magnitude * (size as u128);
    let rounded: u128 = (2 * product + divisor) / (2 * divisor);
    proof {
        let num = free_total * size;
        if negative {
            assert(num == -(magnitude * size)) by (nonlinear_arith)
                requires
                    num == free_total * size,
                    magnitude == -free_total,
            ;
            if num >= 0 {
                assert(product == 0);
                assert((2 * 0 + divisor) / (2 * divisor as int) == 0) by (nonlinear_arith)
                    requires
                        divisor > 0,
                ;
            }
        }
        assert(2 * product + divisor >= rounded) by {
            vstd::arithmetic::div_mod::lemma_div_is_ordered_by_denominator(
                2 * product + divisor,
                1,
                2 * divisor,
            );
        }
    }
    if negative {
        if rounded > 0x8000_0000 {
            i32::MIN
        } else {
            (-(rounded as i128)) as i32
        }
    } else if rounded > 0x7fff_ffff {
        i32::MAX
    } else {
        rounded as i32
    }
}

/// What is left of `total` once the pinned children have their floors.
fn free_total_of(mins: &[i32], pinned: &Vec<bool>, total: i32) -> (left: i128)
    requires
        pinned@.len() <= mins@.len(),
        pinned@.len() <= i32::MAX,
    ensures
        left == total - pinned_total(mins@, pinned@),
        -0x7fff_ffff_ffff_ffff_ffff <= left <= 0x7fff_ffff_ffff_ffff_ffff,
{
    let mut left: i128 = total as i128;
    let n: usize = pinned.len();
    for i in 0..n
        invariant
            n == pinned@.len() <= mins@.len(),
            n <= i32::MAX,
            left == total - pinned_total(mins@, pinned@.take(i as int)),
            -(i + 1) * 0x8000_0000 <= left <= (i + 1) * 0x8000_0000,
    {
        assert(pinned@.take(i + 1).drop_last() =~= pinned@.take(i as int));
        if pinned[i] {
            left = left - mins[i] as i128;
        }
    }
    assert(pinned@.take(n as int) =~= pinned@);
    left
}

/// What the free children's sizes add up to.
fn free_size_of(sizes: &[u32], pinned: &Vec<bool>) -> (free: i128)
    requires
        pinned@.len() <= sizes@.len(),
        pinned@.len() <= i32::MAX,
    ensures
        free == free_size(sizes@, pinned@),
        0 <= free <= 0x7fff_ffff_ffff_ffff_ffff,
{
    let mut free: i128 = 0;
    let n: usize = pinned.len();
    for i in 0..n
        invariant
            n == pinned@.len() <= sizes@.len(),
            n <= i32::MAX,
            free == free_size(sizes@, pinned@.take(i as int)),
            0 <= free <= i * 0xffff_ffff,
    {
        assert(pinned@.take(i + 1).drop_last() =~= pinned@.take(i as int));
        if !pinned[i] {
            free = free + sizes[i] as i128;
        }
    }
    assert(pinned@.take(n as int) =~= pinned@);
    free
}

/// What the floors of the first `n` children add up to.
fn floor_total_of(mins: &[i32], n: usize) -> (floors: i128)
    requires
        n <= mins@.len(),
        n <= i32::MAX,
    ensures
        floors == floor_total(mins@, n as nat),
{
    let mut floors: i128 = 0;
    for i in 0..n
        invariant
            n <= mins@.len(),
            n <= i32::MAX,
            floors == floor_total(mins@, i as nat),
            -i * 0x8000_0000 <= floors <= i * 0x8000_0000,
    {
        floors = floors + mins[i] as i128;
    }
    floors
}

/// Splits `total` between children that each insist on a floor.
///
/// A tiling size is a fraction of the parent, so a busy row can hand a window
/// a slot narrower than the app will ever accept. Left alone the window keeps
/// its own size and overhangs its neighbour; the space it took has to come off
/// the siblings instead.
///
/// Water-filling: pin whoever falls below their floor, re-share what is left
/// over the rest, and repeat, since pinning one can push the next under.
///
/// Returns a length per child, in the order given. `sizes` are relative to
/// each other, in any one unit. When the floors alone exceed `total` every child
/// gets its floor and the overflow is accepted: no arrangement satisfies
/// everyone, and spreading the shortfall would leave every window wrong instead
/// of one.
pub fn resolve_lengths(sizes: &[u32], mins: &[i32], total: i32) -> (lengths: Vec<i32>)
    requires
        sizes@.len() <= mins@.len(),
        sizes@.len() <= i32::MAX,
    ensures
        lengths@.len() == sizes@.len(),
        forall|i: int|
            0 <= i < sizes@.len() ==> (#[trigger] lengths@[i]) == resolved_length(
                sizes@,
                mins@,
                total as int,
                i,
            ),
{
    let n: usize = sizes.len();
    if floor_total_of(mins, n) > total as i128 {
        let mut floors: Vec<i32> = Vec::new();
        for i in 0..n
            invariant
                n == sizes@.len() <= mins@.len(),
                is_overfull(sizes@, mins@, total as int),
                floors@.len() == i,
                forall|j: int|
                    0 <= j < i ==> (#[trigger] floors@[j]) == resolved_length(
                        sizes@,
                        mins@,
                        total as int,
                        j,
                    ),
        {
            floors.push(mins[i]);
        }
        return floors;
    }
    let mut pinned: Vec<bool> = Vec::new();
    for i in 0..n
        invariant
            pinned@.len() == i,
            forall|j: int| 0 <= j < i ==> !#[trigger] pinned@[j],
    {
        pinned.push(false);
    }
    assert(pinned@ =~= none_pinned(n as nat));

    let mut free_total: i128 = free_total_of(mins, &pinned, total);
    let mut free: i128 = free_size_of(sizes, &pinned);
    let mut changed: bool = true;
    while changed && free > 0
        invariant
            n == sizes@.len() <= mins@.len(),
            n <= i32::MAX,
            pinned@.len() == n,
            free_total == total - pinned_total(mins@, pinned@),
            -0x7fff_ffff_ffff_ffff_ffff <= free_total <= 0x7fff_ffff_ffff_ffff_ffff,
            free == free_size(sizes@, pinned@),
            0 <= free <= 0x7fff_ffff_ffff_ffff_ffff,
            settle(sizes@, mins@, total as int, pinned@) == finally_pinned(
                sizes@,
                mins@,
                total as int,
            ),
            !changed ==> settled(sizes@, mins@, total as int, pinned@),
        decreases free_count(pinned@), changed as int,
    {
        let ghost before = pinned@;
        let ghost after = pin_pass(sizes@, mins@, total as int, before);
        changed = false;
        for i in 0..n
            invariant
                n == sizes@.len() <= mins@.len(),
                pinned@.len() == n,
                before.len() == n,
                after == pin_pass(sizes@, mins@, total as int, before),
                free_total == total - pinned_total(mins@, before),
                -0x7fff_ffff_ffff_ffff_ffff <= free_total <= 0x7fff_ffff_ffff_ffff_ffff,
                free == free_size(sizes@, before),
                0 < free <= 0x7fff_ffff_ffff_ffff_ffff,
                forall|j: int| 0 <= j < i ==> (#[trigger] pinned@[j]) == after[j],
                forall|j: int| i <= j < n ==> (#[trigger] pinned@[j]) == before[j],
                changed <==> exists|j: int| 0 <= j < i && before[j] != #[trigger] after[j],
        {
            if !pinned[i] {
                let length: i32 = share_of(free_total, sizes[i], free);
                if length < mins[i] {
                    pinned.set(i, true);
                    changed = true;
                    assert(before[i as int] != after[i as int]);
                }
            }
        }
        assert(pinned@ =~= after);
        proof {
            if changed {
                assert(before != after);
                lemma_pass_pins(sizes@, mins@, total as int, before);
            } else {
                assert(before =~= after);
            }
        }
        free_total = free_total_of(mins, &pinned, total);
        free = free_size_of(sizes, &pinned);
    }
    assert(settled(sizes@, mins@, total as int, pinned@));

    let mut lengths: Vec<i32> = Vec::new();
    for i in 0..n
        invariant
            n == sizes@.len() <= mins@.len(),
            !is_overfull(sizes@, mins@, total as int),
            pinned@ == finally_pinned(sizes@, mins@, total as int),
            pinned@.len() == n,
            free_total == total - pinned_total(mins@, pinned@),
            -0x7fff_ffff_ffff_ffff_ffff <= free_total <= 0x7fff_ffff_ffff_ffff_ffff,
            free == free_size(sizes@, pinned@),
            0 <= free <= 0x7fff_ffff_ffff_ffff_ffff,
            lengths@.len() == i,
            forall|j: int|
                0 <= j < i ==> (#[trigger] lengths@[j]) == resolved_length(
                    sizes@,
                    mins@,
                    total as int,
                    j,
                ),
    {
        if pinned[i] || free <= 0 {
            lengths.push(mins[i]);
        } else {
            lengths.push(share_of(free_total, sizes[i], free));
        }
    }
    lengths
}

/// Repeated passes end where a further pass changes nothing, and never unpin.
proof fn lemma_settles(sizes: Seq<u32>, mins: Seq<i32>, total: int, pinned: Seq<bool>)
    ensures
        settled(sizes, mins, total, settle(sizes, mins, total, pinned)),
        settle(sizes, mins, total, pinned).len() == pinned.len(),
        passes(sizes, mins, total, pinned) <= free_count(pinned),
    decreases free_count(pinned),
{
    if !settled(sizes, mins, total, pinned) {
        lemma_pass_pins(sizes, mins, total, pinned);
        lemma_settles(sizes, mins, total, pin_pass(sizes, mins, total, pinned));
    }
}

proof fn lemma_free_count_bound(pinned: Seq<bool>)
    ensures
        free_count(pinned) <= pinned.len(),
    decreases pinned.len(),
{
    if pinned.len() > 0 {
        lemma_free_count_bound(pinned.drop_last());
    }
}

/// There are no more free children at the end than there are children.
pub proof fn lemma_free_count_of_final(sizes: Seq<u32>, mins: Seq<i32>, total: int)
    ensures
        free_count(finally_pinned(sizes, mins, total)) <= sizes.len(),
{
    lemma_settles(sizes, mins, total, none_pinned(sizes.len()));
    lemma_free_count_bound(finally_pinned(sizes, mins, total));
}

/// Each pass pins at least one child, so there are at most as many passes as
/// children.
pub proof fn law_at_most_one_pass_per_child(sizes: Seq<u32>, mins: Seq<i32>, total: int)
    ensures
        passes(sizes, mins, total, none_pinned(sizes.len())) <= sizes.len(),
{
    lemma_settles(sizes, mins, total, none_pinned(sizes.len()));
    lemma_free_count_bound(none_pinned(sizes.len()));
}

/// No child is ever given less than its floor.
pub proof fn law_floors_are_kept(sizes: Seq<u32>, mins: Seq<i32>, total: int, i: int)
    requires
        0 <= i < sizes.len() <= mins.len(),
    ensures
        resolved_length(sizes, mins, total, i) >= mins[i],
{
    let pinned = finally_pinned(sizes, mins, total);
    lemma_settles(sizes, mins, total, none_pinned(sizes.len()));
    if !pinned[i] && free_size(sizes, pinned) > 0 {
        assert(pin_pass(sizes, mins, total, pinned)[i] == pinned[i]);
    }
}

/// Where the floors can all fit, children whose plain shares all clear their
/// floors get exactly those shares.
pub proof fn law_clear_shares_are_left_alone(
    sizes: Seq<u32>,
    mins: Seq<i32>,
    total: int,
    i: int,
)
    requires
        0 <= i < sizes.len() <= mins.len(),
        !is_overfull(sizes, mins, total),
        free_size(sizes, none_pinned(sizes.len())) > 0,
        forall|j: int|
            0 <= j < sizes.len() ==> mins[j] <= #[trigger] child_share(
                sizes,
                mins,
                total,
                none_pinned(sizes.len()),
                j,
            ),
    ensures
        resolved_length(sizes, mins, total, i) == share(
            total,
            sizes[i] as int,
            free_size(sizes, none_pinned(sizes.len())),
        ),
{
    let nobody = none_pinned(sizes.len());
    assert(pin_pass(sizes, mins, total, nobody) =~= nobody);
    lemma_nothing_pinned(mins, nobody);
}

proof fn lemma_nothing_pinned(mins: Seq<i32>, pinned: Seq<bool>)
    requires
        forall|i: int| 0 <= i < pinned.len() ==> !#[trigger] pinned[i],
    ensures
        pinned_total(mins, pinned) == 0,
    decreases pinned.len(),
{
    if pinned.len() > 0 {
        lemma_nothing_pinned(mins, pinned.drop_last());
    }
}

/// Rounding moves a quotient by at most a half.
proof fn lemma_round_div_error(num: int, den: int)
    requires
        den > 0,
    ensures
        2 * num - den <= 2 * (den * round_div(num, den)) <= 2 * num + den,
{
    let top: int = if num >= 0 {
        2 * num + den
    } else {
        2 * -num + den
    };
    let r: int = top / (2 * den);
    vstd::arithmetic::div_mod::lemma_fundamental_div_mod(top, 2 * den);
    vstd::arithmetic::div_mod::lemma_mod_bound(top, 2 * den);
    assert((2 * den) * r == 2 * (den * r)) by (nonlinear_arith);
    assert(den * -r == -(den * r)) by (nonlinear_arith);
}

/// A free child's share is not held back by the range of an `i32` where what
/// is divided fits in one.
proof fn lemma_share_is_exact(free_total: int, size: int, free_size: int)
    requires
        0 <= size <= free_size,
        0 < free_size,
        i32::MIN <= free_total <= i32::MAX,
    ensures
        share(free_total, size, free_size) == round_div(free_total * size, free_size),
{
    let num: int = free_total * size;
    let r: int = round_div(num, free_size);
    lemma_round_div_error(num, free_size);
    if free_total >= 0 {
        assert(0 <= num <= free_total * free_size) by (nonlinear_arith)
            requires
                num == free_total * size,
                0 <= size <= free_size,
                free_total >= 0,
        ;
        assert(r <= free_total) by (nonlinear_arith)
            requires
                2 * (free_size * r) <= 2 * num + free_size,
                num <= free_total * free_size,
                free_size > 0,
        ;
        assert(r >= 0) by (nonlinear_arith)
            requires
                2 * num - free_size <= 2 * (free_size * r),
                num >= 0,
                free_size > 0,
        ;
    } else {
        assert(free_total * free_size <= num <= 0) by (nonlinear_arith)
            requires
                num == free_total * size,
                0 <= size <= free_size,
                free_total < 0,
        ;
        assert(r >= free_total) by (nonlinear_arith)
            requires
                2 * num - free_size <= 2 * (free_size * r),
                free_total * free_size <= num,
                free_size > 0,
        ;
        assert(r <= 0) by (nonlinear_arith)
            requires
                2 * (free_size * r) <= 2 * num + free_size,
                num <= 0,
                free_size > 0,
        ;
    }
}

/// The first `upto` lengths, apart from rounding, are the pinned floors and
/// the free children's part of what is divided.
proof fn lemma_length_total(sizes: Seq<u32>, mins: Seq<i32>, total: int, upto: nat)
    requires
        upto <= sizes.len() <= mins.len(),
        !is_overfull(sizes, mins, total),
        free_size(sizes, finally_pinned(sizes, mins, total)) > 0,
        i32::MIN <= finally_free(sizes, mins, total) <= i32::MAX,
    ensures
        ({
            let pinned = finally_pinned(sizes, mins, total);
            let left = finally_free(sizes, mins, total);
            let free = free_size(sizes, pinned);
            let first = pinned.take(upto as int);
            let spread = length_total(sizes, mins, total, upto) - pinned_total(mins, first);
            &&& pinned.len() == sizes.len()
            &&& 2 * (left * free_size(sizes, first)) - free * free_count(first) <= 2 * (free
                * spread)
            &&& 2 * (free * spread) <= 2 * (left * free_size(sizes, first)) + free * free_count(
                first,
            )
        }),
    decreases upto,
{
    let pinned = finally_pinned(sizes, mins, total);
    let left = finally_free(sizes, mins, total);
    let free = free_size(sizes, pinned);
    lemma_settles(sizes, mins, total, none_pinned(sizes.len()));
    if upto == 0 {
        assert(pinned.take(0) =~= Seq::<bool>::empty());
        assert(left * 0 == 0 && free * 0 == 0) by (nonlinear_arith);
    } else {
        let i: int = upto - 1;
        let shorter = pinned.take(i);
        let first = pinned.take(upto as int);
        assert(first.drop_last() =~= shorter);
        lemma_length_total(sizes, mins, total, i as nat);
        let before: int = length_total(sizes, mins, total, i as nat) - pinned_total(mins, shorter);
        let spread: int = length_total(sizes, mins, total, upto) - pinned_total(mins, first);
        if pinned[i] {
            assert(spread == before);
        } else {
            let size: int = sizes[i] as int;
            let r: int = round_div(left * size, free);
            lemma_size_within(sizes, pinned, i);
            lemma_share_is_exact(left, size, free);
            lemma_round_div_error(left * size, free);
            let count: int = free_count(shorter) as int;
            let part: int = free_size(sizes, shorter);
            assert(spread == before + r);
            assert(free * spread == free * before + free * r) by (nonlinear_arith)
                requires
                    spread == before + r,
            ;
            assert(left * (part + size) == left * part + left * size) by (nonlinear_arith);
            assert(free * (count + 1) == free * count + free) by (nonlinear_arith);
        }
    }
}

/// Whether children can be given their floors and have something to divide
/// between them: no floor is negative, some child has a size, and the floors fit
/// in the total.
pub open spec fn is_dividable(sizes: Seq<u32>, mins: Seq<i32>, total: int) -> bool {
    &&& sizes.len() <= mins.len()
    &&& forall|i: int| 0 <= i < sizes.len() ==> 0 <= #[trigger] mins[i]
    &&& exists|i: int| 0 <= i < sizes.len() && 0 < #[trigger] sizes[i]
    &&& !is_overfull(sizes, mins, total)
    &&& total <= i32::MAX
}

/// The pinned children's floors are some of all floors.
proof fn lemma_pinned_within_floors(mins: Seq<i32>, pinned: Seq<bool>)
    requires
        pinned.len() <= mins.len(),
        forall|i: int| 0 <= i < pinned.len() ==> 0 <= #[trigger] mins[i],
    ensures
        0 <= pinned_total(mins, pinned) <= floor_total(mins, pinned.len()),
    decreases pinned.len(),
{
    if pinned.len() > 0 {
        lemma_pinned_within_floors(mins, pinned.drop_last());
        assert(0 <= mins[pinned.len() - 1]);
    }
}

/// Where a pass pins every child of some size, the shares of the first `upto`
/// children that were free come to less than their floors.
proof fn lemma_shares_below_floors(
    sizes: Seq<u32>,
    mins: Seq<i32>,
    total: int,
    pinned: Seq<bool>,
    upto: nat,
)
    requires
        is_dividable(sizes, mins, total),
        pinned.len() == sizes.len(),
        upto <= sizes.len(),
        free_size(sizes, pinned) > 0,
        i32::MIN <= total - pinned_total(mins, pinned) <= i32::MAX,
        forall|i: int|
            0 <= i < sizes.len() && !pinned[i] && 0 < #[trigger] sizes[i] ==> child_share(
                sizes,
                mins,
                total,
                pinned,
                i,
            ) < mins[i],
    ensures
        ({
            let left = total - pinned_total(mins, pinned);
            let free = free_size(sizes, pinned);
            let first = pinned.take(upto as int);
            let part = left * free_size(sizes, first);
            let floors = free * (floor_total(mins, upto) - pinned_total(mins, first));
            &&& part <= floors
            &&& free_size(sizes, first) > 0 ==> part < floors
        }),
    decreases upto,
{
    let left: int = total - pinned_total(mins, pinned);
    let free: int = free_size(sizes, pinned);
    let first = pinned.take(upto as int);
    if upto == 0 {
        assert(first =~= Seq::<bool>::empty());
        assert(left * 0 == 0 && free * 0 == 0) by (nonlinear_arith);
    } else {
        let i: int = upto - 1;
        let shorter = pinned.take(i);
        assert(first.drop_last() =~= shorter);
        lemma_shares_below_floors(sizes, mins, total, pinned, i as nat);
        lemma_free_size_positive(sizes, shorter);
        let before: int = floor_total(mins, i as nat) - pinned_total(mins, shorter);
        let part: int = free_size(sizes, shorter);
        let size: int = sizes[i] as int;
        let floor: int = mins[i] as int;
        if !pinned[i] {
            assert(left * (part + size) == left * part + left * size) by (nonlinear_arith);
            assert(free * (before + floor) == free * before + free * floor) by (nonlinear_arith);
            if size > 0 {
                let r: int = round_div(left * size, free);
                lemma_size_within(sizes, pinned, i);
                lemma_share_is_exact(left, size, free);
                lemma_round_div_error(left * size, free);
                assert(r < floor);
                assert(left * size < free * floor) by (nonlinear_arith)
                    requires
                        2 * (left * size) - free <= 2 * (free * r),
                        r + 1 <= floor,
                        free > 0,
                ;
            } else {
                assert(left * size == 0) by (nonlinear_arith)
                    requires
                        size == 0,
                ;
                assert(0 <= free * floor) by (nonlinear_arith)
                    requires
                        free > 0,
                        floor >= 0,
                ;
            }
        }
    }
}

/// A pass never pins every child of some size where the floors fit.
proof fn lemma_pass_leaves_size(sizes: Seq<u32>, mins: Seq<i32>, total: int, pinned: Seq<bool>)
    requires
        is_dividable(sizes, mins, total),
        pinned.len() == sizes.len(),
        free_size(sizes, pinned) > 0,
    ensures
        free_size(sizes, pin_pass(sizes, mins, total, pinned)) > 0,
{
    let next = pin_pass(sizes, mins, total, pinned);
    let left: int = total - pinned_total(mins, pinned);
    let free: int = free_size(sizes, pinned);
    lemma_pinned_within_floors(mins, pinned);
    lemma_free_size_positive(sizes, next);
    if free_size(sizes, next) == 0 {
        assert forall|i: int|
            0 <= i < sizes.len() && !pinned[i] && 0 < #[trigger] sizes[i] implies child_share(
            sizes,
            mins,
            total,
            pinned,
            i,
        ) < mins[i] by {
            if !next[i] {
                lemma_size_within(sizes, next, i);
            }
        }
        lemma_shares_below_floors(sizes, mins, total, pinned, sizes.len());
        assert(pinned.take(sizes.len() as int) =~= pinned);
        let floors: int = floor_total(mins, sizes.len()) - pinned_total(mins, pinned);
        assert(left < floors) by (nonlinear_arith)
            requires
                left * free < free * floors,
                free > 0,
        ;
    }
}

/// Repeated passes leave some size free where the floors fit.
proof fn lemma_settling_leaves_size(
    sizes: Seq<u32>,
    mins: Seq<i32>,
    total: int,
    pinned: Seq<bool>,
)
    requires
        is_dividable(sizes, mins, total),
        pinned.len() == sizes.len(),
        free_size(sizes, pinned) > 0,
    ensures
        free_size(sizes, settle(sizes, mins, total, pinned)) > 0,
    decreases free_count(pinned),
{
    if !settled(sizes, mins, total, pinned) {
        lemma_pass_pins(sizes, mins, total, pinned);
        lemma_pass_leaves_size(sizes, mins, total, pinned);
        lemma_settling_leaves_size(sizes, mins, total, pin_pass(sizes, mins, total, pinned));
    }
}

/// What is divided in the end is no more than the total, and goes to children of
/// some size.
proof fn lemma_something_is_divided(sizes: Seq<u32>, mins: Seq<i32>, total: int)
    requires
        is_dividable(sizes, mins, total),
    ensures
        finally_pinned(sizes, mins, total).len() == sizes.len(),
        free_size(sizes, finally_pinned(sizes, mins, total)) > 0,
        0 <= finally_free(sizes, mins, total) <= total,
{
    let nobody = none_pinned(sizes.len());
    let sized = choose|i: int| 0 <= i < sizes.len() && 0 < #[trigger] sizes[i];
    assert(!nobody[sized]);
    lemma_size_within(sizes, nobody, sized);
    lemma_settling_leaves_size(sizes, mins, total, nobody);
    lemma_settles(sizes, mins, total, nobody);
    lemma_pinned_within_floors(mins, finally_pinned(sizes, mins, total));
}

/// Where the floors fit and some child has a size, the lengths add up to the
/// total, apart from half a pixel of rounding for each child that is not at its
/// floor.
pub proof fn law_the_total_is_split(sizes: Seq<u32>, mins: Seq<i32>, total: int)
    requires
        is_dividable(sizes, mins, total),
    ensures
        ({
            let off = length_total(sizes, mins, total, sizes.len()) - total;
            let free = free_count(finally_pinned(sizes, mins, total));
            -free <= 2 * off <= free
        }),
{
    let pinned = finally_pinned(sizes, mins, total);
    let left = finally_free(sizes, mins, total);
    let free = free_size(sizes, pinned);
    let count: int = free_count(pinned) as int;
    lemma_something_is_divided(sizes, mins, total);
    lemma_length_total(sizes, mins, total, sizes.len());
    assert(pinned.take(sizes.len() as int) =~= pinned);
    let spread: int = length_total(sizes, mins, total, sizes.len()) - pinned_total(mins, pinned);
    assert(-count <= 2 * (spread - left) <= count) by (nonlinear_arith)
        requires
            2 * (left * free) - free * count <= 2 * (free * spread),
            2 * (free * spread) <= 2 * (left * free) + free * count,
            free > 0,
    ;
}

/// When the floors alone exceed the total, every child gets exactly its floor.
pub proof fn law_unfittable_floors_are_kept(
    sizes: Seq<u32>,
    mins: Seq<i32>,
    total: int,
    i: int,
)
    requires
        0 <= i < sizes.len() <= mins.len(),
        is_overfull(sizes, mins, total),
    ensures
        resolved_length(sizes, mins, total, i) == mins[i],
{
}

/// What the first `upto` children pinned in a pass take in floors is no less
/// than what they had in shares.
proof fn lemma_pinning_takes(
    sizes: Seq<u32>,
    mins: Seq<i32>,
    total: int,
    pinned: Seq<bool>,
    upto: nat,
)
    requires
        is_dividable(sizes, mins, total),
        pinned.len() == sizes.len(),
        upto <= sizes.len(),
        free_size(sizes, pinned) > 0,
    ensures
        ({
            let left = total - pinned_total(mins, pinned);
            let free = free_size(sizes, pinned);
            let first = pinned.take(upto as int);
            let next = pin_pass(sizes, mins, total, pinned).take(upto as int);
            left * (free_size(sizes, first) - free_size(sizes, next)) <= free * (pinned_total(
                mins,
                next,
            ) - pinned_total(mins, first))
        }),
    decreases upto,
{
    let left: int = total - pinned_total(mins, pinned);
    let free: int = free_size(sizes, pinned);
    let after = pin_pass(sizes, mins, total, pinned);
    let first = pinned.take(upto as int);
    let next = after.take(upto as int);
    if upto == 0 {
        assert(first =~= Seq::<bool>::empty());
        assert(next =~= Seq::<bool>::empty());
        assert(left * 0 == 0 && free * 0 == 0) by (nonlinear_arith);
    } else {
        let i: int = upto - 1;
        assert(first.drop_last() =~= pinned.take(i));
        assert(next.drop_last() =~= after.take(i));
        lemma_pinning_takes(sizes, mins, total, pinned, i as nat);
        let freed: int = free_size(sizes, pinned.take(i)) - free_size(sizes, after.take(i));
        let taken: int = pinned_total(mins, after.take(i)) - pinned_total(mins, pinned.take(i));
        if !pinned[i] && after[i] {
            let size: int = sizes[i] as int;
            let floor: int = mins[i] as int;
            let r: int = round_div(left * size, free);
            lemma_pinned_within_floors(mins, pinned);
            lemma_size_within(sizes, pinned, i);
            lemma_share_is_exact(left, size, free);
            lemma_round_div_error(left * size, free);
            assert(left * size <= free * floor) by (nonlinear_arith)
                requires
                    2 * (left * size) - free <= 2 * (free * r),
                    r + 1 <= floor,
                    free > 0,
            ;
            assert(left * (freed + size) == left * freed + left * size) by (nonlinear_arith);
            assert(free * (taken + floor) == free * taken + free * floor) by (nonlinear_arith);
        }
    }
}

/// A child's share does not grow when less is divided by what is free.
proof fn lemma_share_falls(left: int, free: int, lower: int, fewer: int, size: int)
    requires
        0 <= left,
        0 <= lower,
        0 < free,
        0 < fewer,
        0 <= size,
        lower * free <= left * fewer,
    ensures
        share(lower, size, fewer) <= share(left, size, free),
{
    let a: int = left * size;
    let b: int = lower * size;
    assert(0 <= a && 0 <= b && b * free <= a * fewer) by (nonlinear_arith)
        requires
            a == left * size,
            b == lower * size,
            0 <= left,
            0 <= lower,
            0 <= size,
            lower * free <= left * fewer,
    ;
    let q: int = round_div(b, fewer);
    let r: int = round_div(a, free);
    lemma_round_div_error(b, fewer);
    vstd::arithmetic::div_mod::lemma_fundamental_div_mod(2 * a + free, 2 * free);
    vstd::arithmetic::div_mod::lemma_mod_bound(2 * a + free, 2 * free);
    assert(2 * (free * q) <= 2 * a + free) by (nonlinear_arith)
        requires
            2 * (fewer * q) <= 2 * b + fewer,
            b * free <= a * fewer,
            0 < free,
            0 < fewer,
    ;
    assert(q <= r) by (nonlinear_arith)
        requires
            2 * (free * q) <= 2 * a + free,
            2 * a + free < (2 * free) * r + 2 * free,
            0 < free,
    ;
}

/// Children once pinned would have less than their floors in every later pass.
proof fn lemma_pinned_stay_below(
    sizes: Seq<u32>,
    mins: Seq<i32>,
    total: int,
    pinned: Seq<bool>,
    i: int,
)
    requires
        is_dividable(sizes, mins, total),
        pinned.len() == sizes.len(),
        free_size(sizes, pinned) > 0,
        0 <= i < sizes.len(),
        pinned[i] ==> child_share(sizes, mins, total, pinned, i) < mins[i],
    ensures
        ({
            let settled = settle(sizes, mins, total, pinned);
            settled[i] ==> child_share(sizes, mins, total, settled, i) < mins[i]
        }),
    decreases free_count(pinned),
{
    if !settled(sizes, mins, total, pinned) {
        let next = pin_pass(sizes, mins, total, pinned);
        let left: int = total - pinned_total(mins, pinned);
        let lower: int = total - pinned_total(mins, next);
        let free: int = free_size(sizes, pinned);
        let fewer: int = free_size(sizes, next);
        lemma_pass_pins(sizes, mins, total, pinned);
        lemma_pass_leaves_size(sizes, mins, total, pinned);
        lemma_pinned_within_floors(mins, pinned);
        lemma_pinned_within_floors(mins, next);
        lemma_pinning_takes(sizes, mins, total, pinned, sizes.len());
        assert(pinned.take(sizes.len() as int) =~= pinned);
        assert(next.take(sizes.len() as int) =~= next);
        assert(lower * free <= left * fewer) by (nonlinear_arith)
            requires
                left * (free - fewer) <= free * (left - lower),
        ;
        lemma_share_falls(left, free, lower, fewer, sizes[i] as int);
        lemma_pinned_stay_below(sizes, mins, total, next, i);
    }
}

/// Where the floors fit and some child has a size, there is one level to which
/// all children are filled: each gets its share of what is divided in the end, or
/// its floor if that is more.
pub proof fn law_children_are_filled_to_one_level(
    sizes: Seq<u32>,
    mins: Seq<i32>,
    total: int,
    i: int,
)
    requires
        is_dividable(sizes, mins, total),
        0 <= i < sizes.len(),
    ensures
        ({
            let level = child_share(sizes, mins, total, finally_pinned(sizes, mins, total), i);
            resolved_length(sizes, mins, total, i) == if level < mins[i] {
                mins[i] as int
            } else {
                level
            }
        }),
{
    let nobody = none_pinned(sizes.len());
    let pinned = finally_pinned(sizes, mins, total);
    let sized = choose|k: int| 0 <= k < sizes.len() && 0 < #[trigger] sizes[k];
    assert(!nobody[sized]);
    lemma_size_within(sizes, nobody, sized);
    lemma_something_is_divided(sizes, mins, total);
    lemma_pinned_stay_below(sizes, mins, total, nobody, i);
    if !pinned[i] {
        law_floors_are_kept(sizes, mins, total, i);
    }
}

/// Rounding gives the whole number nearest to a quotient, and of two that are
/// equally near the one farther from zero.
pub proof fn law_quotients_are_rounded_to_the_nearest(num: int, den: int)
    requires
        den > 0,
    ensures
        num >= 0 ==> 2 * num - den < 2 * (den * round_div(num, den)) <= 2 * num + den,
        num <= 0 ==> 2 * num - den <= 2 * (den * round_div(num, den)) < 2 * num + den,
        round_div(-num, den) == -round_div(num, den),
{
    let top: int = if num >= 0 {
        2 * num + den
    } else {
        2 * -num + den
    };
    let r: int = top / (2 * den);
    vstd::arithmetic::div_mod::lemma_fundamental_div_mod(top, 2 * den);
    vstd::arithmetic::div_mod::lemma_mod_bound(top, 2 * den);
    assert((2 * den) * r == 2 * (den * r)) by (nonlinear_arith);
    assert(den * -r == -(den * r)) by (nonlinear_arith);
    if num == 0 {
        assert(r == 0) by (nonlinear_arith)
            requires
                den == (2 * den) * r + top % (2 * den),
                0 <= top % (2 * den) < 2 * den,
                den > 0,
        ;
    }
}

/// A number in the range of an `i32` is kept, and one beyond it is held at the
/// end that it is beyond.
pub proof fn law_numbers_are_held_in_range(value: int)
    ensures
        i32::MIN <= value <= i32::MAX ==> saturate(value) == value,
        value > i32::MAX ==> saturate(value) == 0x7fff_ffff,
        value < i32::MIN ==> saturate(value) == -0x8000_0000,
{
}

/// A share is the whole number nearest to its part of what is divided, unless
/// that is beyond the range of an `i32`.
pub proof fn law_shares_are_in_proportion(free_total: int, size: int, free_size: int)
    requires
        0 <= free_total,
        0 <= size,
        0 < free_size,
        share(free_total, size, free_size) < i32::MAX,
    ensures
        2 * (free_total * size) - free_size < 2 * (free_size * share(
            free_total,
            size,
            free_size,
        )) <= 2 * (free_total * size) + free_size,
{
    let num: int = free_total * size;
    assert(0 <= num) by (nonlinear_arith)
        requires
            num == free_total * size,
            0 <= free_total,
            0 <= size,
    ;
    law_quotients_are_rounded_to_the_nearest(num, free_size);
    let r: int = round_div(num, free_size);
    assert(0 <= r) by (nonlinear_arith)
        requires
            -free_size < 2 * (free_size * r),
            0 < free_size,
    ;
}

/// Pinning one child more takes exactly its floor out of what is divided, and
/// exactly its size out of what divides it.
pub proof fn law_pinning_a_child_takes_its_floor(
    sizes: Seq<u32>,
    mins: Seq<i32>,
    pinned: Seq<bool>,
    i: int,
)
    requires
        0 <= i < pinned.len(),
        !pinned[i],
    ensures
        pinned_total(mins, pinned.update(i, true)) == pinned_total(mins, pinned) + mins[i],
        free_size(sizes, pinned.update(i, true)) == free_size(sizes, pinned) - sizes[i],
    decreases pinned.len(),
{
    let more = pinned.update(i, true);
    let last: int = pinned.len() - 1;
    if i < last {
        law_pinning_a_child_takes_its_floor(sizes, mins, pinned.drop_last(), i);
        assert(more.drop_last() =~= pinned.drop_last().update(i, true));
    } else {
        assert(more.drop_last() =~= pinned.drop_last());
    }
}

/// With nobody pinned nothing is taken out of what is divided, and all sizes
/// divide it; with everybody pinned all floors are taken and no size is left.
pub proof fn law_totals_are_sums(sizes: Seq<u32>, mins: Seq<i32>)
    requires
        sizes.len() == mins.len(),
    ensures
        pinned_total(mins, Seq::new(sizes.len(), |i: int| false)) == 0,
        free_size(sizes, Seq::new(sizes.len(), |i: int| false)) == sizes.fold_left(
            0int,
            |sum: int, size: u32| sum + size,
        ),
        free_size(sizes, Seq::new(sizes.len(), |i: int| true)) == 0,
        pinned_total(mins, Seq::new(sizes.len(), |i: int| true)) == mins.fold_left(
            0int,
            |sum: int, floor: i32| sum + floor,
        ),
        floor_total(mins, mins.len()) == mins.fold_left(0int, |sum: int, floor: i32| sum + floor),
{
    lemma_sums(sizes, mins, sizes.len());
    assert(sizes.take(sizes.len() as int) =~= sizes);
    assert(mins.take(sizes.len() as int) =~= mins);
}

proof fn lemma_sums(sizes: Seq<u32>, mins: Seq<i32>, n: nat)
    requires
        n <= sizes.len() <= mins.len(),
    ensures
        pinned_total(mins, Seq::new(n, |i: int| false)) == 0,
        free_size(sizes, Seq::new(n, |i: int| false)) == sizes.take(n as int).fold_left(
            0int,
            |sum: int, size: u32| sum + size,
        ),
        free_size(sizes, Seq::new(n, |i: int| true)) == 0,
        pinned_total(mins, Seq::new(n, |i: int| true)) == mins.take(n as int).fold_left(
            0int,
            |sum: int, floor: i32| sum + floor,
        ),
        floor_total(mins, n) == mins.take(n as int).fold_left(
            0int,
            |sum: int, floor: i32| sum + floor,
        ),
    decreases n,
{
    if n > 0 {
        let m: nat = (n - 1) as nat;
        lemma_sums(sizes, mins, m);
        assert(Seq::new(n, |i: int| false).drop_last() =~= Seq::new(m, |i: int| false));
        assert(Seq::new(n, |i: int| true).drop_last() =~= Seq::new(m, |i: int| true));
        assert(sizes.take(n as int).drop_last() =~= sizes.take(m as int));
        assert(mins.take(n as int).drop_last() =~= mins.take(m as int));
        assert(sizes.take(n as int).last() == sizes[m as int]);
        assert(mins.take(n as int).last() == mins[m as int]);
    }
}

/// The floors cannot all fit exactly if they add up to more than the total.
pub proof fn law_overfull_floors_exceed_the_total(sizes: Seq<u32>, mins: Seq<i32>, total: int)
    requires
        sizes.len() == mins.len(),
    ensures
        is_overfull(sizes, mins, total) <==> mins.fold_left(
            0int,
            |sum: int, floor: i32| sum + floor,
        ) > total,
{
    law_totals_are_sums(sizes, mins);
}

/// Children without floors divide the total in proportion to their sizes, each
/// to the nearest whole number.
pub proof fn law_children_without_floors_divide_the_total(
    sizes: Seq<u32>,
    mins: Seq<i32>,
    total: int,
    i: int,
)
    requires
        0 <= i < sizes.len() == mins.len(),
        forall|j: int| 0 <= j < mins.len() ==> #[trigger] mins[j] == 0,
        0 <= total <= i32::MAX,
        exists|j: int| 0 <= j < sizes.len() && 0 < #[trigger] sizes[j],
    ensures
        ({
            let all = sizes.fold_left(0int, |sum: int, size: u32| sum + size);
            let length = resolved_length(sizes, mins, total, i);
            &&& 2 * (total * sizes[i]) - all < 2 * (all * length)
            &&& 2 * (all * length) <= 2 * (total * sizes[i]) + all
        }),
{
    let nobody = none_pinned(sizes.len());
    let all = sizes.fold_left(0int, |sum: int, size: u32| sum + size);
    law_totals_are_sums(sizes, mins);
    assert(nobody =~= Seq::new(sizes.len(), |i: int| false));
    let sized = choose|j: int| 0 <= j < sizes.len() && 0 < #[trigger] sizes[j];
    assert(!nobody[sized]);
    lemma_size_within(sizes, nobody, sized);
    lemma_no_floors(mins, mins.len());
    assert forall|j: int| 0 <= j < sizes.len() implies mins[j] <= #[trigger] child_share(
        sizes,
        mins,
        total,
        nobody,
        j,
    ) by {
        assert(!nobody[j]);
        lemma_size_within(sizes, nobody, j);
        lemma_share_in_total(total, sizes[j] as int, all);
    }
    law_clear_shares_are_left_alone(sizes, mins, total, i);
    assert(!nobody[i]);
    lemma_size_within(sizes, nobody, i);
    lemma_share_is_exact(total, sizes[i] as int, all);
    assert(0 <= total * sizes[i]) by (nonlinear_arith)
        requires
            0 <= total,
    ;
    law_quotients_are_rounded_to_the_nearest(total * sizes[i], all);
}

proof fn lemma_no_floors(mins: Seq<i32>, n: nat)
    requires
        n <= mins.len(),
        forall|j: int| 0 <= j < mins.len() ==> #[trigger] mins[j] == 0,
    ensures
        floor_total(mins, n) == 0,
    decreases n,
{
    if n > 0 {
        lemma_no_floors(mins, (n - 1) as nat);
        assert(mins[n - 1] == 0);
    }
}

/// A share of something is not negative.
proof fn lemma_share_in_total(total: int, size: int, all: int)
    requires
        0 <= total,
        0 <= size,
        0 < all,
    ensures
        0 <= share(total, size, all),
{
    let num: int = total * size;
    assert(0 <= num) by (nonlinear_arith)
        requires
            num == total * size,
            0 <= total,
            0 <= size,
    ;
    law_quotients_are_rounded_to_the_nearest(num, all);
    let r: int = round_div(num, all);
    assert(0 <= r) by (nonlinear_arith)
        requires
            -all < 2 * (all * r),
            0 < all,
    ;
}

/// Where no child has a size there is nothing to go by, and all get their
/// floors.
pub proof fn law_children_without_sizes_get_their_floors(
    sizes: Seq<u32>,
    mins: Seq<i32>,
    total: int,
    i: int,
)
    requires
        0 <= i < sizes.len() <= mins.len(),
        forall|j: int| 0 <= j < sizes.len() ==> #[trigger] sizes[j] == 0,
    ensures
        resolved_length(sizes, mins, total, i) == mins[i],
{
    lemma_settles(sizes, mins, total, none_pinned(sizes.len()));
    lemma_no_sizes(sizes, finally_pinned(sizes, mins, total));
}

proof fn lemma_no_sizes(sizes: Seq<u32>, pinned: Seq<bool>)
    requires
        pinned.len() <= sizes.len(),
        forall|j: int| 0 <= j < sizes.len() ==> #[trigger] sizes[j] == 0,
    ensures
        free_size(sizes, pinned) == 0,
    decreases pinned.len(),
{
    if pinned.len() > 0 {
        lemma_no_sizes(sizes, pinned.drop_last());
        assert(sizes[pinned.len() - 1] == 0);
    }
}

/// Where the floors fit and some child has a size, something is divided in the
/// end such that each child has the nearest whole number to its part, or its
/// floor where that is more.
pub proof fn law_lengths_are_parts_or_floors(sizes: Seq<u32>, mins: Seq<i32>, total: int)
    requires
        is_dividable(sizes, mins, total),
    ensures
        exists|left: int, free: int|
            0 <= left <= total && 0 < free && #[trigger] is_divided(sizes, mins, total, left, free),
{
    let left = finally_free(sizes, mins, total);
    let pinned = finally_pinned(sizes, mins, total);
    let free = free_size(sizes, pinned);
    let nobody = none_pinned(sizes.len());
    let sized = choose|k: int| 0 <= k < sizes.len() && 0 < #[trigger] sizes[k];
    assert(!nobody[sized]);
    lemma_size_within(sizes, nobody, sized);
    lemma_something_is_divided(sizes, mins, total);
    assert(is_divided(sizes, mins, total, left, free)) by {
        assert forall|i: int| 0 <= i < sizes.len() implies {
            let length = #[trigger] resolved_length(sizes, mins, total, i);
            let part = left * sizes[i];
            &&& mins[i] <= length
            &&& 2 * part - free < 2 * (free * length)
            &&& mins[i] < length ==> 2 * (free * length) <= 2 * part + free
        } by {
            law_children_are_filled_to_one_level(sizes, mins, total, i);
            let length: int = resolved_length(sizes, mins, total, i);
            let part: int = left * sizes[i];
            let level: int = child_share(sizes, mins, total, pinned, i);
            let r: int = round_div(part, free);
            assert(0 <= part) by (nonlinear_arith)
                requires
                    part == left * sizes[i],
                    0 <= left,
            ;
            law_quotients_are_rounded_to_the_nearest(part, free);
            if pinned[i] {
                law_floors_are_kept(sizes, mins, total, i);
                lemma_pinned_stay_below(sizes, mins, total, nobody, i);
                assert(level < mins[i]);
                assert(level == r) by {
                    assert(level < i32::MAX);
                    assert(r >= 0) by (nonlinear_arith)
                        requires
                            -free < 2 * (free * r),
                            0 < free,
                    ;
                }
                assert(2 * part - free < 2 * (free * length)) by (nonlinear_arith)
                    requires
                        2 * part - free < 2 * (free * r),
                        r < length,
                        0 < free,
                ;
            } else {
                lemma_size_within(sizes, pinned, i);
                lemma_share_is_exact(left, sizes[i] as int, free);
                assert(length == r);
            }
        }
    }
}

/// Whether each length is the nearest whole number to its part of `left` among
/// `free`, or the child's floor where that is more.
pub open spec fn is_divided(
    sizes: Seq<u32>,
    mins: Seq<i32>,
    total: int,
    left: int,
    free: int,
) -> bool {
    forall|i: int|
        0 <= i < sizes.len() ==> {
            let length = #[trigger] resolved_length(sizes, mins, total, i);
            let part = left * sizes[i];
            &&& mins[i] <= length
            &&& 2 * part - free < 2 * (free * length)
            &&& mins[i] < length ==> 2 * (free * length) <= 2 * part + free
        }
}

/// Where the floors fit and some child has a size, a child that is no smaller
/// than another and insists on no less gets no less, and children that are
/// alike get the same.
pub proof fn law_larger_children_get_no_less(
    sizes: Seq<u32>,
    mins: Seq<i32>,
    total: int,
    i: int,
    j: int,
)
    requires
        is_dividable(sizes, mins, total),
        0 <= i < sizes.len(),
        0 <= j < sizes.len(),
        sizes[i] <= sizes[j],
        mins[i] <= mins[j],
    ensures
        resolved_length(sizes, mins, total, i) <= resolved_length(sizes, mins, total, j),
        sizes[i] == sizes[j] && mins[i] == mins[j] ==> resolved_length(sizes, mins, total, i)
            == resolved_length(sizes, mins, total, j),
{
    let left = finally_free(sizes, mins, total);
    let free = free_size(sizes, finally_pinned(sizes, mins, total));
    let a: int = sizes[i] as int;
    let b: int = sizes[j] as int;
    lemma_something_is_divided(sizes, mins, total);
    law_children_are_filled_to_one_level(sizes, mins, total, i);
    law_children_are_filled_to_one_level(sizes, mins, total, j);
    assert(0 <= left * a <= left * b) by (nonlinear_arith)
        requires
            0 <= a <= b,
            0 <= left,
    ;
    vstd::arithmetic::div_mod::lemma_div_is_ordered(
        2 * (left * a) + free,
        2 * (left * b) + free,
        2 * free,
    );
}

/// Where the floors fit, whatever they are, the lengths are settled: some
/// children have their floors, and every other has its share of what these
/// leave, which is no less than its own floor. Only where nobody of any size is
/// left do all have their floors.
pub proof fn law_lengths_are_settled(sizes: Seq<u32>, mins: Seq<i32>, total: int)
    requires
        sizes.len() <= mins.len(),
        floor_total(mins, sizes.len()) <= total,
    ensures
        exists|pinned: Seq<bool>| #[trigger] is_settled_by(sizes, mins, total, pinned),
{
    let pinned = finally_pinned(sizes, mins, total);
    lemma_settles(sizes, mins, total, none_pinned(sizes.len()));
    assert(is_settled_by(sizes, mins, total, pinned)) by {
        assert forall|i: int| 0 <= i < sizes.len() implies {
            let length = #[trigger] resolved_length(sizes, mins, total, i);
            let left = total - pinned_total(mins, pinned);
            let free = free_size(sizes, pinned);
            &&& mins[i] <= length
            &&& pinned[i] || free <= 0 ==> length == mins[i]
            &&& !pinned[i] && free > 0 ==> length == share(left, sizes[i] as int, free)
        } by {
            law_floors_are_kept(sizes, mins, total, i);
        }
    }
}

/// Whether each length is the child's floor if it is pinned, and otherwise its
/// share of what the pinned children leave.
pub open spec fn is_settled_by(
    sizes: Seq<u32>,
    mins: Seq<i32>,
    total: int,
    pinned: Seq<bool>,
) -> bool {
    &&& pinned.len() == sizes.len()
    &&& forall|i: int|
        0 <= i < sizes.len() ==> {
            let length = #[trigger] resolved_length(sizes, mins, total, i);
            let left = total - pinned_total(mins, pinned);
            let free = free_size(sizes, pinned);
            &&& mins[i] <= length
            &&& pinned[i] || free <= 0 ==> length == mins[i]
            &&& !pinned[i] && free > 0 ==> length == share(left, sizes[i] as int, free)
        }
}

} // verus!
