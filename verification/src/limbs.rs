//! Limbs of a zombie: which ones its body was generated without, which ones
//! gunfire has blown off, and which ones a hit may still take. Limbs are
//! numbered 0 (left arm), 1 (right arm), 2 (left leg) and 3 (right leg); the
//! severed ones are kept as a bit mask.

use vstd::prelude::*;
use crate::rng::{thread_chance, thread_range_i8, thread_range_usize};
use crate::waves::ZKind;

verus! {

/// Has limb `l` been blown off, according to `mask`?
pub open spec fn limb_severed(mask: u8, l: u8) -> bool {
    mask & (1u8 << l) != 0
}

/// Was limb `l` missing from the start? `missing_arm` and `missing_leg` are
/// -1 for none, 0 for the left one and 1 for the right one.
pub open spec fn limb_absent(l: int, missing_arm: i8, missing_leg: i8) -> bool {
    ||| l == 0 && missing_arm == 0
    ||| l == 1 && missing_arm == 1
    ||| l == 2 && missing_leg == 0
    ||| l == 3 && missing_leg == 1
}

/// Limb `l` is still on the body and can be shot off.
pub open spec fn limb_open(mask: u8, l: int, missing_arm: i8, missing_leg: i8) -> bool {
    &&& 0 <= l < 4
    &&& !limb_severed(mask, l as u8)
    &&& !limb_absent(l, missing_arm, missing_leg)
}

/// The mask after limb `l` (or no limb, for a negative `l`) is shot off.
pub open spec fn spec_sever(mask: u8, l: i8) -> u8 {
    if l < 0 { mask } else { mask | (1u8 << (l as u8)) }
}

/// Setting a limb's bit marks that limb and leaves the other three as they were.
proof fn lemma_set_bit(mask: u8, l: u8, k: u8)
    requires
        l < 4,
        k < 4,
    ensures
        limb_severed(mask | (1u8 << l), l),
        k != l ==> (limb_severed(mask | (1u8 << l), k) == limb_severed(mask, k)),
        limb_severed(mask, l) ==> (mask | (1u8 << l)) == mask,
{
    assert(limb_severed(mask | (1u8 << l), l)) by (bit_vector)
        requires
            l < 4,
    ;
    assert(k != l ==> ((mask | (1u8 << l)) & (1u8 << k) != 0) == (mask & (1u8 << k) != 0)) by (bit_vector)
        requires
            l < 4,
            k < 4,
    ;
    assert((mask & (1u8 << l) != 0) ==> (mask | (1u8 << l)) == mask) by (bit_vector)
        requires
            l < 4,
    ;
}

/// The limbs a hit can still blow off, in increasing order.
pub fn sever_choices(mask: u8, missing_arm: i8, missing_leg: i8) -> (c: Vec<i8>)
    ensures
        forall|i: int, j: int| 0 <= i < j < c.len() ==> c[i] < c[j],
        forall|i: int| 0 <= i < c.len() ==> limb_open(mask, c[i] as int, missing_arm, missing_leg),
        forall|l: int| #[trigger] limb_open(mask, l, missing_arm, missing_leg) ==> c@.contains(l as i8),
{
    let mut c: Vec<i8> = Vec::new();
    let mut l: i8 = 0;
    while l < 4
        invariant
            0 <= l <= 4,
            forall|i: int, j: int| 0 <= i < j < c.len() ==> c[i] < c[j],
            forall|i: int| 0 <= i < c.len() ==> c[i] < l,
            forall|i: int| 0 <= i < c.len() ==> limb_open(mask, c[i] as int, missing_arm, missing_leg),
            forall|k: int| 0 <= k < l && #[trigger] limb_open(mask, k, missing_arm, missing_leg) ==> c@.contains(k as i8),
        decreases 4 - l,
    {
        let bit: u8 = 1u8 << (l as u8);
        let absent = (l == 0 && missing_arm == 0) || (l == 1 && missing_arm == 1) || (l == 2 && missing_leg == 0)
            || (l == 3 && missing_leg == 1);
        let ghost before = c@;
        if mask & bit == 0 && !absent {
            c.push(l);
        }
        proof {
            assert forall|k: int| 0 <= k < l + 1 && #[trigger] limb_open(mask, k, missing_arm, missing_leg) implies c@.contains(k as i8) by {
                if k == l as int {
                    assert(c@[c.len() - 1] == l);
                } else {
                    assert(before.contains(k as i8));
                    let idx = choose|idx: int| 0 <= idx < before.len() && before[idx] == k as i8;
                    assert(c@[idx] == k as i8);
                }
            }
        }
        l = l + 1;
    }
    c
}

/// Pick, at random, a limb that a solid hit blows off: one of the limbs still
/// on the body, or `None` when there are none left.
pub fn pick_sever(mask: u8, missing_arm: i8, missing_leg: i8) -> (r: Option<i8>)
    ensures
        r is None <==> forall|l: int| !limb_open(mask, l, missing_arm, missing_leg),
        r matches Some(l) ==> limb_open(mask, l as int, missing_arm, missing_leg),
{
    let c = sever_choices(mask, missing_arm, missing_leg);
    if c.len() == 0 {
        proof {
            assert forall|l: int| !limb_open(mask, l, missing_arm, missing_leg) by {
                if limb_open(mask, l, missing_arm, missing_leg) {
                    assert(c@.contains(l as i8));
                }
            }
        }
        None
    } else {
        let i = thread_range_usize(0, c.len());
        Some(c[i])
    }
}

/// Carry out a pending sever: limb `pending` (negative for none) comes off.
/// Returns the new mask and whether a limb actually came off (not when none
/// was pending or that limb was already gone).
pub fn apply_sever(mask: u8, pending: i8) -> (r: (u8, bool))
    requires
        pending < 4,
    ensures
        r.0 == spec_sever(mask, pending),
        r.1 == (pending >= 0 && !limb_severed(mask, pending as u8)),
{
    if pending < 0 {
        return (mask, false);
    }
    let bit: u8 = 1u8 << (pending as u8);
    if mask & bit != 0 {
        proof {
            lemma_set_bit(mask, pending as u8, 0);
        }
        return (mask, false);
    }
    (mask | bit, true)
}

/// A severed limb stays severed and is never offered again, the other limbs
/// keep their state, and severing the same limb twice changes nothing more.
pub proof fn lemma_sever_sticks(mask: u8, l: i8, k: int, missing_arm: i8, missing_leg: i8)
    requires
        0 <= l < 4,
        0 <= k < 4,
    ensures
        limb_severed(spec_sever(mask, l), l as u8),
        !limb_open(spec_sever(mask, l), l as int, missing_arm, missing_leg),
        k != l ==> limb_severed(spec_sever(mask, l), k as u8) == limb_severed(mask, k as u8),
        spec_sever(spec_sever(mask, l), l) == spec_sever(mask, l),
{
    lemma_set_bit(mask, l as u8, k as u8);
    lemma_set_bit(spec_sever(mask, l), l as u8, k as u8);
}

/// Which limbs a zombie's body was generated without.
#[derive(Clone, Copy, PartialEq, Eq, Structural, Debug)]
pub struct LimbConfig {
    /// Drags itself along the ground.
    pub crawler: bool,
    /// -1 none, 0 left, 1 right.
    pub missing_arm: i8,
    /// -1 none, 0 left, 1 right.
    pub missing_leg: i8,
    /// A limp leg dragged behind: -1 none, 0 left, 1 right.
    pub drag_leg: i8,
}

/// What holds of every generated body configuration.
pub open spec fn limb_config_ok(kind: ZKind, c: LimbConfig) -> bool {
    &&& kind == ZKind::Crawler ==> c.crawler
    &&& kind == ZKind::Brute ==> !c.crawler
    &&& -1 <= c.missing_arm <= 1
    &&& -1 <= c.missing_leg <= 1
    &&& -1 <= c.drag_leg <= 1
    &&& c.drag_leg >= 0 ==> !c.crawler && c.missing_leg < 0
}

/// The random draws a body configuration is made from: whether the zombie
/// crawls (a 6% chance), loses a leg as a crawler (60%) or otherwise (8%),
/// loses an arm (12%), drags a limp leg (16%), and which side each limb is on
/// (0 left, 1 right).
#[derive(Clone, Copy, PartialEq, Eq, Structural, Debug)]
pub struct LimbDraws {
    pub crawls: bool,
    pub crawler_leg_lost: bool,
    pub leg_lost: bool,
    pub leg_side: i8,
    pub arm_lost: bool,
    pub arm_side: i8,
    pub drags: bool,
    pub drag_side: i8,
}

/// Sides drawn as 0 or 1.
pub open spec fn draws_ok(d: LimbDraws) -> bool {
    &&& 0 <= d.leg_side <= 1
    &&& 0 <= d.arm_side <= 1
    &&& 0 <= d.drag_side <= 1
}

/// The body configuration of a zombie of `kind` for draws `d`: crawlers
/// always crawl and brutes never do; a crawler first tries its 60% leg loss,
/// and failing that everyone tries the 8% one; the arm goes on its own draw;
/// only an intact, walking zombie drags a leg.
pub open spec fn spec_limb_config(kind: ZKind, d: LimbDraws) -> LimbConfig {
    let crawler = kind == ZKind::Crawler || (kind != ZKind::Brute && d.crawls);
    let missing_leg: i8 = if crawler && d.crawler_leg_lost {
        d.leg_side
    } else if d.leg_lost {
        d.leg_side
    } else {
        -1i8
    };
    let missing_arm: i8 = if d.arm_lost { d.arm_side } else { -1i8 };
    let drag_leg: i8 = if !crawler && missing_leg < 0 && d.drags { d.drag_side } else { -1i8 };
    LimbConfig { crawler, missing_arm, missing_leg, drag_leg }
}

/// The body configuration of a zombie of `kind` for draws `d`.
pub fn limb_config_from(kind: ZKind, d: LimbDraws) -> (c: LimbConfig)
    ensures
        c == spec_limb_config(kind, d),
        draws_ok(d) ==> limb_config_ok(kind, c),
        d.arm_lost ==> c.missing_arm == d.arm_side,
        !d.arm_lost ==> c.missing_arm == -1,
{
    let crawler = kind == ZKind::Crawler || (kind != ZKind::Brute && d.crawls);
    let missing_leg: i8 = if crawler && d.crawler_leg_lost {
        d.leg_side
    } else if d.leg_lost {
        d.leg_side
    } else {
        -1
    };
    let missing_arm: i8 = if d.arm_lost {
        d.arm_side
    } else {
        -1
    };
    let drag_leg: i8 = if !crawler && missing_leg < 0 && d.drags {
        d.drag_side
    } else {
        -1
    };
    LimbConfig { crawler, missing_arm, missing_leg, drag_leg }
}

/// Each limb draw decides its own limb: crawlers always crawl and brutes
/// never, anyone else as drawn; a leg is lost on the drawn side when a
/// crawler's 60% draw or the 8% draw came up; an intact walking zombie drags
/// the drawn leg when that draw came up; an arm is lost on the side drawn for
/// it, left or right alike, only when the arm-loss draw came up; and the arm
/// draws change nothing but the arm.
pub proof fn lemma_limb_draws(kind: ZKind, d: LimbDraws, e: LimbDraws)
    requires
        d.crawls == e.crawls,
        d.crawler_leg_lost == e.crawler_leg_lost,
        d.leg_lost == e.leg_lost,
        d.leg_side == e.leg_side,
        d.drags == e.drags,
        d.drag_side == e.drag_side,
    ensures
        kind == ZKind::Crawler ==> spec_limb_config(kind, d).crawler,
        kind == ZKind::Brute ==> !spec_limb_config(kind, d).crawler,
        kind != ZKind::Crawler && kind != ZKind::Brute ==> spec_limb_config(kind, d).crawler == d.crawls,
        (spec_limb_config(kind, d).crawler && d.crawler_leg_lost) || d.leg_lost ==> spec_limb_config(kind, d).missing_leg
            == d.leg_side,
        !(spec_limb_config(kind, d).crawler && d.crawler_leg_lost) && !d.leg_lost ==> spec_limb_config(kind, d).missing_leg
            == -1,
        !spec_limb_config(kind, d).crawler && spec_limb_config(kind, d).missing_leg == -1 && d.drags ==> spec_limb_config(kind, d).drag_leg
            == d.drag_side,
        !(!spec_limb_config(kind, d).crawler && spec_limb_config(kind, d).missing_leg < 0 && d.drags) ==> spec_limb_config(kind, d).drag_leg
            == -1,
        d.arm_lost ==> spec_limb_config(kind, d).missing_arm == d.arm_side,
        !d.arm_lost ==> spec_limb_config(kind, d).missing_arm == -1,
        spec_limb_config(kind, d).crawler == spec_limb_config(kind, e).crawler,
        spec_limb_config(kind, d).missing_leg == spec_limb_config(kind, e).missing_leg,
        spec_limb_config(kind, d).drag_leg == spec_limb_config(kind, e).drag_leg,
{
}

/// Draw a body configuration for a new zombie of `kind`: crawlers always
/// crawl (and 6% of the others, never brutes); a crawler lacks a leg 60% of
/// the time, anyone else 8%; 12% lack an arm; an intact walker drags a limp
/// leg 16% of the time.
pub fn limb_config(kind: ZKind) -> (c: LimbConfig)
    ensures
        limb_config_ok(kind, c),
        exists|d: LimbDraws| draws_ok(d) && c == #[trigger] spec_limb_config(kind, d),
{
    let d = LimbDraws {
        crawls: thread_chance(6, 100),
        crawler_leg_lost: thread_chance(3, 5),
        leg_lost: thread_chance(8, 100),
        leg_side: thread_range_i8(0, 2),
        arm_lost: thread_chance(12, 100),
        arm_side: thread_range_i8(0, 2),
        drags: thread_chance(16, 100),
        drag_side: thread_range_i8(0, 2),
    };
    let c = limb_config_from(kind, d);
    assert(draws_ok(d) && c == spec_limb_config(kind, d));
    c
}

} // verus!
