//! Party experience and levels.
use vstd::prelude::*;

use crate::crafting::div_toward_zero;

verus! {

/// The highest party level.
pub const MAX_PARTY_LEVEL: i32 = 50;

/// Experience a party needs to leave `level`: `(level + 7) * (level + 10) + 40`.
pub open spec fn spec_level_up_need_xp(level: int) -> int {
    (level + 7) * (level + 10) + 40
}

/// Experience a party needs to leave `level`.
pub fn party_level_up_need_xp(level: i32) -> (r: i32)
    requires
        i32::MIN <= level + 7 <= i32::MAX,
        i32::MIN <= level + 10 <= i32::MAX,
        i32::MIN <= (level + 7) * (level + 10) <= i32::MAX,
        i32::MIN <= spec_level_up_need_xp(level as int) <= i32::MAX,
    ensures
        r == spec_level_up_need_xp(level as int),
{
    (level + 7) * (level + 10) + 40
}

/// Experience a kill gives a party: for a monster `diff_level` levels above the
/// party (or level with it), `(d + a) * (d + a + 1) * b / 10 + 2` with the
/// zone's factors `a` and `b`; 2 for weaker monsters.
pub open spec fn spec_party_xp_gain(diff_level: int, a: int, b: int) -> int {
    if diff_level >= 0 {
        div_toward_zero((diff_level + a) * (diff_level + a + 1) * b, 10) + 2
    } else {
        2
    }
}

/// Experience a kill gives a party.
pub fn party_xp_gain(diff_level: i32, zone_party_xp_a: i64, zone_party_xp_b: i64) -> (r: i64)
    requires
        diff_level >= 0 ==> {
            &&& i64::MIN <= diff_level + zone_party_xp_a + 1 <= i64::MAX
            &&& i64::MIN <= (diff_level + zone_party_xp_a) * (diff_level + zone_party_xp_a + 1)
                <= i64::MAX
            &&& i64::MIN <= (diff_level + zone_party_xp_a) * (diff_level + zone_party_xp_a + 1)
                * zone_party_xp_b <= i64::MAX
            &&& i64::MIN <= spec_party_xp_gain(diff_level as int, zone_party_xp_a as int, zone_party_xp_b as int) <= i64::MAX
        },
    ensures
        r == spec_party_xp_gain(diff_level as int, zone_party_xp_a as int, zone_party_xp_b as int),
{
    if diff_level >= 0 {
        let d = diff_level as i64 + zone_party_xp_a;
        let p = d * (d + 1) * zone_party_xp_b;
        let q = if p >= 0 {
            p / 10
        } else {
            -((-(p as i128)) / 10) as i64
        };
        q + 2
    } else {
        2
    }
}

/// `x` kept between `lo` and `hi`.
pub open spec fn clamp_int(x: int, lo: int, hi: int) -> int {
    if x < lo {
        lo
    } else if x > hi {
        hi
    } else {
        x
    }
}

/// What a party's level, experience and level-up flag become after a gain:
/// negative gains count as none; below the top level, reaching the level's
/// requirement moves the party up one level and keeps the rest; the experience
/// kept is between 0 and `i32::MAX`.
pub open spec fn spec_apply_party_xp_gain(level: int, xp: int, gain: int) -> (int, int, bool) {
    let total = xp + (if gain > 0 {
        gain
    } else {
        0
    });
    let level_up = level < MAX_PARTY_LEVEL && total >= spec_level_up_need_xp(level);
    (
        if level_up {
            level + 1
        } else {
            level
        },
        clamp_int(
            if level_up {
                total - spec_level_up_need_xp(level)
            } else {
                total
            },
            0,
            i32::MAX as int,
        ),
        level_up,
    )
}

/// A party gains experience.
pub fn apply_party_xp_gain(party_level: i32, party_experience: i32, gain: i64) -> (r: (i32, i32, bool))
    requires
        party_experience + (if gain > 0 {
            gain as int
        } else {
            0
        }) <= i64::MAX,
        party_level < MAX_PARTY_LEVEL ==> {
            &&& i32::MIN <= party_level + 7
            &&& i32::MIN <= (party_level + 7) * (party_level + 10) <= i32::MAX
            &&& i32::MIN <= spec_level_up_need_xp(party_level as int) <= i32::MAX
            &&& party_experience + (if gain > 0 {
                gain as int
            } else {
                0
            }) - spec_level_up_need_xp(party_level as int) <= i64::MAX
        },
    ensures
        (r.0 as int, r.1 as int, r.2) == spec_apply_party_xp_gain(
            party_level as int,
            party_experience as int,
            gain as int,
        ),
{
    let mut new_level = party_level;
    let mut new_xp = party_experience as i64 + if gain > 0 {
        gain
    } else {
        0
    };
    let mut is_level_up = false;
    if new_level < MAX_PARTY_LEVEL {
        let need_xp = party_level_up_need_xp(new_level) as i64;
        if new_xp >= need_xp {
            new_xp = new_xp - need_xp;
            new_level = new_level + 1;
            is_level_up = true;
        }
    }
    let kept = if new_xp < 0 {
        0
    } else if new_xp > 0x7fff_ffff {
        0x7fff_ffff
    } else {
        new_xp as i32
    };
    (new_level, kept, is_level_up)
}

/// A gain never costs a party experience unless it levels the party up.
pub proof fn lemma_xp_never_drops_without_level_up(level: int, xp: int, gain: int)
    requires
        0 <= xp <= i32::MAX,
    ensures
        !spec_apply_party_xp_gain(level, xp, gain).2 ==> spec_apply_party_xp_gain(
            level,
            xp,
            gain,
        ).1 >= xp,
        spec_apply_party_xp_gain(level, xp, gain).0 == level || spec_apply_party_xp_gain(
            level,
            xp,
            gain,
        ).0 == level + 1,
        spec_apply_party_xp_gain(level, xp, gain).2 <==> spec_apply_party_xp_gain(level, xp, gain).0
            == level + 1,
        level <= MAX_PARTY_LEVEL ==> spec_apply_party_xp_gain(level, xp, gain).0 <= MAX_PARTY_LEVEL,
{
}

/// A gain that reaches the requirement below the top level moves the party up
/// exactly one level and keeps the experience beyond the requirement.
pub proof fn lemma_level_up_keeps_remainder(level: int, xp: int, gain: int)
    requires
        level < MAX_PARTY_LEVEL,
        gain > 0,
        xp + gain >= spec_level_up_need_xp(level),
        xp + gain - spec_level_up_need_xp(level) <= i32::MAX,
    ensures
        spec_apply_party_xp_gain(level, xp, gain) == (
            level + 1,
            xp + gain - spec_level_up_need_xp(level),
            true,
        ),
{
}

/// The experience a kill gives a party, against a monster at least as
/// strong as the party, is 2 plus a tenth of (d + a) * (d + a + 1) * b
/// (d levels above, zone factors a and b), the tenth rounded toward zero;
/// against a weaker monster it is 2.
pub proof fn lemma_party_xp_gain_scale(diff_level: int, a: int, b: int)
    ensures
        ({
            let g = spec_party_xp_gain(diff_level, a, b);
            let p = (diff_level + a) * (diff_level + a + 1) * b;
            &&& diff_level < 0 ==> g == 2
            &&& diff_level >= 0 && p >= 0 ==> 10 * (g - 2) <= p < 10 * (g - 2) + 10
            &&& diff_level >= 0 && p < 0 ==> 10 * (g - 2) - 10 < p <= 10 * (g - 2)
        }),
{
}

} // verus!
