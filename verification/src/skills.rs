//! The woodcutting skill: experience points and the level they give.
use vstd::prelude::*;

verus! {

/// Total experience needed to reach `level`: 0 up to level 1, and each
/// further level `l` costs `75 * (l - 1) + 25` more (level 2 = 100,
/// level 3 = 275, level 4 = 525, ...).
pub open spec fn xp_threshold(level: nat) -> nat
    decreases level,
{
    if level <= 1 {
        0
    } else {
        xp_threshold((level - 1) as nat) + 75 * ((level - 1) as nat) + 25
    }
}

/// A skill state is consistent when its level is at least 1 and is exactly
/// the level that its experience gives.
pub open spec fn skill_consistent(xp: nat, level: nat) -> bool {
    &&& level >= 1
    &&& xp_threshold(level) <= xp
    &&& xp < xp_threshold(level + 1)
}

/// The threshold grows with the level.
pub proof fn lemma_xp_threshold_monotonic(a: nat, b: nat)
    requires
        a <= b,
    ensures
        xp_threshold(a) <= xp_threshold(b),
        1 <= a < b ==> xp_threshold(a) < xp_threshold(b),
    decreases b - a,
{
    if a < b {
        lemma_xp_threshold_monotonic(a, (b - 1) as nat);
    }
}

/// The threshold in closed form: `(level - 1) * (75 * level + 50) / 2`.
pub proof fn lemma_xp_threshold_closed_form(level: nat)
    requires
        level >= 1,
    ensures
        2 * xp_threshold(level) == (level - 1) * (75 * level + 50),
    decreases level,
{
    if level > 1 {
        lemma_xp_threshold_closed_form((level - 1) as nat);
        assert(2 * xp_threshold(level) == (level - 1) * (75 * level + 50)) by (nonlinear_arith)
            requires
                2 * xp_threshold((level - 1) as nat) == (level - 2) * (75 * (level - 1) + 50),
                xp_threshold(level) == xp_threshold((level - 1) as nat) + 75 * (level - 1) + 25,
                level > 1,
        ;
    } else {
        assert((level - 1) * (75 * level + 50) == 0) by (nonlinear_arith)
            requires
                level == 1,
        ;
    }
}

/// At most one level is consistent with a given amount of experience.
pub proof fn lemma_level_determined_by_xp(xp: nat, l1: nat, l2: nat)
    requires
        skill_consistent(xp, l1),
        skill_consistent(xp, l2),
    ensures
        l1 == l2,
{
    if l1 < l2 {
        lemma_xp_threshold_monotonic(l1 + 1, l2);
    } else if l2 < l1 {
        lemma_xp_threshold_monotonic(l2 + 1, l1);
    }
}

pub struct WoodcuttingSkill {
    pub xp: u32,
    pub level: u32,
}

impl WoodcuttingSkill {
    /// A fresh skill: no experience, level 1.
    pub fn new() -> (r: WoodcuttingSkill)
        ensures
            r.xp == 0,
            r.level == 1,
            skill_consistent(r.xp as nat, r.level as nat),
    {
        proof {
            assert(xp_threshold(2) == 100) by {
                reveal_with_fuel(xp_threshold, 3);
            }
        }
        WoodcuttingSkill { xp: 0, level: 1 }
    }

    /// Adds experience, then raises the level one step at a time while the
    /// experience reaches the next level's threshold.
    pub fn add_xp(&mut self, amount: u32)
        requires
            old(self).xp + amount <= u32::MAX,
            exists|l: nat|
                l >= old(self).level && old(self).xp + amount < #[trigger] xp_threshold(l + 1)
                    && xp_threshold(l + 1) <= u32::MAX,
        ensures
            final(self).xp == old(self).xp + amount,
            final(self).level >= old(self).level,
            final(self).xp < xp_threshold((final(self).level + 1) as nat),
            forall|l: nat|
                old(self).level <= l < final(self).level ==> final(self).xp >= #[trigger]
                    xp_threshold(l + 1),
            skill_consistent(old(self).xp as nat, old(self).level as nat) ==> skill_consistent(
                final(self).xp as nat,
                final(self).level as nat,
            ),
    {
        let ghost witness = choose|l: nat|
            l >= old(self).level && old(self).xp + amount < #[trigger] xp_threshold(l + 1)
                && xp_threshold(l + 1) <= u32::MAX;
        self.xp = self.xp + amount;
        let ghost start = self.level;
        loop
            invariant
                start == old(self).level,
                self.xp == old(self).xp + amount,
                start <= self.level <= witness,
                self.xp < xp_threshold(witness + 1),
                xp_threshold(witness + 1) <= u32::MAX,
                forall|l: nat| start <= l < self.level ==> self.xp >= #[trigger] xp_threshold(l + 1),
            ensures
                self.xp < xp_threshold((self.level + 1) as nat),
            decreases witness - self.level,
        {
            proof {
                lemma_xp_threshold_monotonic(self.level as nat + 1, witness + 1);
            }
            let next = self.xp_for_next_level();
            if self.xp < next {
                break;
            }
            assert(self.level < witness);
            self.level = self.level + 1;
        }
        proof {
            if skill_consistent(old(self).xp as nat, old(self).level as nat) {
                if self.level > start {
                    assert(self.xp >= xp_threshold((self.level - 1) as nat + 1));
                } else {
                    lemma_xp_threshold_monotonic(old(self).xp as nat, old(self).xp as nat);
                }
            }
        }
    }

    /// Experience needed to reach `level` from nothing.
    pub fn xp_for_level(level: u32) -> (r: u32)
        requires
            xp_threshold(level as nat) <= u32::MAX,
        ensures
            r == xp_threshold(level as nat),
    {
        if level <= 1 {
            return 0;
        }
        let mut total: u32 = 0;
        let mut l: u32 = 2;
        while l <= level
            invariant
                2 <= l <= level + 1,
                level >= 2,
                total == xp_threshold((l - 1) as nat),
                xp_threshold(level as nat) <= u32::MAX,
            decreases level + 1 - l,
        {
            proof {
                lemma_xp_threshold_monotonic(l as nat, level as nat);
            }
            total = total + (75 * (l - 1) + 25);
            l = l + 1;
        }
        total
    }

    /// Experience at which the next level is reached.
    pub fn xp_for_next_level(&self) -> (r: u32)
        requires
            self.level < u32::MAX,
            xp_threshold((self.level + 1) as nat) <= u32::MAX,
        ensures
            r == xp_threshold((self.level + 1) as nat),
    {
        Self::xp_for_level(self.level + 1)
    }

    /// Experience gained since the current level was reached.
    pub fn xp_in_current_level(&self) -> (r: u32)
        requires
            xp_threshold(self.level as nat) <= self.xp,
        ensures
            r == self.xp - xp_threshold(self.level as nat),
    {
        self.xp - Self::xp_for_level(self.level)
    }

    /// Experience between the current level's threshold and the next one's.
    pub fn xp_needed_for_next(&self) -> (r: u32)
        requires
            self.level < u32::MAX,
            xp_threshold((self.level + 1) as nat) <= u32::MAX,
        ensures
            r == xp_threshold((self.level + 1) as nat) - xp_threshold(self.level as nat),
    {
        proof {
            lemma_xp_threshold_monotonic(self.level as nat, (self.level + 1) as nat);
        }
        self.xp_for_next_level() - Self::xp_for_level(self.level)
    }
}

} // verus!
