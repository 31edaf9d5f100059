//! An unbounded visit counter.

use vstd::prelude::*;

verus! {

/// The base of one limb, `2^32`.
pub open spec fn limb_base() -> nat {
    0x1_0000_0000
}

/// The number that a little-endian sequence of base-`2^32` limbs denotes.
pub open spec fn limbs_value(limbs: Seq<u32>) -> nat
    decreases limbs.len(),
{
    if limbs.len() == 0 {
        0
    } else {
        limbs[0] as nat + limb_base() * limbs_value(limbs.drop_first())
    }
}

/// A sequence denotes zero exactly when all of its limbs are zero.
pub proof fn lemma_value_zero(limbs: Seq<u32>)
    ensures
        limbs_value(limbs) == 0 <==> (forall|j: int| 0 <= j < limbs.len() ==> limbs[j] == 0),
    decreases limbs.len(),
{
    if limbs.len() > 0 {
        let rest = limbs.drop_first();
        lemma_value_zero(rest);
        assert(forall|j: int| 0 <= j < rest.len() ==> rest[j] == limbs[j + 1]);
        if limbs_value(limbs) == 0 {
            assert(limbs_value(rest) == 0) by (nonlinear_arith)
                requires
                    limbs[0] as nat + 0x1_0000_0000 * limbs_value(rest) == 0,
            ;
            assert forall|j: int| 0 <= j < limbs.len() implies limbs[j] == 0 by {
                if j > 0 {
                    assert(rest[j - 1] == limbs[j]);
                }
            }
        }
        if forall|j: int| 0 <= j < limbs.len() ==> limbs[j] == 0 {
            assert(limbs[0] == 0);
            assert(limbs_value(rest) == 0);
        }
    }
}

/// A sequence denotes one exactly when its lowest limb is one and all the
/// others are zero.
pub proof fn lemma_value_one(limbs: Seq<u32>)
    ensures
        limbs_value(limbs) == 1 <==> (limbs.len() > 0 && limbs[0] == 1 && forall|j: int|
            1 <= j < limbs.len() ==> limbs[j] == 0),
{
    if limbs.len() > 0 {
        let rest = limbs.drop_first();
        lemma_value_zero(rest);
        assert(forall|j: int| 0 <= j < rest.len() ==> rest[j] == limbs[j + 1]);
        if limbs_value(limbs) == 1 {
            assert(limbs_value(rest) == 0 && limbs[0] == 1) by (nonlinear_arith)
                requires
                    limbs[0] as nat + 0x1_0000_0000 * limbs_value(rest) == 1,
            ;
            assert forall|j: int| 1 <= j < limbs.len() implies limbs[j] == 0 by {
                assert(rest[j - 1] == limbs[j]);
            }
        }
        if limbs[0] == 1 && forall|j: int| 1 <= j < limbs.len() ==> limbs[j] == 0 {
            assert(limbs_value(rest) == 0);
        }
    }
}

/// Adding one with a carry: where the first `i` limbs were all at their
/// maximum and are now zero, limb `i` grew by one and the rest is untouched,
/// the number grew by one.
pub proof fn lemma_carry(before: Seq<u32>, after: Seq<u32>, i: int)
    requires
        0 <= i < before.len(),
        after.len() == before.len(),
        forall|j: int| 0 <= j < i ==> before[j] == u32::MAX && after[j] == 0,
        before[i] < u32::MAX,
        after[i] == before[i] + 1,
        forall|j: int| i < j < before.len() ==> after[j] == before[j],
    ensures
        limbs_value(after) == limbs_value(before) + 1,
    decreases i,
{
    let b = before.drop_first();
    let a = after.drop_first();
    if i == 0 {
        assert(a =~= b);
    } else {
        lemma_carry(b, a, i - 1);
        assert(limbs_value(after) == limbs_value(before) + 1) by (nonlinear_arith)
            requires
                limbs_value(after) == 0x1_0000_0000 * limbs_value(a),
                limbs_value(before) == 0xffff_ffff + 0x1_0000_0000 * limbs_value(b),
                limbs_value(a) == limbs_value(b) + 1,
        ;
    }
}

/// Adding one to a number whose limbs are all at their maximum: every limb
/// turns zero and a new highest limb of one is appended.
pub proof fn lemma_carry_out(before: Seq<u32>, after: Seq<u32>)
    requires
        after.len() == before.len() + 1,
        forall|j: int| 0 <= j < before.len() ==> before[j] == u32::MAX && after[j] == 0,
        after[before.len() as int] == 1,
    ensures
        limbs_value(after) == limbs_value(before) + 1,
    decreases before.len(),
{
    let a = after.drop_first();
    if before.len() == 0 {
        assert(a.len() == 0);
        assert(limbs_value(a) == 0);
    } else {
        let b = before.drop_first();
        lemma_carry_out(b, a);
        assert(limbs_value(after) == limbs_value(before) + 1) by (nonlinear_arith)
            requires
                limbs_value(after) == 0x1_0000_0000 * limbs_value(a),
                limbs_value(before) == 0xffff_ffff + 0x1_0000_0000 * limbs_value(b),
                limbs_value(a) == limbs_value(b) + 1,
        ;
    }
}

/// The number that the lowest two limbs denote.
pub open spec fn low_limbs(limbs: Seq<u32>) -> nat {
    let low = if limbs.len() > 0 {
        limbs[0] as nat
    } else {
        0
    };
    let high = if limbs.len() > 1 {
        limbs[1] as nat
    } else {
        0
    };
    low + limb_base() * high
}

/// How often a URL was taken from the frontier. The count has no upper
/// limit: it is kept as little-endian limbs of 32 bits.
#[derive(Clone, Debug)]
pub struct VisitCount {
    limbs: Vec<u32>,
}

impl View for VisitCount {
    type V = nat;

    closed spec fn view(&self) -> nat {
        limbs_value(self.limbs@)
    }
}

impl VisitCount {
    /// The count of a URL that was just seen for the first time.
    pub fn one() -> (count: VisitCount)
        ensures
            count@ == 1,
    {
        let mut limbs: Vec<u32> = Vec::new();
        limbs.push(1);
        proof {
            lemma_value_one(limbs@);
        }
        VisitCount { limbs }
    }

    /// The count that the given limbs denote, lowest limb first.
    pub fn from_limbs(limbs: Vec<u32>) -> (count: VisitCount)
        ensures
            count@ == limbs_value(limbs@),
    {
        VisitCount { limbs }
    }

    /// The limbs of the count, lowest first.
    pub fn limbs(&self) -> (limbs: &Vec<u32>)
        ensures
            limbs_value(limbs@) == self@,
    {
        &self.limbs
    }

    /// Counts one more visit.
    pub fn increment(&mut self)
        ensures
            final(self)@ == old(self)@ + 1,
    {
        let n: usize = self.limbs.len();
        let mut i: usize = 0;
        while i < n
            invariant
                i <= n,
                n == old(self).limbs@.len(),
                self.limbs@.len() == n,
                forall|j: int| 0 <= j < i ==> old(self).limbs@[j] == u32::MAX && self.limbs@[j] == 0,
                forall|j: int| i <= j < n ==> self.limbs@[j] == old(self).limbs@[j],
            decreases n - i,
        {
            let limb: u32 = self.limbs[i];
            if limb < u32::MAX {
                self.limbs.set(i, limb + 1);
                proof {
                    lemma_carry(old(self).limbs@, self.limbs@, i as int);
                }
                return ;
            }
            self.limbs.set(i, 0);
            i += 1;
        }
        self.limbs.push(1);
        proof {
            lemma_carry_out(old(self).limbs@, self.limbs@);
        }
    }

    /// Whether this is the count of a first visit.
    pub fn is_one(&self) -> (first: bool)
        ensures
            first == (self@ == 1),
    {
        proof {
            lemma_value_one(self.limbs@);
        }
        let n: usize = self.limbs.len();
        if n == 0 || self.limbs[0] != 1 {
            return false;
        }
        let mut i: usize = 1;
        while i < n
            invariant
                1 <= i <= n,
                n == self.limbs@.len(),
                forall|j: int| 1 <= j < i ==> self.limbs@[j] == 0,
            decreases n - i,
        {
            if self.limbs[i] != 0 {
                proof {
                    lemma_value_one(self.limbs@);
                }
                return false;
            }
            i += 1;
        }
        true
    }

    /// The count as a machine integer, where it fits into one.
    pub fn to_u64(&self) -> (small: Option<u64>)
        ensures
            small matches Some(v) ==> v == self@,
            small is None <==> self@ > u64::MAX,
    {
        proof {
            lemma_value_two_limbs(self.limbs@);
        }
        let n: usize = self.limbs.len();
        let mut i: usize = 2;
        while i < n
            invariant
                2 <= i,
                n == self.limbs@.len(),
                forall|j: int| 2 <= j < i && j < n ==> self.limbs@[j] == 0,
            decreases n - i,
        {
            if self.limbs[i] != 0 {
                proof {
                    lemma_value_two_limbs(self.limbs@);
                }
                return None;
            }
            i += 1;
        }
        let low: u64 = if n > 0 {
            self.limbs[0] as u64
        } else {
            0
        };
        let high: u64 = if n > 1 {
            self.limbs[1] as u64
        } else {
            0
        };
        Some(low + high * 0x1_0000_0000)
    }
}

/// The lowest two limbs give the number where all higher limbs are zero, and
/// the number exceeds 64 bits where one of them is not.
pub proof fn lemma_value_two_limbs(limbs: Seq<u32>)
    ensures
        (forall|j: int| 2 <= j < limbs.len() ==> limbs[j] == 0) ==> limbs_value(limbs) == low_limbs(
            limbs,
        ),
        (exists|j: int| 2 <= j < limbs.len() && limbs[j] != 0) ==> limbs_value(limbs) > u64::MAX,
{
    if limbs.len() > 0 {
        let r1 = limbs.drop_first();
        assert(limbs_value(limbs) == limbs[0] as nat + limb_base() * limbs_value(r1));
        if r1.len() > 0 {
            let r2 = r1.drop_first();
            assert(r1[0] == limbs[1]);
            assert(limbs_value(r1) == limbs[1] as nat + limb_base() * limbs_value(r2));
            lemma_value_zero(r2);
            assert(forall|j: int| 0 <= j < r2.len() ==> r2[j] == limbs[j + 2]);
            if forall|j: int| 2 <= j < limbs.len() ==> limbs[j] == 0 {
                assert forall|j: int| 0 <= j < r2.len() implies r2[j] == 0 by {
                    assert(r2[j] == limbs[j + 2]);
                }
                assert(limbs_value(r2) == 0);
            }
            if exists|j: int| 2 <= j < limbs.len() && limbs[j] != 0 {
                let j = choose|j: int| 2 <= j < limbs.len() && limbs[j] != 0;
                assert(r2[j - 2] != 0);
                assert(limbs_value(r2) >= 1);
                assert(limbs_value(limbs) > u64::MAX) by (nonlinear_arith)
                    requires
                        limbs_value(limbs) == limbs[0] as nat + 0x1_0000_0000 * limbs_value(r1),
                        limbs_value(r1) == limbs[1] as nat + 0x1_0000_0000 * limbs_value(r2),
                        limbs_value(r2) >= 1,
                ;
            }
        } else {
            assert(limbs_value(r1) == 0);
        }
    }
}

} // verus!
