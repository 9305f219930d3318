use vstd::prelude::*;

verus! {

/// Load base of the single-slot profile: every program is built for this address.
pub const CH2_APP_BASE: u64 = 0x8040_0000;

/// Load base of the first program in the fixed-slot profile.
pub const CH3_APP_BASE: u64 = 0x8040_0000;

/// Distance between two neighbouring programs in the fixed-slot profile.
pub const CH3_APP_STEP: u64 = 0x2_0000;

/// A build profile: which chapter's loader the packaged programs are meant for.
#[derive(Clone, Copy, Debug, PartialEq, Eq, Structural)]
pub enum Profile {
    /// One program at a time, every program at the same base.
    Ch2,
    /// All programs resident at once, each in a slot of its own.
    Ch3,
}

/// Where programs are placed: program `i` is built for `base + i * step`.
#[derive(Clone, Copy, Debug, PartialEq, Eq, Structural)]
pub struct Placement {
    pub base: u64,
    pub step: u64,
}

/// The profile that chapter selector `ch` names, if it names one.
pub open spec fn profile_spec(ch: u8) -> Option<Profile> {
    if ch == 2 {
        Some(Profile::Ch2)
    } else if ch == 3 {
        Some(Profile::Ch3)
    } else {
        None
    }
}

/// The profile of chapter `ch`; `None` for a chapter that has no packaging profile.
pub fn profile_of(ch: u8) -> (r: Option<Profile>)
    ensures
        r == profile_spec(ch),
{
    match ch {
        2 => Some(Profile::Ch2),
        3 => Some(Profile::Ch3),
        _ => None,
    }
}

impl Profile {
    pub open spec fn placement_spec(self) -> Placement {
        match self {
            Profile::Ch2 => Placement { base: CH2_APP_BASE, step: 0 },
            Profile::Ch3 => Placement { base: CH3_APP_BASE, step: CH3_APP_STEP },
        }
    }

    /// The base address and step of this profile.
    pub fn placement(&self) -> (p: Placement)
        ensures
            p == self.placement_spec(),
    {
        match self {
            Profile::Ch2 => Placement { base: CH2_APP_BASE, step: 0 },
            Profile::Ch3 => Placement { base: CH3_APP_BASE, step: CH3_APP_STEP },
        }
    }
}

impl Placement {
    /// The address program `i` is built for, as a mathematical integer.
    pub open spec fn address(self, i: int) -> int {
        self.base + i * self.step
    }

    /// The placement fits `n` programs when the last of them still has a 64-bit address.
    pub open spec fn fits(self, n: int) -> bool {
        n == 0 || self.address(n - 1) <= u64::MAX
    }

    /// The address program `i` is built for; `None` when it does not fit in 64 bits.
    pub fn base_address(&self, i: u64) -> (r: Option<u64>)
        ensures
            self.address(i as int) <= u64::MAX ==> r == Some(self.address(i as int) as u64),
            self.address(i as int) > u64::MAX ==> r.is_none(),
    {
        proof {
            assert(self.step * i == i * self.step) by (nonlinear_arith);
        }
        match self.step.checked_mul(i) {
            Some(off) => self.base.checked_add(off),
            None => None,
        }
    }

    /// The base addresses of programs `0..n`, in order; `None` when the last one does not fit
    /// in 64 bits.
    pub fn assign_bases(&self, n: usize) -> (r: Option<Vec<u64>>)
        ensures
            r.is_some() <==> self.fits(n as int),
            r matches Some(v) ==> v@.len() == n && forall|i: int|
                0 <= i < n ==> #[trigger] v@[i] == self.address(i),
    {
        let mut v: Vec<u64> = Vec::new();
        let mut i: usize = 0;
        while i < n
            invariant
                i <= n,
                v@.len() == i,
                forall|k: int| 0 <= k < i ==> #[trigger] v@[k] == self.address(k),
            decreases n - i,
        {
            match self.base_address(i as u64) {
                Some(a) => v.push(a),
                None => {
                    proof {
                        lemma_address_monotone(*self, i as int, n - 1);
                    }
                    return None;
                },
            }
            i = i + 1;
        }
        proof {
            if n > 0 {
                assert(v@[n - 1] == self.address(n - 1));
            }
        }
        Some(v)
    }
}

/// Addresses never decrease along the program index.
pub proof fn lemma_address_monotone(p: Placement, i: int, j: int)
    requires
        0 <= i <= j,
    ensures
        p.address(i) <= p.address(j),
{
    assert(i * p.step <= j * p.step) by (nonlinear_arith)
        requires
            i <= j,
            p.step >= 0,
    ;
}

/// With step zero every program is placed at the base; with a positive step program `i` is
/// placed at `base + i * step`, for every index the assignment covers.
pub proof fn lemma_placement_policy(p: Placement, n: int, bases: Seq<u64>)
    requires
        bases.len() == n,
        forall|i: int| 0 <= i < n ==> #[trigger] bases[i] == p.address(i),
    ensures
        p.step == 0 ==> forall|i: int| 0 <= i < n ==> #[trigger] bases[i] == p.base,
        p.step > 0 ==> forall|i: int| 0 <= i < n ==> #[trigger] bases[i] == p.base + i * p.step,
{
    assert forall|i: int| 0 <= i < n && p.step == 0 implies #[trigger] bases[i] == p.base by {
        assert(bases[i] == p.address(i));
        assert(i * p.step == 0) by (nonlinear_arith)
            requires
                p.step == 0,
        ;
    }
}

} // verus!
