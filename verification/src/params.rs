use vstd::prelude::*;
use crate::errors::TraverseVErr;

verus! {

/// Parameters of a TraverseV instance. A value of this type always holds
/// costs in their accepted ranges.
#[derive(Clone, Copy)]
pub struct Params {
    m_cost: u32,
    t_cost: u32,
    e_cost: u32,
    n_cost: u32,
}

/// Whether four costs are all in their accepted ranges: memory at least 2
/// blocks, at least one fill pass and one evaluation round, and a
/// difficulty between 1 and 255 bits.
pub open spec fn valid_costs(m_cost: u32, t_cost: u32, e_cost: u32, n_cost: u32) -> bool {
    &&& m_cost >= 2
    &&& t_cost >= 1
    &&& e_cost >= 1
    &&& 1 <= n_cost <= 255
}

impl Params {
    /// Default memory cost `m`, in 1 KiB blocks.
    pub const DEFAULT_M: u32 = 19 * 1024;

    /// Default time cost (number of memory fill passes) `t`.
    pub const DEFAULT_T: u32 = 3;

    /// Default number of evaluation mixing rounds `e`.
    pub const DEFAULT_E: u32 = 8;

    /// Default proof-of-work difficulty `n`, in leading zero bits.
    pub const DEFAULT_N: u32 = 20;

    const MIN_M: u32 = 2;

    const MIN_T: u32 = 1;

    const MIN_E: u32 = 1;

    const MIN_N: u32 = 1;

    const MAX_N: u32 = 255;

    #[verifier::type_invariant]
    pub open spec fn costs_in_range(self) -> bool {
        valid_costs(self.spec_m_cost(), self.spec_t_cost(), self.spec_e_cost(), self.spec_n_cost())
    }

    pub closed spec fn spec_m_cost(&self) -> u32 {
        self.m_cost
    }

    pub closed spec fn spec_t_cost(&self) -> u32 {
        self.t_cost
    }

    pub closed spec fn spec_e_cost(&self) -> u32 {
        self.e_cost
    }

    pub closed spec fn spec_n_cost(&self) -> u32 {
        self.n_cost
    }

    /// Creates new parameters, or the error of the first cost, in the order
    /// memory, time, evaluation rounds, difficulty, that falls outside its
    /// accepted range.
    pub fn new(m_cost: u32, t_cost: u32, e_cost: u32, n_cost: u32) -> (r: Result<Self, TraverseVErr>)
        ensures
            m_cost < 2 ==> r == Err::<Params, TraverseVErr>(TraverseVErr::MemoryTooSmall),
            m_cost >= 2 && t_cost < 1 ==> r == Err::<Params, TraverseVErr>(TraverseVErr::TimeTooSmall),
            m_cost >= 2 && t_cost >= 1 && e_cost < 1 ==> r == Err::<Params, TraverseVErr>(
                TraverseVErr::EvaluationTooFew,
            ),
            m_cost >= 2 && t_cost >= 1 && e_cost >= 1 && n_cost < 1 ==> r == Err::<Params, TraverseVErr>(
                TraverseVErr::DifficultyTooLow,
            ),
            m_cost >= 2 && t_cost >= 1 && e_cost >= 1 && n_cost >= 1 && n_cost > 255 ==> r == Err::<
                Params,
                TraverseVErr,
            >(TraverseVErr::DifficultyTooHigh),
            r is Ok <==> valid_costs(m_cost, t_cost, e_cost, n_cost),
            r matches Ok(p) ==> {
                &&& p.spec_m_cost() == m_cost
                &&& p.spec_t_cost() == t_cost
                &&& p.spec_e_cost() == e_cost
                &&& p.spec_n_cost() == n_cost
            },
    {
        if m_cost < Self::MIN_M {
            return Err(TraverseVErr::MemoryTooSmall);
        }
        if t_cost < Self::MIN_T {
            return Err(TraverseVErr::TimeTooSmall);
        }
        if e_cost < Self::MIN_E {
            return Err(TraverseVErr::EvaluationTooFew);
        }
        if n_cost < Self::MIN_N {
            return Err(TraverseVErr::DifficultyTooLow);
        }
        if n_cost > Self::MAX_N {
            return Err(TraverseVErr::DifficultyTooHigh);
        }
        Ok(Params { m_cost, t_cost, e_cost, n_cost })
    }

    /// Memory size in KiB (1024-byte blocks).
    #[verifier::when_used_as_spec(spec_m_cost)]
    pub fn m_cost(&self) -> (r: u32)
        ensures
            r == self.spec_m_cost(),
    {
        self.m_cost
    }

    /// Number of memory fill iterations.
    #[verifier::when_used_as_spec(spec_t_cost)]
    pub fn t_cost(&self) -> (r: u32)
        ensures
            r == self.spec_t_cost(),
    {
        self.t_cost
    }

    /// Number of sequential dependency mixing rounds.
    #[verifier::when_used_as_spec(spec_e_cost)]
    pub fn e_cost(&self) -> (r: u32)
        ensures
            r == self.spec_e_cost(),
    {
        self.e_cost
    }

    /// Proof-of-work difficulty.
    #[verifier::when_used_as_spec(spec_n_cost)]
    pub fn n_cost(&self) -> (r: u32)
        ensures
            r == self.spec_n_cost(),
    {
        self.n_cost
    }
}

impl Default for Params {
    /// The default parameters: `DEFAULT_M`, `DEFAULT_T`, `DEFAULT_E`,
    /// `DEFAULT_N`.
    fn default() -> (p: Self)
        ensures
            p.spec_m_cost() == Params::DEFAULT_M,
            p.spec_t_cost() == Params::DEFAULT_T,
            p.spec_e_cost() == Params::DEFAULT_E,
            p.spec_n_cost() == Params::DEFAULT_N,
    {
        Params { m_cost: Self::DEFAULT_M, t_cost: Self::DEFAULT_T, e_cost: Self::DEFAULT_E, n_cost: Self::DEFAULT_N }
    }
}

} // verus!
