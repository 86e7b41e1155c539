use vstd::prelude::*;

verus! {

/// Denominator of the per-mille rates (`rho_per_mille`, `prob_random_per_mille`).
pub const RATE_DEN: u64 = 1000;

/// Largest admitted problem dimension (classes, rooms, periods, teachers,
/// student groups, ants).  Together with `Q_MAX` and `TAU_MAX_LIMIT` it keeps
/// every fitness sum and pheromone product inside the machine integer ranges.
pub const DIM_MAX: usize = 1000;

/// Largest admitted deposit scale `q`.
pub const Q_MAX: u64 = 1_000_000_000_000;

/// Largest admitted pheromone ceiling `tau_max`.
pub const TAU_MAX_LIMIT: u64 = 1_000_000_000_000;

/// Largest admitted weight exponent (`alpha`, `beta`).
pub const EXP_MAX: u32 = 8;

/// Immutable run configuration for one solver instance.
///
/// Rates and pheromone quantities are scaled integers: `rho_per_mille` and
/// `prob_random_per_mille` are thousandths of one, and `q`, `tau_min`,
/// `tau_max` share one arbitrary pheromone unit.
#[derive(Clone, Copy, Debug)]
pub struct AcoParameters {
    pub num_of_ants: usize,
    pub num_of_classes: usize,
    pub num_of_rooms: usize,
    pub num_of_periods: usize,
    pub num_of_day_lengths: usize,
    pub num_of_teachers: usize,
    pub num_of_students: usize,
    /// Deposit scale `Q`.
    pub q: u64,
    /// Pheromone exponent in the sampling weight.
    pub alpha: u32,
    /// Heuristic exponent in the sampling weight.
    pub beta: u32,
    /// Evaporation rate `rho`, in thousandths (`0 < rho < 1`).
    pub rho_per_mille: u64,
    pub max_iterations: u64,
    pub tau_min: u64,
    pub tau_max: u64,
    /// Probability of a uniformly random move, in thousandths.
    pub prob_random_per_mille: u64,
    /// Stagnation limit: iterations without improvement before a pheromone reset.
    pub stagnation_limit: u64,
}

impl AcoParameters {
    /// Well-formedness of a run configuration: the period grid is divided
    /// evenly into days, the rates are proper fractions, and every dimension
    /// is small enough that the fitness and weight arithmetic cannot overflow.
    pub open spec fn wf(&self) -> bool {
        &&& 1 <= self.num_of_day_lengths
        &&& 1 <= self.num_of_periods <= DIM_MAX
        &&& self.num_of_periods % self.num_of_day_lengths == 0
        &&& self.num_of_classes <= DIM_MAX
        &&& 1 <= self.num_of_rooms <= DIM_MAX
        &&& self.num_of_teachers <= DIM_MAX
        &&& self.num_of_students <= DIM_MAX
        &&& 1 <= self.num_of_ants <= DIM_MAX
        &&& 1 <= self.q <= Q_MAX
        &&& self.alpha <= EXP_MAX
        &&& self.beta <= EXP_MAX
        &&& 1 <= self.rho_per_mille < RATE_DEN
        &&& self.tau_min <= self.tau_max
        &&& self.tau_max <= TAU_MAX_LIMIT
        &&& self.prob_random_per_mille <= RATE_DEN
    }

    /// Runtime check of `wf`, for hosts that build parameters from
    /// unvalidated data.
    pub fn is_well_formed(&self) -> (r: bool)
        ensures
            r == self.wf(),
    {
        1 <= self.num_of_day_lengths && 1 <= self.num_of_periods && self.num_of_periods <= DIM_MAX
            && self.num_of_periods % self.num_of_day_lengths == 0 && self.num_of_classes <= DIM_MAX
            && 1 <= self.num_of_rooms && self.num_of_rooms <= DIM_MAX && self.num_of_teachers
            <= DIM_MAX && self.num_of_students <= DIM_MAX && 1 <= self.num_of_ants
            && self.num_of_ants <= DIM_MAX && 1 <= self.q && self.q <= Q_MAX && self.alpha
            <= EXP_MAX && self.beta <= EXP_MAX && 1 <= self.rho_per_mille && self.rho_per_mille
            < RATE_DEN && self.tau_min <= self.tau_max && self.tau_max <= TAU_MAX_LIMIT
            && self.prob_random_per_mille <= RATE_DEN
    }
}

} // verus!
