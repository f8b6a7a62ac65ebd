use vstd::prelude::*;
use crate::mapping::{expand_action, expand_action_spec, expand_walk, lemma_expand_walk_shape,
    safe_seat_spec};
use crate::matrix::{inv_applied, inv_fits, sigma_applied, sigma_fits, trace_fits, trace_val,
    BurauMatrix};
use crate::poly::LaurentPoly;
use crate::types::{Action, ActionType, Generator, Seat};

verus! {

/// Per-seat metrics for individual participant tracking.
///
/// The complexity is the seat's diagonal entry of the shared Burau matrix at
/// the moment of the seat's last update, kept as an exact polynomial; its
/// complex modulus at the session's parameter is the display value.
#[derive(Debug, Clone)]
pub struct PlayerMetrics {
    pub name: String,
    pub writhe: i32,
    pub complexity: LaurentPoly,
}

/// The contribution of a generator to a writhe counter: `+1` for an
/// overcrossing, `-1` for an undercrossing.
pub open spec fn gen_sign(g: Generator) -> int {
    match g {
        Generator::Sigma(_) => 1,
        Generator::InverseSigma(_) => -1,
    }
}

/// The per-seat entry is well-formed with respect to the given crossing
/// count.
pub open spec fn metrics_ok(m: PlayerMetrics, cc: int) -> bool {
    &&& -cc <= m.writhe as int <= cc
    &&& m.complexity.wf()
}

/// Trait for incremental updates to fingerprint state, one generator at a
/// time; the implementing type states its own contract through the two spec
/// functions.
pub trait IncrementalUpdate: Sized {
    /// What the update requires of the state before the call.
    spec fn update_req(pre: Self, g: Generator) -> bool;

    /// How the state after the call relates to the state before it.
    spec fn update_ens(pre: Self, post: Self, g: Generator) -> bool;

    /// Updates the state with a new generator.
    fn update(&mut self, g: &Generator)
        requires
            Self::update_req(*old(self), *g),
        ensures
            Self::update_ens(*old(self), *final(self), *g),
    ;
}

/// Fingerprint state for braid invariants: instant integer counters, the
/// exact Burau matrix representation, a placeholder slot for the slow
/// polynomial invariant, and per-seat metrics.
#[derive(Debug, Clone)]
pub struct FingerprintState {
    /// Net signed crossing count.
    pub writhe: i32,
    /// Total number of crossings processed since the last reset.
    pub crossing_count: usize,
    /// Exact Burau matrix representation (`dimension` x `dimension`).
    pub burau_matrix: BurauMatrix,
    /// Dimension of the braid: the number of seats.
    pub dimension: usize,
    /// Slot for a slow polynomial invariant, computed on demand only; the
    /// engine itself never fills it.
    pub jones_poly_cache: Option<String>,
    /// Per-seat metrics, indexed by seat number minus one.
    pub player_stats: Vec<Option<PlayerMetrics>>,
}

impl FingerprintState {
    /// Well-formed: the matrix is square of the session's dimension, the
    /// per-seat table has one slot per seat, and every writhe counter is
    /// bounded by the crossing count.
    pub open spec fn wf(&self) -> bool {
        &&& self.burau_matrix.wf()
        &&& self.burau_matrix.dim == self.dimension
        &&& self.player_stats@.len() == self.dimension
        &&& -(self.crossing_count as int) <= self.writhe as int <= self.crossing_count as int
        &&& forall|s: int|
            0 <= s < self.dimension ==> match #[trigger] self.player_stats@[s] {
                Some(m) => metrics_ok(m, self.crossing_count as int),
                None => true,
            }
    }

    /// The state is freshly constructed or freshly reset: zero counters,
    /// identity matrix, no per-seat entries.
    pub open spec fn is_fresh(&self) -> bool {
        &&& self.writhe == 0
        &&& self.crossing_count == 0
        &&& self.burau_matrix.is_identity_spec()
        &&& forall|s: int| 0 <= s < self.dimension ==> (#[trigger] self.player_stats@[s]) is None
    }
}

/// How one generator changes the Burau matrix: an index outside
/// `[1, dimension-1]` is a silent no-op, and so is an update whose exact
/// result would leave the representable coefficient range.
pub open spec fn matrix_effect(pre: FingerprintState, post: FingerprintState, g: Generator) -> bool {
    let k = g.index_spec() as int;
    if 1 <= k && k < pre.dimension {
        match g {
            Generator::Sigma(_) => if sigma_fits(pre.burau_matrix, k) {
                sigma_applied(post.burau_matrix, pre.burau_matrix, k)
            } else {
                post.burau_matrix == pre.burau_matrix
            },
            Generator::InverseSigma(_) => if inv_fits(pre.burau_matrix, k) {
                inv_applied(post.burau_matrix, pre.burau_matrix, k)
            } else {
                post.burau_matrix == pre.burau_matrix
            },
        }
    } else {
        post.burau_matrix == pre.burau_matrix
    }
}

/// Everything `update` does: the writhe moves by the generator's sign, the
/// crossing count always grows by one — even when the matrix update is a
/// no-op for an out-of-range index, a deliberate divergence kept from the
/// engine's observable behaviour — and the matrix evolves as `matrix_effect`
/// says.
pub open spec fn core_effect(pre: FingerprintState, post: FingerprintState, g: Generator) -> bool {
    &&& post.dimension == pre.dimension
    &&& post.jones_poly_cache == pre.jones_poly_cache
    &&& post.crossing_count == pre.crossing_count + 1
    &&& post.writhe as int == pre.writhe as int + gen_sign(g)
    &&& matrix_effect(pre, post, g)
}

/// The full effect of `update`: the core effect with the per-seat table left
/// alone.
pub open spec fn update_effect(pre: FingerprintState, post: FingerprintState, g: Generator) -> bool {
    &&& core_effect(pre, post, g)
    &&& post.player_stats == pre.player_stats
}

impl IncrementalUpdate for FingerprintState {
    open spec fn update_req(pre: FingerprintState, g: Generator) -> bool {
        &&& pre.wf()
        &&& pre.crossing_count < 0x7FFF_FFFF
    }

    open spec fn update_ens(pre: FingerprintState, post: FingerprintState, g: Generator) -> bool {
        &&& post.wf()
        &&& update_effect(pre, post, g)
    }

    /// Updates the fingerprint state with a new generator: writhe by the
    /// generator's sign, crossing count by one, and the Burau matrix by the
    /// generator's elementary matrix.
    fn update(&mut self, g: &Generator) {
        match g {
            Generator::Sigma(k) => {
                self.writhe = self.writhe + 1;
                self.burau_matrix.apply_sigma(*k);
            },
            Generator::InverseSigma(k) => {
                self.writhe = self.writhe - 1;
                self.burau_matrix.apply_inverse_sigma(*k);
            },
        }
        self.crossing_count = self.crossing_count + 1;
        proof {
            assert forall|s: int| 0 <= s < self.dimension implies match #[trigger] self
                .player_stats@[s] {
                Some(m) => metrics_ok(m, self.crossing_count as int),
                None => true,
            } by {
                assert(self.player_stats@[s] == old(self).player_stats@[s]);
            }
        }
    }
}

impl FingerprintState {
    /// Creates a new fingerprint state with the Burau matrix at identity,
    /// zero counters and an empty per-seat table.
    pub fn new(dimension: usize) -> (s: FingerprintState)
        requires
            dimension <= 0xFFFF_FFFF,
        ensures
            s.wf(),
            s.dimension == dimension,
            s.is_fresh(),
            s.jones_poly_cache is None,
    {
        let burau_matrix = BurauMatrix::identity(dimension);
        let mut player_stats: Vec<Option<PlayerMetrics>> = Vec::new();
        let mut i: usize = 0;
        while i < dimension
            invariant
                i <= dimension,
                player_stats@.len() == i,
                forall|s: int| 0 <= s < i ==> (#[trigger] player_stats@[s]) is None,
            decreases dimension - i,
        {
            player_stats.push(None);
            i = i + 1;
        }
        FingerprintState {
            writhe: 0,
            crossing_count: 0,
            burau_matrix,
            dimension,
            jones_poly_cache: None,
            player_stats,
        }
    }

    /// Creates a new fingerprint state with the default dimension of nine
    /// seats.
    pub fn with_default_dimension() -> (s: FingerprintState)
        ensures
            s.wf(),
            s.dimension == 9,
            s.is_fresh(),
            s.jones_poly_cache is None,
    {
        FingerprintState::new(9)
    }

    /// Resets the state: counters to zero, matrix to identity, per-seat
    /// table cleared; the dimension is unchanged, whatever came before.
    pub fn reset(&mut self)
        requires
            old(self).wf(),
        ensures
            final(self).wf(),
            final(self).dimension == old(self).dimension,
            final(self).jones_poly_cache == old(self).jones_poly_cache,
            final(self).is_fresh(),
    {
        self.writhe = 0;
        self.crossing_count = 0;
        self.burau_matrix = BurauMatrix::identity(self.dimension);
        let dimension = self.dimension;
        let mut player_stats: Vec<Option<PlayerMetrics>> = Vec::new();
        let mut i: usize = 0;
        while i < dimension
            invariant
                i <= dimension,
                player_stats@.len() == i,
                forall|s: int| 0 <= s < i ==> (#[trigger] player_stats@[s]) is None,
            decreases dimension - i,
        {
            player_stats.push(None);
            i = i + 1;
        }
        self.player_stats = player_stats;
    }

    /// Returns the dimension of the braid.
    pub fn dimension(&self) -> (d: usize)
        ensures
            d == self.dimension,
    {
        self.dimension
    }

    /// Returns the net signed crossing count.
    pub fn writhe(&self) -> (w: i32)
        ensures
            w == self.writhe,
    {
        self.writhe
    }

    /// Returns the total crossing count since the last reset.
    pub fn crossing_count(&self) -> (c: usize)
        ensures
            c == self.crossing_count,
    {
        self.crossing_count
    }

    /// The exact trace of the Burau matrix, as a Laurent polynomial in the
    /// session parameter `t`; its complex modulus at the session's
    /// unit-circle value of `t` is the trace-magnitude display metric. At
    /// the identity matrix the trace is the constant `dimension`.
    pub fn burau_trace(&self) -> (r: Option<LaurentPoly>)
        requires
            self.wf(),
        ensures
            match r {
                Some(p) => {
                    &&& p.wf()
                    &&& trace_fits(self.burau_matrix)
                    &&& forall|e: int| #[trigger] p.coeff(e) == trace_val(self.burau_matrix, e)
                },
                None => !trace_fits(self.burau_matrix),
            },
    {
        self.burau_matrix.trace()
    }

    /// Returns the per-seat metrics for a 1-based seat, if that seat has
    /// been tracked since the last reset.
    pub fn seat_metrics(&self, seat: usize) -> (r: Option<&PlayerMetrics>)
        requires
            self.wf(),
        ensures
            match r {
                Some(m) => 1 <= seat <= self.dimension && self.player_stats@[seat - 1] == Some(*m),
                None => seat < 1 || seat > self.dimension || self.player_stats@[seat - 1] is None,
            },
    {
        if seat == 0 || seat > self.dimension {
            return None;
        }
        match &self.player_stats[seat - 1] {
            Some(m) => Some(m),
            None => None,
        }
    }
}

/// How `update_for_seat` changes the per-seat table: a seat outside
/// `[1, dimension]` changes nothing — and in particular creates no entry —
/// and otherwise exactly the seat's slot is written: its writhe moves by the
/// generator's sign, a non-empty name always overwrites the stored one, and
/// the complexity becomes the seat's diagonal entry of the matrix after the
/// global update.
pub open spec fn seat_stats_effect(
    pre: FingerprintState,
    post: FingerprintState,
    g: Generator,
    seat: int,
    name: Seq<char>,
) -> bool {
    if seat < 1 || seat > pre.dimension {
        post.player_stats == pre.player_stats
    } else {
        let i = seat - 1;
        &&& post.player_stats@.len() == pre.player_stats@.len()
        &&& forall|j: int|
            0 <= j < pre.player_stats@.len() && j != i ==> #[trigger] post.player_stats@[j]
                == pre.player_stats@[j]
        &&& match post.player_stats@[i] {
            Some(m) => {
                &&& m.writhe as int == (match pre.player_stats@[i] {
                    Some(m0) => m0.writhe as int,
                    None => 0,
                }) + gen_sign(g)
                &&& m.name@ == (match pre.player_stats@[i] {
                    Some(m0) => if name.len() > 0 {
                        name
                    } else {
                        m0.name@
                    },
                    None => name,
                })
                &&& m.complexity.wf()
                &&& forall|e: int|
                    #[trigger] m.complexity.coeff(e) == post.burau_matrix.at(i, i, e)
            },
            None => false,
        }
    }
}

impl FingerprintState {
    /// Updates the global state with a generator and tracks per-seat
    /// metrics for the seat that initiated the action.
    pub fn update_for_seat(&mut self, gen: &Generator, seat: usize, name: String)
        requires
            old(self).wf(),
            old(self).crossing_count < 0x7FFF_FFFF,
        ensures
            final(self).wf(),
            core_effect(*old(self), *final(self), *gen),
            seat_stats_effect(*old(self), *final(self), *gen, seat as int, name@),
    {
        self.update(gen);
        if seat == 0 || seat > self.dimension {
            return ;
        }
        let idx = seat - 1;
        let w0: i32 = match &self.player_stats[idx] {
            Some(m) => m.writhe,
            None => 0,
        };
        let w_new: i32 = match gen {
            Generator::Sigma(_) => w0 + 1,
            Generator::InverseSigma(_) => w0 - 1,
        };
        let complexity = self.burau_matrix.entry(idx, idx).duplicate();
        let name_empty = name.as_str().is_empty();
        let new_name: String = if !name_empty {
            name
        } else {
            match &self.player_stats[idx] {
                Some(m) => m.name.clone(),
                None => name,
            }
        };
        let entry = Some(PlayerMetrics { name: new_name, writhe: w_new, complexity });
        self.player_stats[idx] = entry;
        proof {
            assert forall|s: int| 0 <= s < self.dimension implies match #[trigger] self
                .player_stats@[s] {
                Some(m) => metrics_ok(m, self.crossing_count as int),
                None => true,
            } by {
                if s != idx {
                    assert(self.player_stats@[s] == old(self).player_stats@[s]);
                }
            }
        }
    }
}

/// The state has been stepped once per generator of the word, in order, each
/// step as `update_effect` says.
pub open spec fn updates_chain(
    pre: FingerprintState,
    post: FingerprintState,
    gens: Seq<Generator>,
) -> bool
    decreases gens.len(),
{
    if gens.len() == 0 {
        post == pre
    } else {
        exists|mid: FingerprintState|
            {
                &&& #[trigger] update_effect(pre, mid, gens[0])
                &&& mid.wf()
                &&& updates_chain(mid, post, gens.skip(1))
            }
    }
}

/// Extending a chain of updates by one more generator.
proof fn lemma_chain_snoc(
    pre: FingerprintState,
    mid: FingerprintState,
    post: FingerprintState,
    gens: Seq<Generator>,
    g: Generator,
)
    requires
        updates_chain(pre, mid, gens),
        mid.wf(),
        post.wf(),
        update_effect(mid, post, g),
    ensures
        updates_chain(pre, post, gens.push(g)),
    decreases gens.len(),
{
    if gens.len() == 0 {
        assert(mid == pre);
        assert(gens.push(g)[0] == g);
        assert(gens.push(g).skip(1) =~= Seq::<Generator>::empty());
        assert(update_effect(pre, post, gens.push(g)[0]));
        assert(updates_chain(post, post, gens.push(g).skip(1)));
    } else {
        let mid1 = choose|m: FingerprintState|
            {
                &&& #[trigger] update_effect(pre, m, gens[0])
                &&& m.wf()
                &&& updates_chain(m, mid, gens.skip(1))
            };
        lemma_chain_snoc(mid1, mid, post, gens.skip(1), g);
        assert(gens.push(g).skip(1) =~= gens.skip(1).push(g));
        assert(gens.push(g)[0] == gens[0]);
        assert(update_effect(pre, mid1, gens.push(g)[0]));
        assert(updates_chain(mid1, post, gens.push(g).skip(1)));
    }
}

impl FingerprintState {
    /// Processes an action: a reset action restores the fresh state and
    /// returns zero; any other action is expanded into generators — moving
    /// from `current_seat` when one is supplied, else from the action's own
    /// seat — and each generator is applied in order. Returns the number of
    /// generators applied.
    pub fn process_action(&mut self, action: &Action, current_seat: Option<Seat>) -> (n: usize)
        requires
            old(self).wf(),
            old(self).crossing_count + old(self).dimension <= 0x7FFF_FFFF,
        ensures
            final(self).wf(),
            final(self).dimension == old(self).dimension,
            action.action_type is Reset ==> {
                &&& n == 0
                &&& final(self).is_fresh()
                &&& final(self).jones_poly_cache == old(self).jones_poly_cache
            },
            !(action.action_type is Reset) ==> {
                let from = match current_seat {
                    Some(s) => s,
                    None => action.seat,
                };
                let gens = expand_action_spec(from, action.seat, old(self).dimension as int);
                &&& n == gens.len()
                &&& updates_chain(*old(self), *final(self), gens)
            },
    {
        if matches!(action.action_type, ActionType::Reset) {
            self.reset();
            return 0;
        }
        let from_seat = match current_seat {
            Some(s) => s,
            None => action.seat,
        };
        let generators = expand_action(from_seat, action.seat, self.dimension);
        proof {
            if from_seat.0 != 0 && action.seat.0 != 0 && self.dimension > 0 {
                let f = safe_seat_spec(from_seat.0 as int, self.dimension as int);
                let t = safe_seat_spec(action.seat.0 as int, self.dimension as int);
                assert(1 <= f <= self.dimension);
                assert(1 <= t <= self.dimension);
                lemma_expand_walk_shape(f, t);
                assert(expand_walk(f, t).len() <= self.dimension - 1);
            }
            assert(generators@.len() <= old(self).dimension);
            assert(generators@.take(0) =~= Seq::<Generator>::empty());
        }
        let mut i: usize = 0;
        while i < generators.len()
            invariant
                self.wf(),
                i <= generators@.len(),
                generators@.len() <= old(self).dimension,
                old(self).crossing_count + old(self).dimension <= 0x7FFF_FFFF,
                self.crossing_count == old(self).crossing_count + i,
                self.dimension == old(self).dimension,
                updates_chain(*old(self), *self, generators@.take(i as int)),
            decreases generators@.len() - i,
        {
            let ghost pre_step = *self;
            let g = generators[i];
            self.update(&g);
            proof {
                lemma_chain_snoc(
                    *old(self),
                    pre_step,
                    *self,
                    generators@.take(i as int),
                    g,
                );
                assert(generators@.take(i as int + 1) =~= generators@.take(i as int).push(
                    generators@[i as int],
                ));
            }
            i = i + 1;
        }
        proof {
            assert(generators@.take(generators@.len() as int) =~= generators@);
        }
        generators.len()
    }
}

impl Default for FingerprintState {
    /// A fresh state with the default dimension.
    fn default() -> (s: FingerprintState)
        ensures
            s.wf(),
            s.dimension == 9,
            s.is_fresh(),
    {
        FingerprintState::with_default_dimension()
    }
}

/// The inverse of a generator: the crossing of the opposite sign at the
/// same index.
pub open spec fn gen_inverse(g: Generator) -> Generator {
    match g {
        Generator::Sigma(k) => Generator::InverseSigma(k),
        Generator::InverseSigma(k) => Generator::Sigma(k),
    }
}

/// A freshly constructed or freshly reset state has writhe zero, crossing
/// count zero, and a Burau trace equal to the constant `dimension` — so the
/// trace magnitude at the session's unit-circle parameter is exactly the
/// dimension.
pub proof fn lemma_fresh_trace(s: FingerprintState)
    requires
        s.wf(),
        s.is_fresh(),
    ensures
        s.writhe == 0,
        s.crossing_count == 0,
        trace_fits(s.burau_matrix),
        forall|e: int| #[trigger] trace_val(s.burau_matrix, e) == if e == 0 {
            s.dimension as int
        } else {
            0
        },
{
    crate::matrix::lemma_identity_trace(s.burau_matrix);
}

/// Applying a generator and then its inverse returns the Burau matrix to
/// exactly its prior value and the writhe to its prior value, while the
/// crossing count grows by two. The one proviso: the first application must
/// not have been suppressed by the representable-range guard, which real
/// sessions never reach.
pub proof fn lemma_update_round_trip(
    pre: FingerprintState,
    mid: FingerprintState,
    post: FingerprintState,
    g: Generator,
)
    requires
        pre.wf(),
        update_effect(pre, mid, g),
        update_effect(mid, post, gen_inverse(g)),
        (1 <= g.index_spec() && g.index_spec() < pre.dimension) ==> match g {
            Generator::Sigma(_) => sigma_fits(pre.burau_matrix, g.index_spec() as int),
            Generator::InverseSigma(_) => inv_fits(pre.burau_matrix, g.index_spec() as int),
        },
    ensures
        post.writhe == pre.writhe,
        post.crossing_count == pre.crossing_count + 2,
        post.dimension == pre.dimension,
        post.burau_matrix.dim == pre.burau_matrix.dim,
        forall|i: int, j: int, e: int|
            0 <= i < pre.burau_matrix.dim && 0 <= j < pre.burau_matrix.dim
                ==> #[trigger] post.burau_matrix.at(i, j, e) == pre.burau_matrix.at(i, j, e),
{
    let k = g.index_spec() as int;
    if 1 <= k && k < pre.dimension {
        match g {
            Generator::Sigma(_) => {
                assert(sigma_applied(mid.burau_matrix, pre.burau_matrix, k));
                crate::matrix::lemma_inverse_fits_after_sigma(
                    pre.burau_matrix,
                    mid.burau_matrix,
                    k,
                );
                assert(inv_applied(post.burau_matrix, mid.burau_matrix, k));
                crate::matrix::lemma_sigma_then_inverse_identity(
                    pre.burau_matrix,
                    mid.burau_matrix,
                    post.burau_matrix,
                    k,
                );
            },
            Generator::InverseSigma(_) => {
                assert(inv_applied(mid.burau_matrix, pre.burau_matrix, k));
                crate::matrix::lemma_sigma_fits_after_inverse(
                    pre.burau_matrix,
                    mid.burau_matrix,
                    k,
                );
                assert(sigma_applied(post.burau_matrix, mid.burau_matrix, k));
                crate::matrix::lemma_inverse_then_sigma_identity(
                    pre.burau_matrix,
                    mid.burau_matrix,
                    post.burau_matrix,
                    k,
                );
            },
        }
    } else {
        assert(post.burau_matrix == pre.burau_matrix);
    }
}

/// The signed crossing total of a word: `+1` per overcrossing, `-1` per
/// undercrossing.
pub open spec fn word_writhe(gens: Seq<Generator>) -> int
    decreases gens.len(),
{
    if gens.len() == 0 {
        0
    } else {
        gen_sign(gens[0]) + word_writhe(gens.skip(1))
    }
}

/// Along a chain of updates the writhe moves by exactly the word's signed
/// total and the crossing count by exactly the word's length — whatever the
/// generators' indices, in range or not.
pub proof fn lemma_chain_counters(
    pre: FingerprintState,
    post: FingerprintState,
    gens: Seq<Generator>,
)
    requires
        updates_chain(pre, post, gens),
    ensures
        post.writhe as int == pre.writhe as int + word_writhe(gens),
        post.crossing_count == pre.crossing_count + gens.len(),
        post.dimension == pre.dimension,
    decreases gens.len(),
{
    if gens.len() > 0 {
        let mid = choose|m: FingerprintState|
            {
                &&& #[trigger] update_effect(pre, m, gens[0])
                &&& m.wf()
                &&& updates_chain(m, post, gens.skip(1))
            };
        lemma_chain_counters(mid, post, gens.skip(1));
    }
}

} // verus!
