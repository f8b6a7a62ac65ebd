use vstd::prelude::*;
use vstd::string::StringExecFns;
use crate::invariants::{core_effect, seat_stats_effect, word_writhe, FingerprintState,
    PlayerMetrics};
use crate::mapping::{expand_action, expand_action_spec, expand_walk, lemma_expand_walk_shape,
    safe_seat_spec};
use crate::matrix::{trace_fits, trace_val};
use crate::parser::{find_seat, resolve_effect, ParseError, SeatResolver};
use crate::pokernow::{parse_row, parse_row_spec, PokerNowRow};
use crate::poly::LaurentPoly;
use crate::text::{append_chars, chars_of, dec_digits, push_decimal, string_from_chars};
use crate::types::{Action, ActionType, Generator, Seat};

verus! {

/// The state of one live session: the fingerprint, the identity resolver,
/// the seat the action flow last visited, a step counter, and whether a
/// fold resets the hand.
pub struct ServerState {
    pub fingerprint: FingerprintState,
    pub seat_resolver: SeatResolver,
    pub current_seat: Option<Seat>,
    pub step: usize,
    pub reset_on_fold: bool,
}

impl ServerState {
    pub open spec fn wf(&self) -> bool {
        &&& self.fingerprint.wf()
        &&& self.seat_resolver.wf()
    }

    /// Creates a fresh session state. The dimension is twelve: larger than
    /// the expected table size, which reduces seat-remapping collisions
    /// under participant churn.
    pub fn new(reset_on_fold: bool) -> (s: ServerState)
        ensures
            s.wf(),
            s.fingerprint.dimension == 12,
            s.fingerprint.is_fresh(),
            s.seat_resolver.player_to_seat@.len() == 0,
            s.seat_resolver.next_seat == 1,
            s.current_seat is None,
            s.step == 0,
            s.reset_on_fold == reset_on_fold,
    {
        ServerState {
            fingerprint: FingerprintState::new(12),
            seat_resolver: SeatResolver::new(),
            current_seat: None,
            step: 0,
            reset_on_fold,
        }
    }
}

/// A request to process one textual action line.
pub struct ActionRequest {
    pub action_string: String,
}

/// What one processed action reports: the step number, a display line, the
/// global writhe, the exact Burau trace, and a snapshot of the per-seat
/// metrics. The complex magnitudes shown on a display are computed from the
/// exact polynomials outside the engine.
pub struct FingerprintSummary {
    pub step: usize,
    pub action: String,
    pub writhe: i32,
    pub burau_trace: Option<LaurentPoly>,
    pub players: Vec<(usize, PlayerMetrics)>,
}

/// The display label of an action type.
pub open spec fn action_label(t: ActionType) -> Seq<char> {
    match t {
        ActionType::Fold => "fold"@,
        ActionType::Check => "check"@,
        ActionType::Call => "call"@,
        ActionType::Bet => "bet"@,
        ActionType::Raise => "raise"@,
        ActionType::ReRaise => "reraise"@,
        ActionType::AllIn => "allin"@,
        ActionType::Reset => "reset"@,
    }
}

/// Formats an action type as its display label.
pub fn format_action_type(action_type: ActionType) -> (r: &'static str)
    ensures
        r@ == action_label(action_type),
{
    match action_type {
        ActionType::Fold => "fold",
        ActionType::Check => "check",
        ActionType::Call => "call",
        ActionType::Bet => "bet",
        ActionType::Raise => "raise",
        ActionType::ReRaise => "reraise",
        ActionType::AllIn => "allin",
        ActionType::Reset => "reset",
    }
}

/// The display line for a processed action: seat, label, and amount.
pub open spec fn action_desc(seat: int, t: ActionType, amount: int) -> Seq<char> {
    "Seat "@ + dec_digits(seat) + " "@ + action_label(t) + " ($"@ + dec_digits(amount) + ")"@
}

/// Builds the display line for a processed action.
fn describe_action(action: &Action) -> (r: String)
    requires
        action.seat.0 >= 1,
    ensures
        r@ == action_desc(action.seat.0 as int, action.action_type, action.amount as int),
{
    let mut v = chars_of("Seat ");
    push_decimal(action.seat.value() as u64, &mut v);
    append_chars(&mut v, &chars_of(" "));
    append_chars(&mut v, &chars_of(format_action_type(action.action_type)));
    append_chars(&mut v, &chars_of(" ($"));
    push_decimal(action.amount, &mut v);
    append_chars(&mut v, &chars_of(")"));
    string_from_chars(&v)
}

/// The two metrics values agree field by field.
pub open spec fn metrics_like(a: PlayerMetrics, b: PlayerMetrics) -> bool {
    &&& a.name@ == b.name@
    &&& a.writhe == b.writhe
    &&& a.complexity.lo == b.complexity.lo
    &&& a.complexity.coeffs@ == b.complexity.coeffs@
}

/// The collected player list holds, in seat order, exactly the tracked
/// seats of the per-seat table, each seat number paired with its metrics.
pub open spec fn players_snapshot_ok(
    ps: Seq<(usize, PlayerMetrics)>,
    stats: Seq<Option<PlayerMetrics>>,
) -> bool
    decreases stats.len(),
{
    if stats.len() == 0 {
        ps.len() == 0
    } else {
        match stats.last() {
            Some(m) => {
                &&& ps.len() > 0
                &&& players_snapshot_ok(ps.drop_last(), stats.drop_last())
                &&& ps.last().0 == stats.len()
                &&& metrics_like(ps.last().1, m)
            },
            None => players_snapshot_ok(ps, stats.drop_last()),
        }
    }
}

/// Copies one per-seat metrics value.
fn clone_metrics(m: &PlayerMetrics) -> (r: PlayerMetrics)
    ensures
        metrics_like(r, *m),
{
    PlayerMetrics { name: m.name.clone(), writhe: m.writhe, complexity: m.complexity.duplicate() }
}

/// Collects the tracked seats of the per-seat table, in seat order.
fn collect_players(fp: &FingerprintState) -> (r: Vec<(usize, PlayerMetrics)>)
    ensures
        players_snapshot_ok(r@, fp.player_stats@),
{
    let mut r: Vec<(usize, PlayerMetrics)> = Vec::new();
    let mut i: usize = 0;
    let n = fp.player_stats.len();
    proof {
        assert(fp.player_stats@.take(0) =~= Seq::<Option<PlayerMetrics>>::empty());
    }
    while i < n
        invariant
            n == fp.player_stats@.len(),
            i <= n,
            players_snapshot_ok(r@, fp.player_stats@.take(i as int)),
        decreases n - i,
    {
        let ghost r0 = r@;
        match &fp.player_stats[i] {
            Some(m) => {
                r.push((i + 1, clone_metrics(m)));
            },
            None => {},
        }
        proof {
            let pre = fp.player_stats@.take(i as int + 1);
            assert(pre.drop_last() =~= fp.player_stats@.take(i as int));
            assert(pre.last() == fp.player_stats@[i as int]);
            if fp.player_stats@[i as int] is Some {
                assert(r@.drop_last() =~= r0);
            }
        }
        i = i + 1;
    }
    proof {
        assert(fp.player_stats@.take(n as int) =~= fp.player_stats@);
    }
    r
}

/// The stored name of a seat, or the synthesized `Seat n` label.
pub open spec fn player_name_spec(r: SeatResolver, seat: Seat) -> Seq<char> {
    let es = r.player_to_seat@;
    let i = find_seat(es, seat);
    if i < es.len() {
        es[i].id@
    } else {
        "Seat "@ + dec_digits(seat.0 as int)
    }
}

/// The state has been stepped once per generator of the word, in order,
/// each step updating both the global state and the per-seat metrics of the
/// acting seat, under the given display name.
pub open spec fn seat_updates_chain(
    pre: FingerprintState,
    post: FingerprintState,
    gens: Seq<Generator>,
    seat: int,
    name: Seq<char>,
) -> bool
    decreases gens.len(),
{
    if gens.len() == 0 {
        post == pre
    } else {
        exists|mid: FingerprintState|
            {
                &&& #[trigger] core_effect(pre, mid, gens[0])
                &&& seat_stats_effect(pre, mid, gens[0], seat, name)
                &&& mid.wf()
                &&& seat_updates_chain(mid, post, gens.skip(1), seat, name)
            }
    }
}

/// Extending a per-seat chain of updates by one more generator.
proof fn lemma_seat_chain_snoc(
    pre: FingerprintState,
    mid: FingerprintState,
    post: FingerprintState,
    gens: Seq<Generator>,
    g: Generator,
    seat: int,
    name: Seq<char>,
)
    requires
        seat_updates_chain(pre, mid, gens, seat, name),
        mid.wf(),
        post.wf(),
        core_effect(mid, post, g),
        seat_stats_effect(mid, post, g, seat, name),
    ensures
        seat_updates_chain(pre, post, gens.push(g), seat, name),
    decreases gens.len(),
{
    if gens.len() == 0 {
        assert(mid == pre);
        assert(gens.push(g)[0] == g);
        assert(gens.push(g).skip(1) =~= Seq::<Generator>::empty());
        assert(seat_updates_chain(post, post, gens.push(g).skip(1), seat, name));
    } else {
        let mid1 = choose|m: FingerprintState|
            {
                &&& #[trigger] core_effect(pre, m, gens[0])
                &&& seat_stats_effect(pre, m, gens[0], seat, name)
                &&& m.wf()
                &&& seat_updates_chain(m, mid, gens.skip(1), seat, name)
            };
        lemma_seat_chain_snoc(mid1, mid, post, gens.skip(1), g, seat, name);
        assert(gens.push(g).skip(1) =~= gens.skip(1).push(g));
        assert(gens.push(g)[0] == gens[0]);
        assert(core_effect(pre, mid1, gens.push(g)[0]));
        assert(seat_updates_chain(mid1, post, gens.push(g).skip(1), seat, name));
    }
}

/// Along a per-seat chain of updates the counters move exactly as along a
/// plain chain of updates: the writhe by the word's signed total and the
/// crossing count by the word's length.
pub proof fn lemma_seat_chain_counters(
    pre: FingerprintState,
    post: FingerprintState,
    gens: Seq<Generator>,
    seat: int,
    name: Seq<char>,
)
    requires
        seat_updates_chain(pre, post, gens, seat, name),
    ensures
        post.writhe as int == pre.writhe as int + word_writhe(gens),
        post.crossing_count == pre.crossing_count + gens.len(),
        post.dimension == pre.dimension,
    decreases gens.len(),
{
    if gens.len() > 0 {
        let mid = choose|m: FingerprintState|
            {
                &&& #[trigger] core_effect(pre, m, gens[0])
                &&& seat_stats_effect(pre, m, gens[0], seat, name)
                &&& m.wf()
                &&& seat_updates_chain(m, post, gens.skip(1), seat, name)
            };
        lemma_seat_chain_counters(mid, post, gens.skip(1), seat, name);
    }
}

/// The summary fields follow the state they were taken from.
pub open spec fn summary_matches(s: FingerprintSummary, fp: FingerprintState) -> bool {
    &&& s.writhe == fp.writhe
    &&& (match s.burau_trace {
        Some(p) => p.wf() && trace_fits(fp.burau_matrix) && forall|e: int|
            #[trigger] p.coeff(e) == trace_val(fp.burau_matrix, e),
        None => !trace_fits(fp.burau_matrix),
    })
    &&& players_snapshot_ok(s.players@, fp.player_stats@)
}

/// `fp1` is the fingerprint the expansion started from — the prior
/// fingerprint, or a fresh one after a fold-reset — and stepping it through
/// the movement's expansion, with per-seat tracking under the acting seat's
/// display name, yields the fingerprint after the call.
pub open spec fn stepped_from(
    pre: ServerState,
    post: ServerState,
    action: Action,
    fp1: FingerprintState,
) -> bool {
    let folded = pre.reset_on_fold && action.action_type is Fold;
    let from = if folded {
        action.seat
    } else {
        match pre.current_seat {
            Some(s) => s,
            None => action.seat,
        }
    };
    let gens = expand_action_spec(from, action.seat, pre.fingerprint.dimension as int);
    let name = player_name_spec(pre.seat_resolver, action.seat);
    &&& fp1.wf()
    &&& (if folded {
        fp1.dimension == pre.fingerprint.dimension && fp1.is_fresh()
            && fp1.jones_poly_cache == pre.fingerprint.jones_poly_cache
    } else {
        fp1 == pre.fingerprint
    })
    &&& seat_updates_chain(fp1, post.fingerprint, gens, action.seat.0 as int, name)
}

/// What processing a non-reset action ensures: the action flow moves to
/// the acting seat, the step advances, the fingerprint is stepped through
/// the movement's expansion, and the summary reports the resulting state.
pub open spec fn nonreset_post(
    pre: ServerState,
    post: ServerState,
    action: Action,
    r: FingerprintSummary,
) -> bool {
    &&& post.current_seat == Some(action.seat)
    &&& post.step == pre.step + 1
    &&& exists|fp1: FingerprintState| #[trigger] stepped_from(pre, post, action, fp1)
    &&& r.step == post.step
    &&& r.action@ == action_desc(action.seat.0 as int, action.action_type, action.amount as int)
    &&& summary_matches(r, post.fingerprint)
}

/// Processes one action against the session: a reset restores the fresh
/// state; a fold does too when the session was configured to reset on
/// folds, before the fold itself is processed. Every other action is
/// expanded into generators from the previously visited seat — or from its
/// own seat at the start of a hand — and each generator updates the global
/// state and the acting seat's metrics. The returned summary reports the
/// state after the action.
#[verifier::rlimit(60)]
pub fn process_action(action: Action, state: &mut ServerState) -> (r: FingerprintSummary)
    requires
        old(state).wf(),
        old(state).fingerprint.crossing_count + old(state).fingerprint.dimension <= 0x7FFF_FFFF,
        old(state).step < usize::MAX,
        action.seat.0 >= 1,
    ensures
        final(state).wf(),
        final(state).reset_on_fold == old(state).reset_on_fold,
        final(state).seat_resolver == old(state).seat_resolver,
        final(state).fingerprint.dimension == old(state).fingerprint.dimension,
        action.action_type is Reset ==> {
            &&& final(state).fingerprint.is_fresh()
            &&& final(state).current_seat is None
            &&& final(state).step == 0
            &&& r.step == 0
            &&& r.action@ == "--- HAND RESET ---"@
            &&& summary_matches(r, final(state).fingerprint)
        },
        !(action.action_type is Reset) ==> nonreset_post(*old(state), *final(state), action, r),
{
    if matches!(action.action_type, ActionType::Reset) {
        state.fingerprint.reset();
        state.current_seat = None;
        state.step = 0;
        let trace = state.fingerprint.burau_trace();
        return FingerprintSummary {
            step: 0,
            action: String::from_str("--- HAND RESET ---"),
            writhe: state.fingerprint.writhe(),
            burau_trace: trace,
            players: collect_players(&state.fingerprint),
        };
    }
    let folded = state.reset_on_fold && matches!(action.action_type, ActionType::Fold);
    if folded {
        state.fingerprint.reset();
        state.current_seat = None;
    }
    let ghost fp1 = state.fingerprint;
    let from_seat = match state.current_seat {
        Some(s) => s,
        None => action.seat,
    };
    let generators = expand_action(from_seat, action.seat, state.fingerprint.dimension());
    let player_name = state.seat_resolver.get_player_name(action.seat);
    state.current_seat = Some(action.seat);
    proof {
        if from_seat.0 != 0 && action.seat.0 != 0 && fp1.dimension > 0 {
            let f = safe_seat_spec(from_seat.0 as int, fp1.dimension as int);
            let t = safe_seat_spec(action.seat.0 as int, fp1.dimension as int);
            lemma_expand_walk_shape(f, t);
        }
        assert(generators@.len() <= fp1.dimension);
        assert(generators@.take(0) =~= Seq::<Generator>::empty());
    }
    let mut i: usize = 0;
    while i < generators.len()
        invariant
            state.fingerprint.wf(),
            i <= generators@.len(),
            generators@.len() <= fp1.dimension,
            fp1.crossing_count + fp1.dimension <= 0x7FFF_FFFF,
            state.fingerprint.crossing_count == fp1.crossing_count + i,
            state.fingerprint.dimension == fp1.dimension,
            state.seat_resolver == old(state).seat_resolver,
            state.current_seat == Some(action.seat),
            state.step == old(state).step,
            state.reset_on_fold == old(state).reset_on_fold,
            action.seat.0 >= 1,
            player_name@ == player_name_spec(old(state).seat_resolver, action.seat),
            seat_updates_chain(
                fp1,
                state.fingerprint,
                generators@.take(i as int),
                action.seat.0 as int,
                player_name@,
            ),
        decreases generators@.len() - i,
    {
        let ghost pre_step = state.fingerprint;
        let g = generators[i];
        state.fingerprint.update_for_seat(&g, action.seat.value(), player_name.clone());
        proof {
            lemma_seat_chain_snoc(
                fp1,
                pre_step,
                state.fingerprint,
                generators@.take(i as int),
                g,
                action.seat.0 as int,
                player_name@,
            );
            assert(generators@.take(i as int + 1) =~= generators@.take(i as int).push(
                generators@[i as int],
            ));
        }
        i = i + 1;
    }
    proof {
        assert(generators@.take(generators@.len() as int) =~= generators@);
    }
    state.step = state.step + 1;
    let desc = describe_action(&action);
    let trace = state.fingerprint.burau_trace();
    let r = FingerprintSummary {
        step: state.step,
        action: desc,
        writhe: state.fingerprint.writhe(),
        burau_trace: trace,
        players: collect_players(&state.fingerprint),
    };
    proof {
        let from = if folded {
            action.seat
        } else {
            match old(state).current_seat {
                Some(s) => s,
                None => action.seat,
            }
        };
        let gens = expand_action_spec(from, action.seat, old(state).fingerprint.dimension as int);
        assert(generators@ == gens);
        assert(seat_updates_chain(
            fp1,
            state.fingerprint,
            gens,
            action.seat.0 as int,
            player_name_spec(old(state).seat_resolver, action.seat),
        ));
        assert(stepped_from(*old(state), *state, action, fp1));
        assert(nonreset_post(*old(state), *state, action, r));
    }
    r
}

/// Parses a textual action line against the session: the line grammar
/// extracts the player identity, action and amount, and the identity is
/// resolved to a seat; a line the grammar filters out is rejected.
pub fn parse_action_string(action_string: &str, state: &mut ServerState) -> (r: Result<
    Action,
    ParseError,
>)
    requires
        old(state).wf(),
        old(state).seat_resolver.next_seat < usize::MAX,
    ensures
        final(state).wf(),
        final(state).fingerprint == old(state).fingerprint,
        final(state).current_seat == old(state).current_seat,
        final(state).step == old(state).step,
        final(state).reset_on_fold == old(state).reset_on_fold,
        match parse_row_spec(action_string@) {
            None => r == Err::<Action, ParseError>(ParseError::UnrecognizedLine) && *final(state)
                == *old(state),
            Some(t) => match r {
                Ok(a) => {
                    &&& a.action_type == t.1
                    &&& a.amount == t.2
                    &&& resolve_effect(
                        old(state).seat_resolver,
                        final(state).seat_resolver,
                        t.0,
                        a.seat,
                    )
                },
                Err(_) => false,
            },
        },
{
    let row = PokerNowRow {
        entry: String::from_str(action_string),
        at: String::new(),
        order: 0,
    };
    match parse_row(&row) {
        Some(parsed) => {
            let seat = state.seat_resolver.get_or_assign_seat(parsed.0.as_str());
            let a = Action::new(seat, parsed.1, parsed.2);
            proof {
                assert(parse_row_spec(action_string@) == Some((parsed.0@, parsed.1, parsed.2)));
                assert(resolve_effect(
                    old(state).seat_resolver,
                    state.seat_resolver,
                    parsed.0@,
                    seat,
                ));
            }
            Ok(a)
        },
        None => Err(ParseError::UnrecognizedLine),
    }
}

} // verus!
