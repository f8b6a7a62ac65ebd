use vstd::prelude::*;
use crate::types::{Generator, Seat};

verus! {

/// The value `safe_seat` computes: `seat` reduced into `[1, total]` by
/// modular arithmetic, with `1` as the fallback for `total == 0`.
pub open spec fn safe_seat_spec(seat: int, total: int) -> int {
    if total <= 0 {
        1
    } else {
        (seat - 1) % total + 1
    }
}

/// Maps a 1-based seat number into the valid range `[1, total]` using modular
/// arithmetic, so that seat identities beyond the table size stay usable.
pub fn safe_seat(seat: usize, total: usize) -> (r: usize)
    requires
        seat >= 1,
    ensures
        r == safe_seat_spec(seat as int, total as int),
        1 <= r,
        total > 0 ==> r <= total,
{
    if total == 0 {
        return 1;
    }
    (seat - 1) % total + 1
}

/// The walk from position `from` to position `to`, one unit at a time:
/// each forward step from `p` emits `Sigma(p)`, each backward step from `p`
/// emits `InverseSigma(p - 1)`.
pub open spec fn expand_walk(from: int, to: int) -> Seq<Generator>
    decreases (if from < to { to - from } else { from - to }),
{
    if from < to {
        seq![Generator::Sigma(from as usize)] + expand_walk(from + 1, to)
    } else if from > to {
        seq![Generator::InverseSigma((from - 1) as usize)] + expand_walk(from - 1, to)
    } else {
        Seq::empty()
    }
}

/// The length of the walk is the absolute difference of its endpoints,
/// and each element is determined by its position: ascending walks are all
/// overcrossings, descending walks all undercrossings.
pub proof fn lemma_expand_walk_shape(from: int, to: int)
    requires
        1 <= from,
        1 <= to,
    ensures
        expand_walk(from, to).len() == (if from < to { to - from } else { from - to }),
        forall|i: int|
            0 <= i < expand_walk(from, to).len() && from < to ==> expand_walk(from, to)[i]
                == Generator::Sigma((from + i) as usize),
        forall|i: int|
            0 <= i < expand_walk(from, to).len() && from > to ==> expand_walk(from, to)[i]
                == Generator::InverseSigma((from - 1 - i) as usize),
    decreases (if from < to { to - from } else { from - to }),
{
    if from < to {
        lemma_expand_walk_shape(from + 1, to);
        assert forall|i: int| 0 <= i < expand_walk(from, to).len() implies expand_walk(from, to)[i]
            == Generator::Sigma((from + i) as usize) by {
            if i > 0 {
                assert(expand_walk(from, to)[i] == expand_walk(from + 1, to)[i - 1]);
            }
        }
    } else if from > to {
        lemma_expand_walk_shape(from - 1, to);
        assert forall|i: int| 0 <= i < expand_walk(from, to).len() implies expand_walk(from, to)[i]
            == Generator::InverseSigma((from - 1 - i) as usize) by {
            if i > 0 {
                assert(expand_walk(from, to)[i] == expand_walk(from - 1, to)[i - 1]);
            }
        }
    }
}

/// The full expansion of a movement between two raw seats: both endpoints are
/// reduced with `safe_seat_spec`, and the walk between the reduced positions
/// is emitted. A raw seat of zero yields the empty word.
pub open spec fn expand_action_spec(from: Seat, to: Seat, total: int) -> Seq<Generator> {
    if from.0 == 0 || to.0 == 0 {
        Seq::empty()
    } else {
        expand_walk(safe_seat_spec(from.0 as int, total), safe_seat_spec(to.0 as int, total))
    }
}

/// The shape of a movement's expansion: its length is the absolute
/// difference of the endpoints after reduction by `safe_seat_spec`, every
/// step of an ascending walk is an overcrossing, and every step of a
/// descending walk is an undercrossing.
pub proof fn lemma_expand_action_shape(from: Seat, to: Seat, total: int)
    requires
        from.0 >= 1,
        to.0 >= 1,
    ensures
        ({
            let f = safe_seat_spec(from.0 as int, total);
            let t = safe_seat_spec(to.0 as int, total);
            let gens = expand_action_spec(from, to, total);
            &&& gens.len() == (if f < t {
                t - f
            } else {
                f - t
            })
            &&& forall|i: int|
                0 <= i < gens.len() && f < t ==> gens[i] == Generator::Sigma((f + i) as usize)
            &&& forall|i: int|
                0 <= i < gens.len() && f > t ==> gens[i] == Generator::InverseSigma(
                    (f - 1 - i) as usize,
                )
        }),
{
    let f = safe_seat_spec(from.0 as int, total);
    let t = safe_seat_spec(to.0 as int, total);
    lemma_expand_walk_shape(f, t);
}

/// Expands a movement from one seat to another into a sequence of elementary
/// generators, walking the integer line between the reduced positions.
///
/// Seat numbers beyond `total_seats` are wrapped by `safe_seat`; a raw seat
/// value of zero yields the empty expansion rather than failing.
pub fn expand_action(from: Seat, to: Seat, total_seats: usize) -> (r: Vec<Generator>)
    ensures
        r@ == expand_action_spec(from, to, total_seats as int),
{
    let from_raw = from.value();
    let to_raw = to.value();

    if from_raw == 0 || to_raw == 0 {
        return Vec::new();
    }

    let from_val = safe_seat(from_raw, total_seats);
    let to_val = safe_seat(to_raw, total_seats);

    if from_val == to_val {
        return Vec::new();
    }

    let mut generators: Vec<Generator> = Vec::new();
    let mut current = from_val;

    while current != to_val
        invariant
            1 <= current,
            1 <= to_val,
            current <= from_val || current <= to_val,
            to_val <= current || from_val <= current,
            expand_walk(from_val as int, to_val as int) == generators@ + expand_walk(
                current as int,
                to_val as int,
            ),
        decreases (if current < to_val {
            to_val - current
        } else {
            current - to_val
        }),
    {
        if current < to_val {
            let ghost gens0 = generators@;
            generators.push(Generator::Sigma(current));
            proof {
                assert(expand_walk(current as int, to_val as int) == seq![
                    Generator::Sigma(current as usize),
                ] + expand_walk(current as int + 1, to_val as int));
                assert(gens0.push(Generator::Sigma(current)) + expand_walk(
                    current as int + 1,
                    to_val as int,
                ) =~= gens0 + expand_walk(current as int, to_val as int));
            }
            current = current + 1;
        } else {
            let ghost gens0 = generators@;
            generators.push(Generator::InverseSigma(current - 1));
            proof {
                assert(expand_walk(current as int, to_val as int) == seq![
                    Generator::InverseSigma((current - 1) as usize),
                ] + expand_walk(current as int - 1, to_val as int));
                assert(gens0.push(Generator::InverseSigma((current - 1) as usize)) + expand_walk(
                    current as int - 1,
                    to_val as int,
                ) =~= gens0 + expand_walk(current as int, to_val as int));
            }
            current = current - 1;
        }
    }
    proof {
        assert(generators@ =~= generators@ + expand_walk(to_val as int, to_val as int));
    }
    generators
}

} // verus!
