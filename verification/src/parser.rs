use vstd::prelude::*;
use crate::text::{chars_eq, chars_of, dec_digits, lowercase, lower_of, parse_u64, parse_u64_spec,
    push_decimal, string_from_chars, trim_chars, trim_spec};
use crate::types::{Action, ActionType, Seat};

verus! {

/// Why a textual record could not be turned into an action.
#[derive(Debug, Clone, Copy, PartialEq, Eq, Structural)]
pub enum ParseError {
    /// The record has fewer than the three required fields.
    TooFewFields,
    /// A required field is absent.
    MissingField,
    /// The action word is not one of the known action names.
    UnknownAction,
    /// The amount field is not an unsigned decimal number.
    InvalidAmount,
    /// The line matches no recognized action shape.
    UnrecognizedLine,
}

/// The action named by an already lowercased and trimmed word.
pub open spec fn action_type_of(t: Seq<char>) -> Option<ActionType> {
    if t == "bet"@ {
        Some(ActionType::Bet)
    } else if t == "raise"@ {
        Some(ActionType::Raise)
    } else if t == "check"@ {
        Some(ActionType::Check)
    } else if t == "call"@ {
        Some(ActionType::Call)
    } else if t == "fold"@ {
        Some(ActionType::Fold)
    } else if t == "reraise"@ || t == "re-raise"@ {
        Some(ActionType::ReRaise)
    } else if t == "allin"@ || t == "all-in"@ {
        Some(ActionType::AllIn)
    } else {
        None
    }
}

/// What `parse_action_type` accepts: the action word, case-insensitively
/// and ignoring surrounding white space.
pub open spec fn parse_action_type_spec(s: Seq<char>) -> Option<ActionType> {
    action_type_of(trim_spec(lower_of(s)))
}

/// Parses an action word into an `ActionType`, case-insensitively and
/// ignoring surrounding white space; every unknown word is rejected.
pub fn parse_action_type(action_str: &str) -> (r: Result<ActionType, ParseError>)
    ensures
        match r {
            Ok(t) => parse_action_type_spec(action_str@) == Some(t),
            Err(e) => parse_action_type_spec(action_str@) is None && e == ParseError::UnknownAction,
        },
{
    let lower = lowercase(action_str);
    let cs = chars_of(lower.as_str());
    let t = trim_chars(&cs);
    if chars_eq(&t, &chars_of("bet")) {
        Ok(ActionType::Bet)
    } else if chars_eq(&t, &chars_of("raise")) {
        Ok(ActionType::Raise)
    } else if chars_eq(&t, &chars_of("check")) {
        Ok(ActionType::Check)
    } else if chars_eq(&t, &chars_of("call")) {
        Ok(ActionType::Call)
    } else if chars_eq(&t, &chars_of("fold")) {
        Ok(ActionType::Fold)
    } else if chars_eq(&t, &chars_of("reraise")) || chars_eq(&t, &chars_of("re-raise")) {
        Ok(ActionType::ReRaise)
    } else if chars_eq(&t, &chars_of("allin")) || chars_eq(&t, &chars_of("all-in")) {
        Ok(ActionType::AllIn)
    } else {
        Err(ParseError::UnknownAction)
    }
}

/// One resolved participant: a textual identity and its assigned seat.
#[derive(Debug, Clone)]
pub struct PlayerEntry {
    pub id: String,
    pub seat: Seat,
}

/// Resolves textual player identities to seat numbers, assigning seats
/// sequentially as new identities appear in the stream.
///
/// The table is kept in insertion order, which makes every lookup
/// deterministic.
#[derive(Debug, Clone)]
pub struct SeatResolver {
    pub player_to_seat: Vec<PlayerEntry>,
    pub next_seat: usize,
}

/// The index of the first entry whose identity is exactly `key`, or the
/// length of the table when there is none.
pub open spec fn find_id(entries: Seq<PlayerEntry>, key: Seq<char>) -> int
    decreases entries.len(),
{
    if entries.len() == 0 {
        0
    } else if entries[0].id@ == key {
        0
    } else {
        1 + find_id(entries.skip(1), key)
    }
}

/// The string ends with the given suffix.
pub open spec fn ends_with(s: Seq<char>, suf: Seq<char>) -> bool {
    suf.len() <= s.len() && s.skip(s.len() - suf.len()) == suf
}

/// The index just past the last underscore of the string, or zero when it
/// has none: the start of the identity part.
pub open spec fn id_part_start(key: Seq<char>) -> int
    decreases key.len(),
{
    if key.len() == 0 {
        0
    } else if key.last() == '_' {
        key.len() as int
    } else {
        id_part_start(key.take(key.len() - 1))
    }
}

/// The identity part of a key: what follows its last underscore, or the
/// whole key when it has none.
pub open spec fn id_part(key: Seq<char>) -> Seq<char> {
    key.skip(id_part_start(key))
}

/// The entry carries the same identity part as `key` under another name:
/// its identity ends in an underscore followed by `key`'s identity part,
/// and differs from `key` itself.
pub open spec fn suffix_matches(entry: PlayerEntry, key: Seq<char>) -> bool {
    ends_with(entry.id@, seq!['_'] + id_part(key)) && entry.id@ != key
}

/// The index of the first entry matching `key` by identity part, or the
/// length of the table when there is none.
pub open spec fn find_suffix(entries: Seq<PlayerEntry>, key: Seq<char>) -> int
    decreases entries.len(),
{
    if entries.len() == 0 {
        0
    } else if suffix_matches(entries[0], key) {
        0
    } else {
        1 + find_suffix(entries.skip(1), key)
    }
}

/// The index of the first entry holding the given seat, or the length of
/// the table when there is none.
pub open spec fn find_seat(entries: Seq<PlayerEntry>, seat: Seat) -> int
    decreases entries.len(),
{
    if entries.len() == 0 {
        0
    } else if entries[0].seat == seat {
        0
    } else {
        1 + find_seat(entries.skip(1), seat)
    }
}

/// How `get_or_assign_seat` with raw identity `raw` changes the resolver
/// and which seat it hands back: an exact match returns the stored seat and
/// changes nothing; otherwise a match by identity part returns that entry's
/// seat and rewrites its stored identity to the new name; otherwise a fresh
/// seat is assigned and the identity is appended.
pub open spec fn resolve_effect(
    pre: SeatResolver,
    post: SeatResolver,
    raw: Seq<char>,
    seat: Seat,
) -> bool {
    let key = trim_spec(raw);
    let es = pre.player_to_seat@;
    let i = find_id(es, key);
    if i < es.len() {
        &&& seat == es[i].seat
        &&& post.player_to_seat@ == es
        &&& post.next_seat == pre.next_seat
    } else {
        let j = find_suffix(es, key);
        if j < es.len() {
            &&& seat == es[j].seat
            &&& post.next_seat == pre.next_seat
            &&& post.player_to_seat@.len() == es.len()
            &&& forall|l: int|
                0 <= l < es.len() && l != j ==> #[trigger] post.player_to_seat@[l] == es[l]
            &&& post.player_to_seat@[j].seat == es[j].seat
            &&& post.player_to_seat@[j].id@ == key
        } else {
            &&& seat.0 == pre.next_seat
            &&& post.next_seat == pre.next_seat + 1
            &&& post.player_to_seat@.len() == es.len() + 1
            &&& forall|l: int| 0 <= l < es.len() ==> #[trigger] post.player_to_seat@[l] == es[l]
            &&& post.player_to_seat@[es.len() as int].id@ == key
            &&& post.player_to_seat@[es.len() as int].seat == seat
        }
    }
}

impl SeatResolver {
    /// Every assigned seat is positive and below the next free seat.
    pub open spec fn wf(&self) -> bool {
        &&& self.next_seat >= 1
        &&& forall|l: int|
            0 <= l < self.player_to_seat@.len() ==> 1 <= (#[trigger] self.player_to_seat@[l]).seat.0
                < self.next_seat
    }

    /// Creates a new resolver with no players and seat one as the next to
    /// assign.
    pub fn new() -> (r: SeatResolver)
        ensures
            r.wf(),
            r.player_to_seat@.len() == 0,
            r.next_seat == 1,
    {
        SeatResolver { player_to_seat: Vec::new(), next_seat: 1 }
    }

    /// Gets the seat for a player identity, assigning the next free seat to
    /// a new player; an identity that shares its identity part with a known
    /// one updates that stored name instead (late-arriving identity
    /// corrections keep their seat).
    pub fn get_or_assign_seat(&mut self, player_id: &str) -> (seat: Seat)
        requires
            old(self).wf(),
            old(self).next_seat < usize::MAX,
        ensures
            final(self).wf(),
            resolve_effect(*old(self), *final(self), player_id@, seat),
    {
        let raw = chars_of(player_id);
        let keyv = trim_chars(&raw);
        let key = string_from_chars(&keyv);
        let ghost es = self.player_to_seat@;

        // exact match first
        let n = self.player_to_seat.len();
        let mut i: usize = 0;
        proof {
            assert(es.skip(0) =~= es);
        }
        while i < n
            invariant
                old(self).wf(),
                *self == *old(self),
                es == self.player_to_seat@,
                n == es.len(),
                i <= n,
                key@ == trim_spec(player_id@),
                forall|l: int| 0 <= l < i ==> (#[trigger] es[l]).id@ != key@,
                find_id(es.skip(i as int), key@) + i == find_id(es, key@),
            decreases n - i,
        {
            proof {
                assert(es.skip(i as int)[0] == es[i as int]);
                assert(es.skip(i as int).skip(1) =~= es.skip(i as int + 1));
            }
            if self.player_to_seat[i].id.eq(&key) {
                return self.player_to_seat[i].seat;
            }
            i = i + 1;
        }
        proof {
            assert(es.skip(n as int) =~= Seq::<PlayerEntry>::empty());
            assert(find_id(es, key@) == n);
        }

        // then a match by identity part
        let suffix = suffix_pattern(&keyv);
        let mut j: usize = 0;
        proof {
            assert(es.skip(0) =~= es);
        }
        while j < n
            invariant
                old(self).wf(),
                *self == *old(self),
                es == self.player_to_seat@,
                n == es.len(),
                j <= n,
                key@ == trim_spec(player_id@),
                keyv@ == key@,
                find_id(es, key@) == n,
                suffix@ == seq!['_'] + id_part(key@),
                forall|l: int| 0 <= l < j ==> !suffix_matches(#[trigger] es[l], key@),
                find_suffix(es.skip(j as int), key@) + j == find_suffix(es, key@),
            decreases n - j,
        {
            proof {
                assert(es.skip(j as int)[0] == es[j as int]);
                assert(es.skip(j as int).skip(1) =~= es.skip(j as int + 1));
            }
            let matched = {
                let idv = chars_of(self.player_to_seat[j].id.as_str());
                let e = ends_with_exec(&idv, &suffix);
                let same = self.player_to_seat[j].id.eq(&key);
                e && !same
            };
            if matched {
                let seat = self.player_to_seat[j].seat;
                let new_id = string_from_chars(&keyv);
                let entry = PlayerEntry { id: new_id, seat };
                self.player_to_seat[j] = entry;
                proof {
                    assert(forall|l: int|
                        0 <= l < es.len() && l != j ==> #[trigger] self.player_to_seat@[l]
                            == es[l]);
                    assert forall|l: int|
                        0 <= l < self.player_to_seat@.len() implies 1 <= (
                    #[trigger] self.player_to_seat@[l]).seat.0 < self.next_seat by {
                        if l != j {
                            assert(self.player_to_seat@[l] == es[l]);
                        }
                    }
                }
                return seat;
            }
            j = j + 1;
        }
        proof {
            assert(es.skip(n as int) =~= Seq::<PlayerEntry>::empty());
            assert(find_suffix(es, key@) == n);
        }

        // a new player: assign the next seat
        let seat = Seat::new(self.next_seat);
        let entry = PlayerEntry { id: key, seat };
        self.player_to_seat.push(entry);
        self.next_seat = self.next_seat + 1;
        seat
    }

    /// Returns the number of distinct players seen so far.
    pub fn player_count(&self) -> (n: usize)
        ensures
            n == self.player_to_seat@.len(),
    {
        self.player_to_seat.len()
    }

    /// Returns the highest seat number assigned so far.
    pub fn max_seat(&self) -> (n: usize)
        requires
            self.wf(),
        ensures
            n == self.next_seat - 1,
    {
        self.next_seat - 1
    }

    /// Gets the stored identity for a seat, or a synthesized `Seat n` label
    /// when the seat is unknown.
    pub fn get_player_name(&self, seat: Seat) -> (r: String)
        ensures
            ({
                let es = self.player_to_seat@;
                let i = find_seat(es, seat);
                if i < es.len() {
                    r@ == es[i].id@
                } else {
                    r@ == "Seat "@ + dec_digits(seat.0 as int)
                }
            }),
    {
        let ghost es = self.player_to_seat@;
        let n = self.player_to_seat.len();
        let mut i: usize = 0;
        proof {
            assert(es.skip(0) =~= es);
        }
        while i < n
            invariant
                es == self.player_to_seat@,
                n == es.len(),
                i <= n,
                forall|l: int| 0 <= l < i ==> (#[trigger] es[l]).seat != seat,
                find_seat(es.skip(i as int), seat) + i == find_seat(es, seat),
            decreases n - i,
        {
            proof {
                assert(es.skip(i as int)[0] == es[i as int]);
                assert(es.skip(i as int).skip(1) =~= es.skip(i as int + 1));
            }
            let e = &self.player_to_seat[i];
            if e.seat.value() == seat.value() {
                proof {
                    assert(es[i as int].seat == seat);
                }
                return e.id.clone();
            }
            i = i + 1;
        }
        proof {
            assert(es.skip(n as int) =~= Seq::<PlayerEntry>::empty());
            assert(find_seat(es, seat) == n);
        }
        let mut v = chars_of("Seat ");
        push_decimal(seat.value() as u64, &mut v);
        string_from_chars(&v)
    }
}

impl Default for SeatResolver {
    /// A fresh resolver.
    fn default() -> (r: SeatResolver)
        ensures
            r.wf(),
            r.player_to_seat@.len() == 0,
            r.next_seat == 1,
    {
        SeatResolver::new()
    }
}

/// Builds the suffix an entry must end with to match `key` by identity
/// part: an underscore followed by `key`'s identity part.
fn suffix_pattern(keyv: &Vec<char>) -> (r: Vec<char>)
    ensures
        r@ == seq!['_'] + id_part(keyv@),
{
    // find the position just past the last underscore
    let n = keyv.len();
    let mut s: usize = n;
    proof {
        assert(keyv@.take(n as int) =~= keyv@);
    }
    while s > 0 && keyv[s - 1] != '_'
        invariant
            s <= n,
            n == keyv@.len(),
            id_part_start(keyv@) == id_part_start(keyv@.take(s as int)),
        decreases s,
    {
        proof {
            let part = keyv@.take(s as int);
            assert(part.last() == keyv@[s - 1]);
            assert(part.take(part.len() - 1) =~= keyv@.take(s as int - 1));
        }
        s = s - 1;
    }
    proof {
        let part = keyv@.take(s as int);
        if s > 0 {
            assert(part.last() == keyv@[s - 1]);
        }
        assert(id_part_start(keyv@) == s as int);
    }
    let mut r: Vec<char> = Vec::new();
    r.push('_');
    let mut i: usize = s;
    while i < n
        invariant
            s <= i <= n,
            n == keyv@.len(),
            r@ == seq!['_'] + keyv@.subrange(s as int, i as int),
        decreases n - i,
    {
        let ghost r0 = r@;
        r.push(keyv[i]);
        proof {
            assert(r0.push(keyv@[i as int]) =~= seq!['_'] + keyv@.subrange(s as int, i as int + 1));
        }
        i = i + 1;
    }
    proof {
        assert(keyv@.subrange(s as int, n as int) =~= keyv@.skip(s as int));
    }
    r
}

/// Returns true when `v` ends with `suf`.
fn ends_with_exec(v: &Vec<char>, suf: &Vec<char>) -> (r: bool)
    ensures
        r == ends_with(v@, suf@),
{
    let n = v.len();
    let m = suf.len();
    if m > n {
        return false;
    }
    let mut i: usize = 0;
    while i < m
        invariant
            m <= n,
            n == v@.len(),
            m == suf@.len(),
            i <= m,
            forall|j: int| 0 <= j < i ==> v@[n - m + j] == suf@[j],
        decreases m - i,
    {
        if v[n - m + i] != suf[i] {
            proof {
                assert(v@.skip(n - m)[i as int] == v@[n - m + i]);
            }
            return false;
        }
        i = i + 1;
    }
    proof {
        assert(v@.skip(n - m) =~= suf@);
    }
    true
}

/// The fields of a parsed textual record, in order.
pub uninterp spec fn record_fields(r: &csv::StringRecord) -> Seq<Seq<char>>;

#[verifier::external_type_specification]
#[verifier::external_body]
pub struct ExStringRecord(csv::StringRecord);

/// Relies on csv::StringRecord::len: the number of fields in the record.
pub assume_specification[ csv::StringRecord::len ](r: &csv::StringRecord) -> (n: usize)
    ensures
        n == record_fields(r).len(),
;

/// Relies on csv::StringRecord::get: the field at the index, or `None`
/// exactly when no field with that index exists.
pub assume_specification<'r>[ csv::StringRecord::get ](r: &'r csv::StringRecord, i: usize) -> (f:
    Option<&'r str>)
    ensures
        match f {
            Some(s) => i < record_fields(r).len() && s@ == record_fields(r)[i as int],
            None => i >= record_fields(r).len(),
        },
;

/// What `parse_record` makes of a record's fields, apart from the seat:
/// the action type from the second field and the amount from the third.
pub open spec fn record_outcome(fields: Seq<Seq<char>>) -> Result<(ActionType, u64), ParseError> {
    if fields.len() < 3 {
        Err(ParseError::TooFewFields)
    } else {
        match parse_action_type_spec(fields[1]) {
            None => Err(ParseError::UnknownAction),
            Some(t) => match parse_u64_spec(fields[2]) {
                None => Err(ParseError::InvalidAmount),
                Some(amount) => Ok((t, amount)),
            },
        }
    }
}

/// Parses one textual record of the shape `player_id, action, amount` into
/// an action, resolving the player identity to a seat.
///
/// The seat is resolved before the action word and amount are examined, so
/// the resolver learns the identity even when the rest of the record is
/// rejected, exactly as a streaming reader behaves.
pub fn parse_record(record: &csv::StringRecord, seat_resolver: &mut SeatResolver) -> (r: Result<
    Action,
    ParseError,
>)
    requires
        old(seat_resolver).wf(),
        old(seat_resolver).next_seat < usize::MAX,
    ensures
        final(seat_resolver).wf(),
        record_fields(record).len() < 3 ==> *final(seat_resolver) == *old(seat_resolver),
        record_fields(record).len() >= 3 ==> exists|seat: Seat|
            {
                &&& #[trigger] resolve_effect(
                    *old(seat_resolver),
                    *final(seat_resolver),
                    record_fields(record)[0],
                    seat,
                )
                &&& match record_outcome(record_fields(record)) {
                    Ok(ta) => r == Ok::<Action, ParseError>(
                        Action { seat, action_type: ta.0, amount: ta.1 },
                    ),
                    Err(e) => r == Err::<Action, ParseError>(e),
                }
            },
{
    if record.len() < 3 {
        return Err(ParseError::TooFewFields);
    }
    let player_id = match record.get(0) {
        Some(s) => s,
        None => {
            return Err(ParseError::MissingField);
        },
    };
    let action_str = match record.get(1) {
        Some(s) => s,
        None => {
            return Err(ParseError::MissingField);
        },
    };
    let amount_str = match record.get(2) {
        Some(s) => s,
        None => {
            return Err(ParseError::MissingField);
        },
    };
    let seat = seat_resolver.get_or_assign_seat(player_id);
    let action_type = match parse_action_type(action_str) {
        Ok(t) => t,
        Err(e) => {
            return Err(e);
        },
    };
    let amount = match parse_u64(amount_str) {
        Some(a) => a,
        None => {
            return Err(ParseError::InvalidAmount);
        },
    };
    Ok(Action::new(seat, action_type, amount))
}

} // verus!
