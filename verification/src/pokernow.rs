use vstd::prelude::*;
use vstd::string::StringExecFns;
use crate::text::{append_chars, chars_of, char_whitespace, digits_val, is_ascii_digit,
    is_ascii_digit_spec, lemma_digits_val_mono, string_from_chars, trim_chars, trim_spec, word_at,
    word_at_exec};
use crate::types::ActionType;

verus! {

/// One row of a textual action log: the entry line, its timestamp text and
/// its order number. Only the entry line carries information the engine
/// uses.
#[derive(Debug, Clone)]
pub struct PokerNowRow {
    /// The log entry text.
    pub entry: String,
    /// Timestamp text; parsed but not used for the braid computation.
    pub at: String,
    /// Order number of the row.
    pub order: u64,
}

/// The action keywords the line grammar recognizes.
#[derive(Debug, Clone, Copy, PartialEq, Eq, Structural)]
pub enum Keyword {
    Folds,
    Checks,
    Calls,
    Bets,
    Raises,
    Shows,
    Quits,
    Joins,
    Posts,
}

/// The characters of a keyword.
pub open spec fn kw_seq(k: Keyword) -> Seq<char> {
    match k {
        Keyword::Folds => "folds"@,
        Keyword::Checks => "checks"@,
        Keyword::Calls => "calls"@,
        Keyword::Bets => "bets"@,
        Keyword::Raises => "raises"@,
        Keyword::Shows => "shows"@,
        Keyword::Quits => "quits"@,
        Keyword::Joins => "joins"@,
        Keyword::Posts => "posts"@,
    }
}

/// The first keyword, in fixed alternation order, that occurs at position
/// `p`.
pub open spec fn keyword_at(s: Seq<char>, p: int) -> Option<Keyword> {
    if word_at(s, p, kw_seq(Keyword::Folds)) {
        Some(Keyword::Folds)
    } else if word_at(s, p, kw_seq(Keyword::Checks)) {
        Some(Keyword::Checks)
    } else if word_at(s, p, kw_seq(Keyword::Calls)) {
        Some(Keyword::Calls)
    } else if word_at(s, p, kw_seq(Keyword::Bets)) {
        Some(Keyword::Bets)
    } else if word_at(s, p, kw_seq(Keyword::Raises)) {
        Some(Keyword::Raises)
    } else if word_at(s, p, kw_seq(Keyword::Shows)) {
        Some(Keyword::Shows)
    } else if word_at(s, p, kw_seq(Keyword::Quits)) {
        Some(Keyword::Quits)
    } else if word_at(s, p, kw_seq(Keyword::Joins)) {
        Some(Keyword::Joins)
    } else if word_at(s, p, kw_seq(Keyword::Posts)) {
        Some(Keyword::Posts)
    } else {
        None
    }
}

/// A single space followed by a keyword occurs at position `p`.
pub open spec fn action_at(s: Seq<char>, p: int) -> Option<Keyword> {
    if 0 <= p < s.len() && s[p] == ' ' {
        keyword_at(s, p + 1)
    } else {
        None
    }
}

/// The smallest identity end `m >= lo` such that a space and keyword follow
/// at `m`, scanning only across characters that a name or identity may
/// contain (anything but a line break); `None` when the scan runs out.
pub open spec fn find_id_end(s: Seq<char>, lo: int) -> Option<int>
    decreases s.len() + 1 - lo,
{
    if lo > s.len() || lo < 0 {
        None
    } else if action_at(s, lo) is Some {
        Some(lo)
    } else if lo < s.len() && s[lo] != '\n' {
        find_id_end(s, lo + 1)
    } else {
        None
    }
}

/// For a name ending at `n`: the identity variant of the grammar — a
/// literal ` @ ` followed by a non-empty identity and then a space and
/// keyword — and the identity's end position when it succeeds.
pub open spec fn id_variant(s: Seq<char>, n: int) -> Option<int> {
    if word_at(s, n, " @ "@) && n + 3 < s.len() && s[n + 3] != '\n' {
        find_id_end(s, n + 4)
    } else {
        None
    }
}

/// A name ending at `n` completes a match: either through the identity
/// variant or directly through a space and keyword.
pub open spec fn variant_at(s: Seq<char>, n: int) -> bool {
    id_variant(s, n) is Some || action_at(s, n) is Some
}

/// The smallest name end `n` that completes a match, scanning only across
/// non-line-break characters.
pub open spec fn find_name_end(s: Seq<char>, n: int) -> Option<int>
    decreases s.len() + 1 - n,
{
    if n > s.len() || n < 0 {
        None
    } else if variant_at(s, n) {
        Some(n)
    } else if n < s.len() && s[n] != '\n' {
        find_name_end(s, n + 1)
    } else {
        None
    }
}

/// The action-line match starting at `p`: the end of the shortest name
/// (at least one non-line-break character) that completes a match.
pub open spec fn core_match(s: Seq<char>, p: int) -> Option<int> {
    if 0 <= p < s.len() && s[p] != '\n' {
        find_name_end(s, p + 1)
    } else {
        None
    }
}

/// Some line shape — the starting-hand marker or an action line — matches
/// at position `p`.
pub open spec fn line_match_at(s: Seq<char>, p: int) -> bool {
    word_at(s, p, "-- starting hand"@) || core_match(s, p) is Some
}

/// The length of the timestamp digits-and-colon prefix, two minute digits
/// after one or two hour digits, when the line starts with one.
pub open spec fn time_base(s: Seq<char>) -> Option<int> {
    if s.len() >= 5 && is_ascii_digit_spec(s[0]) && is_ascii_digit_spec(s[1]) && s[2] == ':'
        && is_ascii_digit_spec(s[3]) && is_ascii_digit_spec(s[4]) {
        Some(5)
    } else if s.len() >= 4 && is_ascii_digit_spec(s[0]) && s[1] == ':' && is_ascii_digit_spec(s[2])
        && is_ascii_digit_spec(s[3]) {
        Some(4)
    } else {
        None
    }
}

/// The end of the white-space run starting at `p`.
pub open spec fn ws_end(s: Seq<char>, p: int) -> int
    decreases s.len() + 1 - p,
{
    if 0 <= p < s.len() && char_whitespace(s[p]) {
        ws_end(s, p + 1)
    } else {
        p
    }
}

/// The first start position, among `base + w` for `w` counting down to one,
/// where some line shape matches: a greedy timestamp prefix gives up its
/// white space one character at a time before the timestamp is abandoned.
pub open spec fn start_from(s: Seq<char>, base: int, w: int) -> Option<int>
    decreases w,
{
    if w < 1 {
        None
    } else if line_match_at(s, base + w) {
        Some(base + w)
    } else {
        start_from(s, base, w - 1)
    }
}

/// Where the line's match begins: after a timestamp prefix when one is
/// present and a match follows it, else at the start of the line; `None`
/// when no line shape matches at all.
pub open spec fn entry_start(s: Seq<char>) -> Option<int> {
    let fallback: Option<int> = if line_match_at(s, 0) {
        Some(0)
    } else {
        None
    };
    match time_base(s) {
        Some(b) => match start_from(s, b, ws_end(s, b) - b) {
            Some(p) => Some(p),
            None => fallback,
        },
        None => fallback,
    }
}

/// Where the amount may begin after the keyword ending at `q`: after a
/// literal ` to `, else after a single space, else at `q` itself.
pub open spec fn amount_start(s: Seq<char>, q: int) -> int {
    if word_at(s, q, " to "@) {
        q + " to "@.len()
    } else if 0 <= q < s.len() && s[q] == ' ' {
        q + 1
    } else {
        q
    }
}

/// The end of the run of digits and dots starting at `a`.
pub open spec fn amount_end(s: Seq<char>, a: int) -> int
    decreases s.len() + 1 - a,
{
    if 0 <= a < s.len() && (is_ascii_digit_spec(s[a]) || s[a] == '.') {
        amount_end(s, a + 1)
    } else {
        a
    }
}

/// The number of dots in an amount token.
pub open spec fn dot_count(tok: Seq<char>) -> int
    decreases tok.len(),
{
    if tok.len() == 0 {
        0
    } else {
        dot_count(tok.drop_last()) + if tok.last() == '.' {
            1int
        } else {
            0int
        }
    }
}

/// The index of the first dot of an amount token, or its length when it
/// has none.
pub open spec fn first_dot(tok: Seq<char>) -> int
    decreases tok.len(),
{
    if tok.len() == 0 {
        0
    } else if tok[0] == '.' {
        0
    } else {
        1 + first_dot(tok.skip(1))
    }
}

/// The value of an amount token made of digits and dots: a number with at
/// most one dot and at least one digit is truncated to its integer part,
/// saturating at the largest representable value; anything else counts as
/// zero.
pub open spec fn amount_value(tok: Seq<char>) -> u64 {
    if dot_count(tok) <= 1 && tok.len() > dot_count(tok) {
        let ip = digits_val(tok.take(first_dot(tok)));
        if ip > u64::MAX {
            u64::MAX
        } else {
            ip as u64
        }
    } else {
        0
    }
}

/// The action an accepted keyword stands for; showing, quitting and
/// joining are not betting actions and are filtered out.
pub open spec fn kw_action(k: Keyword) -> Option<ActionType> {
    match k {
        Keyword::Folds => Some(ActionType::Fold),
        Keyword::Checks => Some(ActionType::Check),
        Keyword::Calls => Some(ActionType::Call),
        Keyword::Bets => Some(ActionType::Bet),
        Keyword::Raises => Some(ActionType::Raise),
        Keyword::Posts => Some(ActionType::Bet),
        Keyword::Shows => None,
        Keyword::Quits => None,
        Keyword::Joins => None,
    }
}

/// What `parse_row` extracts from an entry line: the starting-hand marker
/// becomes a reset for the synthetic `system_reset` participant; an action
/// line yields a unique player identity — the trimmed name joined to the
/// trimmed identity by an underscore, or marked `_generated` when the line
/// carries no identity — the action, and the amount, with folds and checks
/// always carrying amount zero; every other line is filtered out.
pub open spec fn parse_row_spec(s: Seq<char>) -> Option<(Seq<char>, ActionType, u64)> {
    match entry_start(s) {
        None => None,
        Some(p) => {
            if word_at(s, p, "-- starting hand"@) {
                Some(("system_reset"@, ActionType::Reset, 0u64))
            } else {
                match core_match(s, p) {
                    None => None,
                    Some(n) => {
                        let name = trim_spec(s.subrange(p, n));
                        let mo = id_variant(s, n);
                        let act_pos = match mo {
                            Some(m) => m,
                            None => n,
                        };
                        match action_at(s, act_pos) {
                            None => None,
                            Some(k) => match kw_action(k) {
                                None => None,
                                Some(at) => {
                                    let q = act_pos + 1 + kw_seq(k).len();
                                    let a = amount_start(s, q);
                                    let ae = amount_end(s, a);
                                    let raw: u64 = if ae > a {
                                        amount_value(s.subrange(a, ae))
                                    } else {
                                        0
                                    };
                                    let amount: u64 = if at is Fold || at is Check {
                                        0
                                    } else {
                                        raw
                                    };
                                    let pid = match mo {
                                        Some(m) => {
                                            let idt = trim_spec(s.subrange(n + 3, m));
                                            if idt.len() > 0 {
                                                name + seq!['_'] + idt
                                            } else {
                                                name + "_generated"@
                                            }
                                        },
                                        None => name + "_generated"@,
                                    };
                                    Some((pid, at, amount))
                                },
                            },
                        }
                    },
                }
            }
        },
    }
}

/// Returns the first keyword occurring at position `p`.
fn keyword_at_exec(v: &Vec<char>, p: usize) -> (r: Option<Keyword>)
    ensures
        r == keyword_at(v@, p as int),
{
    if word_at_exec(v, p, &chars_of("folds")) {
        Some(Keyword::Folds)
    } else if word_at_exec(v, p, &chars_of("checks")) {
        Some(Keyword::Checks)
    } else if word_at_exec(v, p, &chars_of("calls")) {
        Some(Keyword::Calls)
    } else if word_at_exec(v, p, &chars_of("bets")) {
        Some(Keyword::Bets)
    } else if word_at_exec(v, p, &chars_of("raises")) {
        Some(Keyword::Raises)
    } else if word_at_exec(v, p, &chars_of("shows")) {
        Some(Keyword::Shows)
    } else if word_at_exec(v, p, &chars_of("quits")) {
        Some(Keyword::Quits)
    } else if word_at_exec(v, p, &chars_of("joins")) {
        Some(Keyword::Joins)
    } else if word_at_exec(v, p, &chars_of("posts")) {
        Some(Keyword::Posts)
    } else {
        None
    }
}

/// Returns the keyword of the space-and-keyword shape at position `p`.
fn action_at_exec(v: &Vec<char>, p: usize) -> (r: Option<Keyword>)
    ensures
        r == action_at(v@, p as int),
{
    if p < v.len() && v[p] == ' ' {
        keyword_at_exec(v, p + 1)
    } else {
        None
    }
}

/// Scans for the smallest identity end from `lo` on.
fn find_id_end_exec(v: &Vec<char>, lo: usize) -> (r: Option<usize>)
    requires
        lo <= v@.len(),
    ensures
        match r {
            Some(m) => find_id_end(v@, lo as int) == Some(m as int) && lo <= m <= v@.len(),
            None => find_id_end(v@, lo as int) is None,
        },
{
    let mut cur = lo;
    loop
        invariant
            lo <= cur <= v@.len(),
            find_id_end(v@, lo as int) == find_id_end(v@, cur as int),
        ensures
            match find_id_end(v@, cur as int) {
                Some(m) => cur <= m <= v@.len(),
                None => true,
            },
            find_id_end(v@, lo as int) == find_id_end(v@, cur as int),
            (find_id_end(v@, cur as int) is Some) == (action_at(v@, cur as int) is Some),
            find_id_end(v@, cur as int) is Some ==> find_id_end(v@, cur as int) == Some(
                cur as int,
            ),
        decreases v@.len() - cur,
    {
        if action_at_exec(v, cur).is_some() {
            break ;
        }
        if cur < v.len() && v[cur] != '\n' {
            cur = cur + 1;
        } else {
            break ;
        }
    }
    if action_at_exec(v, cur).is_some() {
        Some(cur)
    } else {
        None
    }
}

/// Checks the identity variant for a name ending at `n` and returns the
/// identity's end position when it succeeds.
fn id_variant_exec(v: &Vec<char>, n: usize) -> (r: Option<usize>)
    requires
        n <= v@.len(),
    ensures
        match r {
            Some(m) => id_variant(v@, n as int) == Some(m as int) && n + 4 <= m <= v@.len(),
            None => id_variant(v@, n as int) is None,
        },
{
    proof {
        reveal_strlit(" @ ");
    }
    let len = v.len();
    if word_at_exec(v, n, &chars_of(" @ ")) && n + 3 < len && v[n + 3] != '\n' {
        find_id_end_exec(v, n + 4)
    } else {
        None
    }
}

/// Scans for the smallest name end from `n` on.
fn find_name_end_exec(v: &Vec<char>, n: usize) -> (r: Option<usize>)
    requires
        n <= v@.len(),
    ensures
        match r {
            Some(m) => find_name_end(v@, n as int) == Some(m as int) && n <= m <= v@.len(),
            None => find_name_end(v@, n as int) is None,
        },
{
    let mut cur = n;
    loop
        invariant
            n <= cur <= v@.len(),
            find_name_end(v@, n as int) == find_name_end(v@, cur as int),
        ensures
            find_name_end(v@, n as int) == find_name_end(v@, cur as int),
            (find_name_end(v@, cur as int) is Some) == variant_at(v@, cur as int),
            find_name_end(v@, cur as int) is Some ==> find_name_end(v@, cur as int) == Some(
                cur as int,
            ),
            n <= cur <= v@.len(),
        decreases v@.len() - cur,
    {
        let has_variant = id_variant_exec(v, cur).is_some() || action_at_exec(v, cur).is_some();
        if has_variant {
            break ;
        }
        if cur < v.len() && v[cur] != '\n' {
            cur = cur + 1;
        } else {
            break ;
        }
    }
    let has_variant = id_variant_exec(v, cur).is_some() || action_at_exec(v, cur).is_some();
    if has_variant {
        Some(cur)
    } else {
        None
    }
}

/// Finds the action-line match starting at `p`.
fn core_match_exec(v: &Vec<char>, p: usize) -> (r: Option<usize>)
    requires
        p <= v@.len(),
    ensures
        match r {
            Some(m) => core_match(v@, p as int) == Some(m as int) && p < m <= v@.len(),
            None => core_match(v@, p as int) is None,
        },
{
    if p < v.len() && v[p] != '\n' {
        find_name_end_exec(v, p + 1)
    } else {
        None
    }
}

/// Returns true when some line shape matches at `p`.
fn line_match_exec(v: &Vec<char>, p: usize) -> (r: bool)
    requires
        p <= v@.len(),
    ensures
        r == line_match_at(v@, p as int),
{
    word_at_exec(v, p, &chars_of("-- starting hand")) || core_match_exec(v, p).is_some()
}

/// Recognizes a timestamp prefix and returns its digits-and-colon length.
fn time_base_exec(v: &Vec<char>) -> (r: Option<usize>)
    ensures
        match r {
            Some(b) => time_base(v@) == Some(b as int) && b <= v@.len(),
            None => time_base(v@) is None,
        },
{
    if v.len() >= 5 && is_ascii_digit(v[0]) && is_ascii_digit(v[1]) && v[2] == ':'
        && is_ascii_digit(v[3]) && is_ascii_digit(v[4]) {
        Some(5)
    } else if v.len() >= 4 && is_ascii_digit(v[0]) && v[1] == ':' && is_ascii_digit(v[2])
        && is_ascii_digit(v[3]) {
        Some(4)
    } else {
        None
    }
}

/// Returns the end of the white-space run starting at `p`.
fn ws_end_exec(v: &Vec<char>, p: usize) -> (r: usize)
    requires
        p <= v@.len(),
    ensures
        r == ws_end(v@, p as int),
        p <= r <= v@.len(),
{
    let mut cur = p;
    while cur < v.len() && crate::text::is_whitespace_char(v[cur])
        invariant
            p <= cur <= v@.len(),
            ws_end(v@, p as int) == ws_end(v@, cur as int),
        decreases v@.len() - cur,
    {
        cur = cur + 1;
    }
    cur
}

/// Chooses the start position of the line's match.
fn entry_start_exec(v: &Vec<char>) -> (r: Option<usize>)
    ensures
        match r {
            Some(p) => entry_start(v@) == Some(p as int) && p <= v@.len(),
            None => entry_start(v@) is None,
        },
{
    match time_base_exec(v) {
        Some(b) => {
            let we = ws_end_exec(v, b);
            let mut w = we - b;
            while w >= 1
                invariant
                    b + w <= we <= v@.len() || w == 0,
                    we <= v@.len(),
                    start_from(v@, b as int, (we - b) as int) == start_from(v@, b as int, w as int),
                ensures
                    start_from(v@, b as int, (we - b) as int) == start_from(v@, b as int, w as int),
                    w >= 1 ==> line_match_at(v@, b + w),
                    w == 0 ==> start_from(v@, b as int, w as int) is None,
                decreases w,
            {
                if line_match_exec(v, b + w) {
                    break ;
                }
                w = w - 1;
            }
            if w >= 1 {
                Some(b + w)
            } else {
                if line_match_exec(v, 0) {
                    Some(0)
                } else {
                    None
                }
            }
        },
        None => {
            if line_match_exec(v, 0) {
                Some(0)
            } else {
                None
            }
        },
    }
}

/// Returns where the amount may begin after the keyword ending at `q`.
fn amount_start_exec(v: &Vec<char>, q: usize) -> (r: usize)
    requires
        q <= v@.len(),
    ensures
        r == amount_start(v@, q as int),
        q <= r <= v@.len(),
{
    proof {
        reveal_strlit(" to ");
    }
    let len = v.len();
    if word_at_exec(v, q, &chars_of(" to ")) {
        q + 4
    } else if q < len && v[q] == ' ' {
        q + 1
    } else {
        q
    }
}

/// Returns the end of the run of digits and dots starting at `a`.
fn amount_end_exec(v: &Vec<char>, a: usize) -> (r: usize)
    requires
        a <= v@.len(),
    ensures
        r == amount_end(v@, a as int),
        a <= r <= v@.len(),
        forall|j: int| a <= j < r ==> is_ascii_digit_spec(#[trigger] v@[j]) || v@[j] == '.',
{
    let mut cur = a;
    while cur < v.len() && (is_ascii_digit(v[cur]) || v[cur] == '.')
        invariant
            a <= cur <= v@.len(),
            amount_end(v@, a as int) == amount_end(v@, cur as int),
            forall|j: int| a <= j < cur ==> is_ascii_digit_spec(#[trigger] v@[j]) || v@[j] == '.',
        decreases v@.len() - cur,
    {
        cur = cur + 1;
    }
    cur
}

/// The first dot of a token is where its dot-free prefix ends.
proof fn lemma_first_dot_at(tok: Seq<char>, j: int)
    requires
        0 <= j <= tok.len(),
        forall|l: int| 0 <= l < j ==> #[trigger] tok[l] != '.',
        j == tok.len() || tok[j] == '.',
    ensures
        first_dot(tok) == j,
    decreases j,
{
    if j == 0 {
    } else {
        assert(tok[0] != '.');
        assert forall|l: int| 0 <= l < j - 1 implies #[trigger] tok.skip(1)[l] != '.' by {
            assert(tok.skip(1)[l] == tok[l + 1]);
        }
        if j < tok.len() {
            assert(tok.skip(1)[j - 1] == tok[j]);
        }
        lemma_first_dot_at(tok.skip(1), j - 1);
    }
}

/// Computes the value of the amount token `v[a..b]`.
fn amount_value_exec(v: &Vec<char>, a: usize, b: usize) -> (r: u64)
    requires
        a <= b <= v@.len(),
        forall|j: int| a <= j < b ==> is_ascii_digit_spec(#[trigger] v@[j]) || v@[j] == '.',
    ensures
        r == amount_value(v@.subrange(a as int, b as int)),
{
    let ghost tok = v@.subrange(a as int, b as int);
    let len = b - a;
    // count the dots and find the first one
    let mut dots: usize = 0;
    let mut fd: usize = len;
    let mut i: usize = 0;
    proof {
        assert(tok.take(0) =~= Seq::<char>::empty());
    }
    while i < len
        invariant
            a <= b <= v@.len(),
            len == b - a,
            tok == v@.subrange(a as int, b as int),
            i <= len,
            dots == dot_count(tok.take(i as int)),
            fd == len || fd < i,
            fd < i ==> tok[fd as int] == '.',
            fd == len ==> forall|l: int| 0 <= l < i ==> #[trigger] tok[l] != '.',
            forall|l: int| 0 <= l < fd && l < i ==> #[trigger] tok[l] != '.',
            dots <= i,
        decreases len - i,
    {
        proof {
            assert(tok.take(i as int + 1).drop_last() =~= tok.take(i as int));
            assert(tok.take(i as int + 1).last() == tok[i as int]);
            assert(tok[i as int] == v@[a + i]);
        }
        if v[a + i] == '.' {
            dots = dots + 1;
            if fd == len {
                fd = i;
            }
        }
        i = i + 1;
    }
    proof {
        assert(tok.take(len as int) =~= tok);
        lemma_first_dot_at(tok, fd as int);
    }
    if !(dots <= 1 && len > dots) {
        return 0;
    }
    // the integer part is the digits before the first dot
    proof {
        assert forall|l: int| 0 <= l < fd implies is_ascii_digit_spec(#[trigger] tok.take(
            fd as int,
        )[l]) by {
            assert(tok.take(fd as int)[l] == tok[l]);
            assert(tok[l] == v@[a + l]);
        }
    }
    let ghost ip = tok.take(fd as int);
    let mut acc: u128 = 0;
    let mut j: usize = 0;
    proof {
        assert(ip.take(0) =~= Seq::<char>::empty());
    }
    while j < fd
        invariant
            a <= b <= v@.len(),
            len == b - a,
            fd <= len,
            tok == v@.subrange(a as int, b as int),
            ip == tok.take(fd as int),
            dot_count(tok) <= 1,
            tok.len() > dot_count(tok),
            first_dot(tok) == fd as int,
            forall|l: int| 0 <= l < fd ==> is_ascii_digit_spec(#[trigger] tok[l]),
            forall|l: int| 0 <= l < ip.len() ==> is_ascii_digit_spec(#[trigger] ip[l]),
            j <= fd,
            acc <= u64::MAX,
            acc as int == digits_val(ip.take(j as int)),
        decreases fd - j,
    {
        let c = v[a + j];
        proof {
            assert(tok[j as int] == v@[a + j]);
            assert(ip[j as int] == tok[j as int]);
            assert(ip.take(j as int + 1).take(j as int) =~= ip.take(j as int));
            assert(ip.take(j as int + 1).last() == ip[j as int]);
        }
        let dv = (c as u32 - 48) as u128;
        let next = acc * 10 + dv;
        if next > u64::MAX as u128 {
            proof {
                assert(ip.take(fd as int) =~= ip);
                lemma_digits_val_mono(ip, j as int + 1);
            }
            return u64::MAX;
        }
        acc = next;
        j = j + 1;
    }
    proof {
        assert(ip.take(fd as int) =~= ip);
    }
    acc as u64
}

/// Copies the characters `v[a..b]` into a new vector.
fn sub_chars(v: &Vec<char>, a: usize, b: usize) -> (r: Vec<char>)
    requires
        a <= b <= v@.len(),
    ensures
        r@ == v@.subrange(a as int, b as int),
{
    let mut r: Vec<char> = Vec::new();
    let mut i: usize = a;
    while i < b
        invariant
            a <= i <= b <= v@.len(),
            r@ == v@.subrange(a as int, i as int),
        decreases b - i,
    {
        let ghost r0 = r@;
        r.push(v[i]);
        proof {
            assert(r0.push(v@[i as int]) =~= v@.subrange(a as int, i as int + 1));
        }
        i = i + 1;
    }
    r
}

/// Returns the action an accepted keyword stands for.
fn kw_action_exec(k: Keyword) -> (r: Option<ActionType>)
    ensures
        r == kw_action(k),
{
    match k {
        Keyword::Folds => Some(ActionType::Fold),
        Keyword::Checks => Some(ActionType::Check),
        Keyword::Calls => Some(ActionType::Call),
        Keyword::Bets => Some(ActionType::Bet),
        Keyword::Raises => Some(ActionType::Raise),
        Keyword::Posts => Some(ActionType::Bet),
        Keyword::Shows => None,
        Keyword::Quits => None,
        Keyword::Joins => None,
    }
}

/// Parses a log row and extracts its action, exactly as `parse_row_spec`
/// describes: `Some` of the unique player identity, the action type and
/// the amount for a betting line or the starting-hand marker, and `None`
/// for every line that is filtered out.
pub fn parse_row(row: &PokerNowRow) -> (r: Option<(String, ActionType, u64)>)
    ensures
        match r {
            Some(t) => parse_row_spec(row.entry@) == Some((t.0@, t.1, t.2)),
            None => parse_row_spec(row.entry@) is None,
        },
{
    let v = chars_of(row.entry.as_str());
    let p = match entry_start_exec(&v) {
        None => {
            return None;
        },
        Some(p) => p,
    };
    if word_at_exec(&v, p, &chars_of("-- starting hand")) {
        return Some((String::from_str("system_reset"), ActionType::Reset, 0));
    }
    let n = match core_match_exec(&v, p) {
        None => {
            return None;
        },
        Some(n) => n,
    };
    let namev = trim_chars(&sub_chars(&v, p, n));
    let mo = id_variant_exec(&v, n);
    let act_pos = match mo {
        Some(m) => m,
        None => n,
    };
    let k = match action_at_exec(&v, act_pos) {
        None => {
            return None;
        },
        Some(k) => k,
    };
    let at = match kw_action_exec(k) {
        None => {
            return None;
        },
        Some(at) => at,
    };
    // the amount that follows the keyword
    let kwlen = match k {
        Keyword::Folds => chars_of("folds").len(),
        Keyword::Checks => chars_of("checks").len(),
        Keyword::Calls => chars_of("calls").len(),
        Keyword::Bets => chars_of("bets").len(),
        Keyword::Raises => chars_of("raises").len(),
        Keyword::Shows => chars_of("shows").len(),
        Keyword::Quits => chars_of("quits").len(),
        Keyword::Joins => chars_of("joins").len(),
        Keyword::Posts => chars_of("posts").len(),
    };
    let vlen = v.len();
    proof {
        assert(kwlen == kw_seq(k).len());
        assert(act_pos < v@.len());
        assert(act_pos + 1 + kw_seq(k).len() <= v@.len());
    }
    let q = act_pos + 1 + kwlen;
    let a = amount_start_exec(&v, q);
    let ae = amount_end_exec(&v, a);
    let raw: u64 = if ae > a {
        amount_value_exec(&v, a, ae)
    } else {
        0
    };
    let amount: u64 = match at {
        ActionType::Fold => 0,
        ActionType::Check => 0,
        _ => raw,
    };
    // the unique player identity
    let mut pidv = namev;
    match mo {
        Some(m) => {
            proof {
                reveal_strlit(" @ ");
            }
            let idv = trim_chars(&sub_chars(&v, n + 3, m));
            if idv.len() > 0 {
                pidv.push('_');
                append_chars(&mut pidv, &idv);
            } else {
                append_chars(&mut pidv, &chars_of("_generated"));
            }
        },
        None => {
            append_chars(&mut pidv, &chars_of("_generated"));
        },
    }
    let pid = string_from_chars(&pidv);
    Some((pid, at, amount))
}

} // verus!
