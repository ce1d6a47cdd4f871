//! Rules for submitting a game: the game-time text, who may log a game, the
//! placement, and how many participants must sign off.

use vstd::prelude::*;

use crate::model::PlayerID;

verus! {

/// Why a game-time text was refused.
#[derive(Clone, Copy, Debug, PartialEq, Eq, Structural)]
pub enum GameTimeError {
    /// More than three `:`-separated parts, or an empty part.
    BadFormat,
    /// A part is not a decimal number that fits a `u32`.
    NotANumber,
    /// The total number of seconds does not fit a `u32`.
    TooLong,
}

/// The `:`-separated parts of a text, in order (an empty text has one empty part).
pub open spec fn segments(s: Seq<char>) -> Seq<Seq<char>>
    decreases s.len(),
{
    if s.len() == 0 {
        seq![Seq::empty()]
    } else {
        let init = segments(s.drop_last());
        if s.last() == ':' {
            init.push(Seq::empty())
        } else {
            init.update(init.len() - 1, init.last().push(s.last()))
        }
    }
}

pub open spec fn is_digit(c: char) -> bool {
    '0' <= c <= '9'
}

/// The value of a run of decimal digits.
pub open spec fn digits_value(d: Seq<char>) -> int
    decreases d.len(),
{
    if d.len() == 0 {
        0
    } else {
        10 * digits_value(d.drop_last()) + (d.last() as int - '0' as int)
    }
}

/// The digits of an unsigned decimal text: what follows an optional leading `+`.
pub open spec fn unsigned_digits(d: Seq<char>) -> Seq<char> {
    if d.len() > 0 && d[0] == '+' {
        d.drop_first()
    } else {
        d
    }
}

/// Whether `d` reads as a `u32` the way Rust's `u32::from_str` reads it: an
/// optional `+`, then one or more ASCII digits, of value at most `u32::MAX`.
pub open spec fn is_u32_text(d: Seq<char>) -> bool {
    let ds = unsigned_digits(d);
    &&& ds.len() > 0
    &&& forall|i: int| 0 <= i < ds.len() ==> is_digit(#[trigger] ds[i])
    &&& digits_value(ds) <= u32::MAX
}

/// The value of a `u32` text.
pub open spec fn u32_text_value(d: Seq<char>) -> int {
    digits_value(unsigned_digits(d))
}

/// The seconds a list of parts gives, read right to left as seconds, minutes, hours.
pub open spec fn seconds_of(parts: Seq<Seq<char>>) -> int {
    let n = parts.len();
    (if n >= 1 { u32_text_value(parts[n - 1]) } else { 0 })
        + 60 * (if n >= 2 { u32_text_value(parts[n - 2]) } else { 0 })
        + 3600 * (if n >= 3 { u32_text_value(parts[n - 3]) } else { 0 })
}

/// What reading a game-time text gives.
pub open spec fn game_time_result(s: Seq<char>) -> Result<u32, GameTimeError> {
    let parts = segments(s);
    if parts.len() > 3 || exists|i: int| 0 <= i < parts.len() && (#[trigger] parts[i]).len() == 0 {
        Err(GameTimeError::BadFormat)
    } else if exists|i: int| 0 <= i < parts.len() && !is_u32_text(#[trigger] parts[i]) {
        Err(GameTimeError::NotANumber)
    } else if seconds_of(parts) > u32::MAX {
        Err(GameTimeError::TooLong)
    } else {
        Ok(seconds_of(parts) as u32)
    }
}

proof fn lemma_digits_value_nonneg(d: Seq<char>)
    requires
        forall|i: int| 0 <= i < d.len() ==> is_digit(#[trigger] d[i]),
    ensures
        digits_value(d) >= 0,
    decreases d.len(),
{
    if d.len() > 0 {
        assert(is_digit(d[d.len() - 1]));
        lemma_digits_value_nonneg(d.drop_last());
    }
}

proof fn lemma_digits_value_grows(d: Seq<char>, c: char)
    requires
        forall|i: int| 0 <= i < d.len() ==> is_digit(#[trigger] d[i]),
        is_digit(c),
    ensures
        digits_value(d.push(c)) >= digits_value(d),
        digits_value(d.push(c)) == 10 * digits_value(d) + (c as int - '0' as int),
{
    assert(d.push(c).drop_last() =~= d);
    lemma_digits_value_nonneg(d);
}

/// Reads a part as a `u32`, as `u32::from_str` does.
pub fn parse_u32_text(d: &Vec<char>) -> (r: Option<u32>)
    ensures
        r is Some <==> is_u32_text(d@),
        r is Some ==> r.unwrap() as int == u32_text_value(d@),
{
    let start: usize = if d.len() > 0 && d[0] == '+' { 1 } else { 0 };
    let ghost ds = unsigned_digits(d@);
    assert(ds =~= d@.subrange(start as int, d@.len() as int));
    if start >= d.len() {
        return None;
    }
    let mut value: u64 = 0;
    let mut i: usize = start;
    while i < d.len()
        invariant
            start <= i <= d@.len(),
            start < d@.len(),
            ds == d@.subrange(start as int, d@.len() as int),
            ds == unsigned_digits(d@),
            forall|j: int| 0 <= j < i - start ==> is_digit(#[trigger] ds[j]),
            value as int == digits_value(ds.subrange(0, i - start)),
            value <= u32::MAX,
        decreases d@.len() - i,
    {
        let c = d[i];
        let ghost pre = ds.subrange(0, i - start);
        assert(ds[i - start] == c);
        if !('0' <= c && c <= '9') {
            assert(!is_digit(ds[i - start]));
            assert(!is_u32_text(d@));
            return None;
        }
        proof {
            assert(ds.subrange(0, i + 1 - start) =~= pre.push(c));
            lemma_digits_value_grows(pre, c);
        }
        value = value * 10 + (c as u64 - '0' as u64);
        if value > u32::MAX as u64 {
            proof {
                lemma_prefix_bound(ds, i + 1 - start);
            }
            assert(!is_u32_text(d@));
            return None;
        }
        i = i + 1;
    }
    assert(ds.subrange(0, d@.len() - start) =~= ds);
    Some(value as u32)
}

/// A run of digits is worth at least any of its prefixes.
proof fn lemma_prefix_bound(ds: Seq<char>, k: int)
    requires
        0 <= k <= ds.len(),
        forall|j: int| 0 <= j < k ==> is_digit(#[trigger] ds[j]),
    ensures
        (forall|j: int| 0 <= j < ds.len() ==> is_digit(#[trigger] ds[j]))
            ==> digits_value(ds) >= digits_value(ds.subrange(0, k)),
    decreases ds.len() - k,
{
    if k < ds.len() && (forall|j: int| 0 <= j < ds.len() ==> is_digit(#[trigger] ds[j])) {
        lemma_prefix_bound(ds, k + 1);
        assert(ds.subrange(0, k + 1) =~= ds.subrange(0, k).push(ds[k]));
        lemma_digits_value_grows(ds.subrange(0, k), ds[k]);
    } else if k == ds.len() {
        assert(ds.subrange(0, k) =~= ds);
    }
}

proof fn lemma_segments_nonempty(s: Seq<char>)
    ensures
        segments(s).len() >= 1,
    decreases s.len(),
{
    if s.len() > 0 {
        lemma_segments_nonempty(s.drop_last());
    }
}

/// The views of a list of character lists.
pub open spec fn views(v: Seq<Vec<char>>) -> Seq<Seq<char>> {
    v.map_values(|x: Vec<char>| x@)
}

/// Splits a text at each `:`.
pub fn split_segments(s: &str) -> (r: Vec<Vec<char>>)
    ensures
        views(r@) == segments(s@),
{
    let n = s.unicode_len();
    let mut done: Vec<Vec<char>> = Vec::new();
    let mut cur: Vec<char> = Vec::new();
    let mut i: usize = 0;
    assert(s@.subrange(0, 0) =~= Seq::<char>::empty());
    assert(views(done@).push(cur@) =~= seq![Seq::<char>::empty()]);
    while i < n
        invariant
            n == s@.len(),
            i <= n,
            views(done@).push(cur@) == segments(s@.subrange(0, i as int)),
        decreases n - i,
    {
        let c = s.get_char(i);
        let ghost pre = s@.subrange(0, i as int);
        let ghost next = s@.subrange(0, i + 1);
        assert(next.drop_last() =~= pre);
        assert(next.last() == c);
        if c == ':' {
            let mut fresh: Vec<char> = Vec::new();
            std::mem::swap(&mut fresh, &mut cur);
            done.push(fresh);
            assert(views(done@).push(cur@) =~= segments(pre).push(Seq::empty()));
        } else {
            let ghost old_cur = cur@;
            cur.push(c);
            assert(views(done@).push(cur@) =~= segments(pre).update(segments(pre).len() - 1, old_cur.push(c)));
        }
        i = i + 1;
    }
    assert(s@.subrange(0, n as int) =~= s@);
    done.push(cur);
    assert(views(done@) =~= segments(s@));
    done
}

/// Reads a game length written `hh:mm:ss`, `mm:ss` or `ss` as a number of
/// seconds. Each part is a `u32` as `u32::from_str` reads it, and no part
/// is bounded by 60.
pub fn parse_game_time(s: &str) -> (r: Result<u32, GameTimeError>)
    ensures
        r == game_time_result(s@),
{
    let parts = split_segments(s);
    let ghost ps = segments(s@);
    assert(ps.len() == parts@.len());
    proof {
        lemma_segments_nonempty(s@);
    }
    if parts.len() > 3 {
        return Err(GameTimeError::BadFormat);
    }
    let mut i: usize = 0;
    while i < parts.len()
        invariant
            ps == segments(s@),
            ps == views(parts@),
            i <= parts@.len(),
            forall|j: int| 0 <= j < i ==> (#[trigger] ps[j]).len() != 0,
        decreases parts@.len() - i,
    {
        if parts[i].len() == 0 {
            assert(ps[i as int].len() == 0);
            return Err(GameTimeError::BadFormat);
        }
        i = i + 1;
    }
    let mut values: Vec<u32> = Vec::new();
    let mut k: usize = 0;
    while k < parts.len()
        invariant
            ps == segments(s@),
            ps == views(parts@),
            ps.len() <= 3,
            forall|j: int| 0 <= j < ps.len() ==> (#[trigger] ps[j]).len() != 0,
            k <= parts@.len(),
            values@.len() == k,
            forall|j: int| 0 <= j < k ==> is_u32_text(#[trigger] ps[j]) && values@[j] as int == u32_text_value(ps[j]),
        decreases parts@.len() - k,
    {
        match parse_u32_text(&parts[k]) {
            Some(v) => values.push(v),
            None => {
                assert(!is_u32_text(ps[k as int]));
                return Err(GameTimeError::NotANumber);
            },
        }
        k = k + 1;
    }
    let n = values.len();
    let secs: u64 = values[n - 1] as u64;
    let mins: u64 = if n >= 2 { values[n - 2] as u64 } else { 0 };
    let hours: u64 = if n >= 3 { values[n - 3] as u64 } else { 0 };
    let total: u64 = secs + 60 * mins + 3600 * hours;
    assert(total as int == seconds_of(ps));
    if total > u32::MAX as u64 {
        return Err(GameTimeError::TooLong);
    }
    Ok(total as u32)
}

/// How many participants of a game of `n` must sign off before it is
/// submitted: all of them up to three, a strict majority beyond.
pub fn signatures_needed(n: usize) -> (r: usize)
    ensures
        r == if n <= 3 { n as int } else { n as int / 2 + 1 },
        r <= n,
{
    if n <= 3 {
        n
    } else {
        n / 2 + 1
    }
}

/// Why a proposed placement was refused.
#[derive(Clone, Copy, Debug, PartialEq, Eq, Structural)]
pub enum BadPlacement {
    /// The poster is neither a participant nor a moderator.
    NotAParty,
    /// The same user is given twice.
    DuplicateUser,
    /// This user has no player account.
    UserNotFound { offending: u64 },
}

/// Whether some user appears twice in a placement.
pub open spec fn has_duplicate(users: Seq<u64>) -> bool {
    exists|i: int, j: int| 0 <= i < j < users.len() && users[i] == users[j]
}

/// Checks a proposed game: the poster (a chat user id) must take part unless
/// a moderator, no user may be given twice, and every user must have a player
/// account. `accounts[i]` is the account found for `placement[i]`, if any.
/// Gives the participants' player ids in placement order.
pub fn validate_placement(
    poster: u64,
    poster_is_moderator: bool,
    placement: &Vec<u64>,
    accounts: &Vec<Option<PlayerID>>,
) -> (r: Result<Vec<PlayerID>, BadPlacement>)
    requires
        accounts@.len() == placement@.len(),
    ensures
        (r == Err::<Vec<PlayerID>, BadPlacement>(BadPlacement::NotAParty))
            <==> (!poster_is_moderator && !placement@.contains(poster)),
        (r == Err::<Vec<PlayerID>, BadPlacement>(BadPlacement::DuplicateUser))
            <==> ((poster_is_moderator || placement@.contains(poster)) && has_duplicate(placement@)),
        r is Ok <==> (poster_is_moderator || placement@.contains(poster)) && !has_duplicate(placement@)
            && forall|i: int| 0 <= i < accounts@.len() ==> (#[trigger] accounts@[i]) is Some,
        r is Ok ==> r.unwrap()@.len() == placement@.len()
            && forall|i: int| 0 <= i < accounts@.len() ==> Some(#[trigger] r.unwrap()@[i]) == accounts@[i],
        forall|u: u64| r == Err::<Vec<PlayerID>, BadPlacement>(BadPlacement::UserNotFound { offending: u }) ==> exists|i: int|
            0 <= i < placement@.len() && placement@[i] == u && accounts@[i] is None
            && forall|j: int| 0 <= j < i ==> (#[trigger] accounts@[j]) is Some,
{
    if !poster_is_moderator {
        let mut found = false;
        let mut i: usize = 0;
        while i < placement.len()
            invariant
                i <= placement@.len(),
                found <==> placement@.subrange(0, i as int).contains(poster),
            decreases placement@.len() - i,
        {
            let ghost pre = placement@.subrange(0, i as int);
            let ghost nxt = placement@.subrange(0, i + 1);
            assert(nxt =~= pre.push(placement@[i as int]));
            if placement[i] == poster {
                found = true;
                assert(nxt[i as int] == poster);
            } else {
                assert(nxt.contains(poster) ==> pre.contains(poster)) by {
                    if nxt.contains(poster) {
                        let k = choose|k: int| 0 <= k < nxt.len() && nxt[k] == poster;
                        assert(pre[k] == poster);
                    }
                }
                assert(pre.contains(poster) ==> nxt.contains(poster)) by {
                    if pre.contains(poster) {
                        let k = choose|k: int| 0 <= k < pre.len() && pre[k] == poster;
                        assert(nxt[k] == poster);
                    }
                }
            }
            i = i + 1;
        }
        assert(placement@.subrange(0, i as int) =~= placement@);
        if !found {
            return Err(BadPlacement::NotAParty);
        }
    }
    let mut a: usize = 0;
    while a < placement.len()
        invariant
            poster_is_moderator || placement@.contains(poster),
            a <= placement@.len(),
            forall|i: int, j: int| 0 <= i < j < placement@.len() && i < a ==> placement@[i] != placement@[j],
        decreases placement@.len() - a,
    {
        let mut b: usize = a + 1;
        while b < placement.len()
            invariant
                poster_is_moderator || placement@.contains(poster),
                a < b <= placement@.len(),
                forall|i: int, j: int| 0 <= i < j < placement@.len() && i < a ==> placement@[i] != placement@[j],
                forall|j: int| a < j < b ==> placement@[a as int] != placement@[j],
            decreases placement@.len() - b,
        {
            if placement[a] == placement[b] {
                assert(placement@[a as int] == placement@[b as int]);
                assert(has_duplicate(placement@));
                return Err(BadPlacement::DuplicateUser);
            }
            b = b + 1;
        }
        a = a + 1;
    }
    let mut ids: Vec<PlayerID> = Vec::new();
    let mut k: usize = 0;
    while k < accounts.len()
        invariant
            poster_is_moderator || placement@.contains(poster),
            accounts@.len() == placement@.len(),
            !has_duplicate(placement@),
            forall|j: int| 0 <= j < k ==> (#[trigger] accounts@[j]) is Some,
            k <= accounts@.len(),
            ids@.len() == k,
            forall|i: int| 0 <= i < k ==> Some(#[trigger] ids@[i]) == accounts@[i],
        decreases accounts@.len() - k,
    {
        match accounts[k] {
            Some(id) => ids.push(id),
            None => {
                assert(accounts@[k as int] is None);
                return Err(BadPlacement::UserNotFound { offending: placement[k] });
            },
        }
        k = k + 1;
    }
    Ok(ids)
}

} // verus!
