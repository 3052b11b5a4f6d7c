use vstd::prelude::*;

use crate::clock::{instant_now, millis_since};
use crate::i18n::{ascii_lowered, is_ascii_text, lowercase, to_lower};
use crate::text::same_text;

verus! {

/// Length of the sliding window, in seconds.
pub const WINDOW_SECS: u64 = 60;

/// Attempts allowed per key within one window.
pub const MAX_ATTEMPTS: usize = 10;

/// Keys silent for this many seconds are forgotten.
pub const GC_SECS: u64 = 300;

/// The attempts of one key (peer address and lower-cased user name): the
/// times, in milliseconds on the limiter's clock, of the attempts kept.
#[derive(Debug)]
pub struct RateEntry {
    pub ip: u128,
    pub user: String,
    pub stamps: std::collections::VecDeque<u64>,
}

/// Sliding-window limiter of authentication attempts per (address, user).
pub struct AuthRateLimiter {
    pub entries: Vec<RateEntry>,
    pub origin: std::time::Instant,
    /// The latest time used for an attempt, so that the limiter's clock
    /// never runs backwards.
    pub last_now: u64,
}

pub type EntryView = (u128, Seq<char>, Seq<u64>);

pub open spec fn entry_view(e: RateEntry) -> EntryView {
    (e.ip, e.user@, e.stamps@)
}

pub open spec fn entries_view(v: Seq<RateEntry>) -> Seq<EntryView> {
    v.map_values(|e: RateEntry| entry_view(e))
}

/// Time from `t` to `now`, zero if `t` is later.
pub open spec fn since(now: u64, t: u64) -> int {
    if now >= t {
        now - t
    } else {
        0
    }
}

/// An entry survives collection at `now`: its last attempt is recent.
pub open spec fn recent(e: EntryView, now: u64) -> bool {
    e.2.len() > 0 && since(now, e.2.last()) < GC_SECS * 1000
}

/// The entries kept at `now`, in order.
pub open spec fn collected(t: Seq<EntryView>, now: u64) -> Seq<EntryView>
    decreases t.len(),
{
    if t.len() == 0 {
        t
    } else {
        let rest = collected(t.drop_last(), now);
        if recent(t.last(), now) {
            rest.push(t.last())
        } else {
            rest
        }
    }
}

/// The stamps still inside the window at `now` (older ones dropped from the
/// front).
pub open spec fn in_window(s: Seq<u64>, now: u64) -> Seq<u64>
    decreases s.len(),
{
    if s.len() > 0 && since(now, s[0]) >= WINDOW_SECS * 1000 {
        in_window(s.drop_first(), now)
    } else {
        s
    }
}

/// The index of the first entry of the key, if any.
pub open spec fn key_index(t: Seq<EntryView>, ip: u128, user: Seq<char>) -> Option<int>
    decreases t.len(),
{
    if t.len() == 0 {
        None
    } else if t[0].0 == ip && t[0].1 == user {
        Some(0)
    } else {
        match key_index(t.drop_first(), ip, user) {
            Some(i) => Some(i + 1),
            None => None,
        }
    }
}

proof fn lemma_key_index(t: Seq<EntryView>, ip: u128, user: Seq<char>)
    ensures
        key_index(t, ip, user) matches Some(i) ==> 0 <= i < t.len() && t[i].0 == ip && t[i].1 == user,
    decreases t.len(),
{
    if t.len() > 0 {
        lemma_key_index(t.drop_first(), ip, user);
    }
}

/// One attempt of `(ip, user)` at `now`: collection, then the key's window;
/// accepted (and stamped) when fewer than `MAX_ATTEMPTS` stamps remain. A new
/// key is appended.
pub open spec fn attempt(t: Seq<EntryView>, ip: u128, user: Seq<char>, now: u64) -> (bool, Seq<EntryView>) {
    let g = collected(t, now);
    match key_index(g, ip, user) {
        Some(i) => {
            let w = in_window(g[i].2, now);
            let ok = w.len() < MAX_ATTEMPTS;
            (
                ok,
                g.update(
                    i,
                    (
                        ip,
                        user,
                        if ok {
                            w.push(now)
                        } else {
                            w
                        },
                    ),
                ),
            )
        },
        None => (true, g.push((ip, user, seq![now]))),
    }
}

fn copy_stamps(s: &std::collections::VecDeque<u64>) -> (r: std::collections::VecDeque<u64>)
    ensures
        r@ == s@,
{
    let mut r = std::collections::VecDeque::new();
    let mut i: usize = 0;
    while i < s.len()
        invariant
            i <= s@.len(),
            r@ == s@.subrange(0, i as int),
        decreases s@.len() - i,
    {
        r.push_back(s[i]);
        assert(s@.subrange(0, i + 1) =~= s@.subrange(0, i as int).push(s@[i as int]));
        i += 1;
    }
    assert(s@.subrange(0, i as int) =~= s@);
    r
}

fn since_exec(now: u64, t: u64) -> (d: u64)
    ensures
        d == since(now, t),
{
    if now >= t {
        now - t
    } else {
        0
    }
}

impl AuthRateLimiter {
    pub open spec fn table(&self) -> Seq<EntryView> {
        entries_view(self.entries@)
    }

    /// A limiter with no attempts recorded.
    pub fn new() -> (l: Self)
        ensures
            l.table().len() == 0,
    {
        let l = AuthRateLimiter { entries: Vec::new(), origin: instant_now(), last_now: 0 };
        assert(l.table() =~= Seq::<EntryView>::empty());
        l
    }

    fn collect(&mut self, now: u64)
        ensures
            final(self).table() == collected(old(self).table(), now),
    {
        let ghost t0 = self.table();
        let mut kept: Vec<RateEntry> = Vec::new();
        let mut i: usize = 0;
        while i < self.entries.len()
            invariant
                t0 == entries_view(self.entries@),
                i <= self.entries@.len(),
                entries_view(kept@) == collected(t0.subrange(0, i as int), now),
            decreases self.entries@.len() - i,
        {
            let ghost next = t0.subrange(0, i + 1);
            assert(next.drop_last() =~= t0.subrange(0, i as int));
            let e = &self.entries[i];
            let n = e.stamps.len();
            let keep = n > 0 && since_exec(now, e.stamps[n - 1]) < GC_SECS * 1000;
            if keep {
                let c = RateEntry { ip: e.ip, user: e.user.clone(), stamps: copy_stamps(&e.stamps) };
                kept.push(c);
            }
            assert(entries_view(kept@) =~= collected(next, now));
            i += 1;
        }
        assert(t0.subrange(0, i as int) =~= t0);
        self.entries = kept;
    }

    fn find_key(&self, ip: u128, user: &str) -> (r: Option<usize>)
        ensures
            match r {
                Some(i) => i < self.entries@.len() && key_index(self.table(), ip, user@) == Some(i as int),
                None => key_index(self.table(), ip, user@).is_none(),
            },
    {
        let ghost t = self.table();
        let mut i: usize = 0;
        assert(t.skip(0) =~= t);
        while i < self.entries.len()
            invariant
                t == self.table(),
                i <= self.entries@.len(),
                key_index(t, ip, user@) == match key_index(t.skip(i as int), ip, user@) {
                    Some(k) => Some(k + i),
                    None => None::<int>,
                },
            decreases self.entries@.len() - i,
        {
            assert(t.skip(i as int)[0] == t[i as int]);
            if self.entries[i].ip == ip && same_text(self.entries[i].user.as_str(), user) {
                return Some(i);
            }
            assert(t.skip(i as int).drop_first() =~= t.skip(i + 1));
            i += 1;
        }
        assert(t.skip(i as int).len() == 0);
        None
    }

    /// Records an attempt by `(ip, user)`, `user` already lower-cased, at time
    /// `now` (milliseconds on the limiter's clock); see `attempt`.
    pub fn record_attempt(&mut self, ip: u128, user: &str, now: u64) -> (ok: bool)
        ensures
            (ok, final(self).table()) == attempt(old(self).table(), ip, user@, now),
    {
        self.collect(now);
        let ghost g = self.table();
        match self.find_key(ip, user) {
            Some(idx) => {
                proof {
                    lemma_key_index(g, ip, user@);
                }
                let ghost entries_before = self.entries@;
                let mut e = self.entries.remove(idx);
                assert(e == entries_before[idx as int]);
                assert(entry_view(e) == g[idx as int]);
                let ghost s0 = e.stamps@;
                let ghost e_ip = e.ip;
                let ghost e_user = e.user@;
                assert(e_ip == ip && e_user == user@);
                while e.stamps.len() > 0 && since_exec(now, e.stamps[0]) >= WINDOW_SECS * 1000
                    invariant
                        in_window(s0, now) == in_window(e.stamps@, now),
                        e.ip == e_ip,
                        e.user@ == e_user,
                    decreases e.stamps@.len(),
                {
                    let ghost before = e.stamps@;
                    e.stamps.pop_front();
                    assert(e.stamps@ =~= before.drop_first());
                }
                assert(in_window(e.stamps@, now) == e.stamps@);
                let ok = e.stamps.len() < MAX_ATTEMPTS;
                if ok {
                    e.stamps.push_back(now);
                }
                let ghost e_final = entry_view(e);
                self.entries.insert(idx, e);
                assert(self.entries@ == entries_before.remove(idx as int).insert(idx as int, e));
                proof {
                    assert(self.table() =~= g.update(
                        idx as int,
                        (
                            ip,
                            user@,
                            if ok {
                                in_window(s0, now).push(now)
                            } else {
                                in_window(s0, now)
                            },
                        ),
                    ));
                }
                ok
            },
            None => {
                let mut stamps = std::collections::VecDeque::new();
                stamps.push_back(now);
                self.entries.push(RateEntry { ip, user: user.to_owned(), stamps });
                proof {
                    assert(self.table() =~= g.push((ip, user@, seq![now])));
                }
                true
            },
        }
    }

    /// Records an attempt by `(ip, username)` at time `now` (milliseconds on
    /// the limiter's clock), the user name compared without case; `true` when
    /// it is within the limit.
    pub fn check_and_record_at(&mut self, ip: u128, username: &str, now: u64) -> (ok: bool)
        ensures
            (ok, final(self).table()) == attempt(old(self).table(), ip, lowercase(username@), now),
            is_ascii_text(username@) ==> (ok, final(self).table()) == attempt(
                old(self).table(),
                ip,
                ascii_lowered(username@),
                now,
            ),
    {
        let user = to_lower(username);
        self.record_attempt(ip, user.as_str(), now)
    }

    /// Records an attempt now, by the limiter's monotonic clock: the time
    /// used, kept as `last_now`, is never earlier than that of the previous
    /// attempt.
    pub fn check_and_record(&mut self, ip: u128, username: &str) -> (ok: bool)
        ensures
            final(self).last_now >= old(self).last_now,
            (ok, final(self).table()) == attempt(old(self).table(), ip, lowercase(username@), final(self).last_now),
            is_ascii_text(username@) ==> (ok, final(self).table()) == attempt(
                old(self).table(),
                ip,
                ascii_lowered(username@),
                final(self).last_now,
            ),
    {
        let clock = millis_since(&self.origin);
        let now = if clock > self.last_now {
            clock
        } else {
            self.last_now
        };
        let ok = self.check_and_record_at(ip, username, now);
        self.last_now = now;
        ok
    }
}

/// The answers to attempts of one key at the times `times`, in order, and
/// the table after the last of them.
pub open spec fn attempts(t: Seq<EntryView>, ip: u128, user: Seq<char>, times: Seq<u64>) -> (Seq<bool>, Seq<EntryView>)
    decreases times.len(),
{
    if times.len() == 0 {
        (Seq::empty(), t)
    } else {
        let prev = attempts(t, ip, user, times.drop_last());
        let r = attempt(prev.1, ip, user, times.last());
        (prev.0.push(r.0), r.1)
    }
}

/// Times that never go back and all fall within one window of the first.
pub open spec fn within_one_window(times: Seq<u64>) -> bool {
    &&& forall|i: int, j: int| 0 <= i <= j < times.len() ==> times[i] <= times[j]
    &&& forall|i: int| 0 <= i < times.len() ==> #[trigger] times[i] - times[0] < WINDOW_SECS * 1000
}

proof fn lemma_attempts_in_window(ip: u128, user: Seq<char>, times: Seq<u64>)
    requires
        within_one_window(times),
    ensures
        ({
            let (answers, t) = attempts(Seq::empty(), ip, user, times);
            let kept: int = if times.len() < MAX_ATTEMPTS { times.len() as int } else { MAX_ATTEMPTS as int };
            &&& answers.len() == times.len()
            &&& forall|i: int| 0 <= i < times.len() ==> answers[i] == (i < MAX_ATTEMPTS)
            &&& times.len() > 0 ==> t == seq![(ip, user, times.subrange(0, kept))]
            &&& times.len() == 0 ==> t.len() == 0
        }),
    decreases times.len(),
{
    if times.len() > 0 {
        let before = times.drop_last();
        assert(within_one_window(before));
        lemma_attempts_in_window(ip, user, before);
        let prev = attempts(Seq::empty(), ip, user, before);
        let now = times.last();
        let n = before.len();
        if n == 0 {
            assert(collected(prev.1, now) =~= prev.1);
            assert(attempt(prev.1, ip, user, now) == (true, seq![(ip, user, seq![now])]));
            assert(times.subrange(0, 1) =~= seq![now]);
        } else {
            let kept: int = if n < MAX_ATTEMPTS { n as int } else { MAX_ATTEMPTS as int };
            let stamps = times.subrange(0, kept);
            let e = (ip, user, stamps);
            assert(before.subrange(0, kept) =~= stamps);
            assert(prev.1 == seq![e]);
            assert(stamps.last() == times[kept - 1]);
            assert(times[kept - 1] <= now);
            assert(recent(e, now));
            assert(collected(prev.1, now) =~= prev.1) by {
                assert(prev.1.drop_last() =~= Seq::<EntryView>::empty());
                assert(collected(Seq::<EntryView>::empty(), now) == Seq::<EntryView>::empty());
                assert(prev.1.last() == e);
                assert(Seq::<EntryView>::empty().push(e) =~= seq![e]);
            }
            assert(key_index(prev.1, ip, user) == Some(0int));
            assert(stamps[0] == times[0]);
            assert(in_window(stamps, now) == stamps);
            if n < MAX_ATTEMPTS {
                assert(stamps.push(now) =~= times.subrange(0, n as int + 1));
            }
        }
    }
}

/// At most `MAX_ATTEMPTS` attempts of a key are accepted within one window:
/// starting from a fresh limiter, attempts at times that never go back and
/// stay within one window of the first are accepted exactly while fewer
/// than `MAX_ATTEMPTS` came before; a refused attempt records nothing, so
/// the key keeps the stamps of the accepted ones only.
pub proof fn law_attempts_per_window(ip: u128, user: Seq<char>, times: Seq<u64>)
    requires
        within_one_window(times),
    ensures
        attempts(Seq::empty(), ip, user, times).0.len() == times.len(),
        forall|i: int|
            0 <= i < times.len() ==> #[trigger] attempts(Seq::empty(), ip, user, times).0[i] == (i
                < MAX_ATTEMPTS),
        times.len() > 0 ==> attempts(Seq::empty(), ip, user, times).1 == seq![
            (ip, user, times.subrange(0, if times.len() < MAX_ATTEMPTS { times.len() as int } else { MAX_ATTEMPTS as int })),
        ],
{
    lemma_attempts_in_window(ip, user, times);
}

/// Another key is not held back by the first one's attempts: after any
/// attempts of `(ip, user)` within one window, an attempt of a different
/// name from the same address, within that window, is accepted.
pub proof fn law_other_key_unaffected(ip: u128, user: Seq<char>, other: Seq<char>, times: Seq<u64>, now: u64)
    requires
        user != other,
        within_one_window(times.push(now)),
    ensures
        attempt(attempts(Seq::empty(), ip, user, times).1, ip, other, now).0,
{
    let all = times.push(now);
    assert forall|i: int, j: int| 0 <= i <= j < times.len() implies times[i] <= times[j] by {
        assert(all[i] == times[i] && all[j] == times[j]);
    }
    assert forall|i: int| 0 <= i < times.len() implies #[trigger] times[i] - times[0] < WINDOW_SECS * 1000 by {
        assert(all[i] == times[i] && all[0] == times[0]);
    }
    lemma_attempts_in_window(ip, user, times);
    let t = attempts(Seq::empty(), ip, user, times).1;
    if times.len() > 0 {
        let kept: int = if times.len() < MAX_ATTEMPTS { times.len() as int } else { MAX_ATTEMPTS as int };
        let e = (ip, user, times.subrange(0, kept));
        assert(t == seq![e]);
        let g = collected(t, now);
        assert(t.drop_last() =~= Seq::<EntryView>::empty());
        assert(t.last() == e);
        assert(collected(Seq::<EntryView>::empty(), now) == Seq::<EntryView>::empty());
        if recent(e, now) {
            assert(g =~= seq![e]);
            assert(key_index(seq![e].drop_first(), ip, other) is None);
        } else {
            assert(g =~= Seq::<EntryView>::empty());
        }
    } else {
        assert(collected(t, now).len() == 0);
    }
}

/// A key never holds more than `MAX_ATTEMPTS` stamps after an attempt, as long
/// as none did before.
pub proof fn law_attempts_bounded(t: Seq<EntryView>, ip: u128, user: Seq<char>, now: u64)
    requires
        forall|i: int| 0 <= i < t.len() ==> (#[trigger] t[i]).2.len() <= MAX_ATTEMPTS,
    ensures
        forall|i: int|
            0 <= i < attempt(t, ip, user, now).1.len() ==> (#[trigger] attempt(t, ip, user, now).1[i]).2.len()
                <= MAX_ATTEMPTS,
{
    lemma_collected_sub(t, now);
    let g = collected(t, now);
    assert forall|k: int| 0 <= k < g.len() implies (#[trigger] g[k]).2.len() <= MAX_ATTEMPTS by {
        let j = choose|j: int| 0 <= j < t.len() && t[j] == g[k];
        assert(t[j].2.len() <= MAX_ATTEMPTS);
    }
    lemma_key_index(g, ip, user);
    match key_index(g, ip, user) {
        Some(i) => {
            lemma_in_window_len(g[i].2, now);
            assert(g[i].2.len() <= MAX_ATTEMPTS);
        },
        None => {},
    }
}

proof fn lemma_in_window_len(s: Seq<u64>, now: u64)
    ensures
        in_window(s, now).len() <= s.len(),
    decreases s.len(),
{
    if s.len() > 0 && since(now, s[0]) >= WINDOW_SECS * 1000 {
        lemma_in_window_len(s.drop_first(), now);
    }
}

proof fn lemma_collected_sub(t: Seq<EntryView>, now: u64)
    ensures
        forall|i: int|
            0 <= i < collected(t, now).len() ==> exists|j: int|
                0 <= j < t.len() && t[j] == #[trigger] collected(t, now)[i],
    decreases t.len(),
{
    if t.len() > 0 {
        lemma_collected_sub(t.drop_last(), now);
        let rest = collected(t.drop_last(), now);
        assert forall|i: int|
            0 <= i < collected(t, now).len() implies exists|j: int|
                0 <= j < t.len() && t[j] == #[trigger] collected(t, now)[i] by {
            if i < rest.len() {
                let j = choose|j: int| 0 <= j < t.drop_last().len() && t.drop_last()[j] == rest[i];
                assert(t[j] == collected(t, now)[i]);
            } else {
                assert(t[t.len() - 1] == collected(t, now)[i]);
            }
        }
    }
}

} // verus!
