//! Login rate limiting: at most five attempts per user in a fifteen-minute window,
//! with old entries swept once the table grows past a thousand users.
//! Times are nanoseconds on the wall clock, supplied by the caller.
use vstd::prelude::*;
use crate::text;

verus! {

/// Attempts allowed per window.
pub const MAX_ATTEMPTS: u32 = 5;
/// Window length (15 minutes) in nanoseconds.
pub const WINDOW_NANOS: u64 = 900_000_000_000;
/// Table size above which out-of-window entries are swept.
pub const CLEANUP_THRESHOLD: usize = 1000;

/// One user's attempt counter.
pub struct LoginAttempt {
    pub username: String,
    pub count: u32,
    /// When the current window began.
    pub since: u64,
}

/// A refused login attempt (HTTP 429).
#[derive(Debug, PartialEq, Eq, Structural)]
pub enum RateLimitError {
    TooManyRequests,
}

/// Attempt counters of all users.
pub struct LoginAttempts {
    entries: Vec<LoginAttempt>,
}

/// The counter recorded for `k`, searching from the most recent entry.
pub open spec fn lookup(s: Seq<LoginAttempt>, k: Seq<char>) -> Option<(u32, u64)>
    decreases s.len(),
{
    if s.len() == 0 {
        None
    } else if s.last().username@ == k {
        Some((s.last().count, s.last().since))
    } else {
        lookup(s.drop_last(), k)
    }
}

pub open spec fn distinct_names(s: Seq<LoginAttempt>) -> bool {
    forall|i: int, j: int| 0 <= i < j < s.len() ==> (#[trigger] s[i]).username@ != (#[trigger] s[j]).username@
}

/// Time since `since`; a time in the future counts as no time at all.
pub open spec fn elapsed(since: u64, now: u64) -> int {
    if now >= since { now - since } else { 0 }
}

/// Whether the table is swept before a check: only when it holds more than the
/// threshold, and then only entries whose window has not yet run out are kept.
pub open spec fn after_sweep(s: Seq<LoginAttempt>, k: Seq<char>, now: u64) -> Option<(u32, u64)> {
    match lookup(s, k) {
        Some(e) => if s.len() > CLEANUP_THRESHOLD && elapsed(e.1, now) >= WINDOW_NANOS { None } else { Some(e) },
        None => None,
    }
}

/// The counter a user's check starts from: the recorded one, or a fresh window, and a
/// fresh window when the recorded one has run out.
pub open spec fn counter_before(s: Seq<LoginAttempt>, k: Seq<char>, now: u64) -> (u32, u64) {
    let e = match after_sweep(s, k, now) {
        Some(e) => e,
        None => (0u32, now),
    };
    if elapsed(e.1, now) > WINDOW_NANOS { (0u32, now) } else { e }
}

/// Whether the check of user `k` at `now` is allowed.
pub open spec fn check_allowed(s: Seq<LoginAttempt>, k: Seq<char>, now: u64) -> bool {
    counter_before(s, k, now).0 < MAX_ATTEMPTS
}

/// The user's counter after the check: one more attempt when allowed, unchanged when
/// refused.
pub open spec fn counter_after(s: Seq<LoginAttempt>, k: Seq<char>, now: u64) -> (u32, u64) {
    let c = counter_before(s, k, now);
    if c.0 < MAX_ATTEMPTS { ((c.0 + 1) as u32, c.1) } else { c }
}

proof fn lemma_lookup_none(s: Seq<LoginAttempt>, k: Seq<char>)
    ensures
        lookup(s, k) is None <==> forall|i: int| 0 <= i < s.len() ==> (#[trigger] s[i]).username@ != k,
    decreases s.len(),
{
    if s.len() > 0 {
        lemma_lookup_none(s.drop_last(), k);
        assert forall|i: int| 0 <= i < s.len() - 1 implies s.drop_last()[i] == #[trigger] s[i] by {}
        if lookup(s, k) is None {
            assert forall|i: int| 0 <= i < s.len() implies (#[trigger] s[i]).username@ != k by {
                if i < s.len() - 1 {
                    assert(s.drop_last()[i] == s[i]);
                }
            }
        }
    }
}

proof fn lemma_lookup_at(s: Seq<LoginAttempt>, i: int)
    requires
        distinct_names(s),
        0 <= i < s.len(),
    ensures
        lookup(s, s[i].username@) == Some((s[i].count, s[i].since)),
    decreases s.len(),
{
    if i < s.len() - 1 {
        assert(s.last().username@ != s[i].username@);
        assert(s.drop_last()[i] == s[i]);
        assert(distinct_names(s.drop_last())) by {
            assert forall|a: int, b: int| 0 <= a < b < s.drop_last().len() implies
                (#[trigger] s.drop_last()[a]).username@ != (#[trigger] s.drop_last()[b]).username@ by {
                assert(s.drop_last()[a] == s[a] && s.drop_last()[b] == s[b]);
            }
        }
        lemma_lookup_at(s.drop_last(), i);
    }
}

/// Looking up any name in a table with distinct names: present exactly at its index.
proof fn lemma_lookup_cases(s: Seq<LoginAttempt>, k: Seq<char>)
    requires
        distinct_names(s),
    ensures
        forall|i: int| 0 <= i < s.len() && (#[trigger] s[i]).username@ == k ==> lookup(s, k) == Some((s[i].count, s[i].since)),
        (forall|i: int| 0 <= i < s.len() ==> (#[trigger] s[i]).username@ != k) ==> lookup(s, k) is None,
{
    lemma_lookup_none(s, k);
    assert forall|i: int| 0 <= i < s.len() && (#[trigger] s[i]).username@ == k implies lookup(s, k) == Some((s[i].count, s[i].since)) by {
        lemma_lookup_at(s, i);
    }
}

/// How many counters are still within their window at `now`.
pub open spec fn window_count(s: Seq<LoginAttempt>, now: u64) -> nat
    decreases s.len(),
{
    if s.len() == 0 {
        0
    } else {
        window_count(s.drop_last(), now) + if elapsed(s.last().since, now) < WINDOW_NANOS { 1nat } else { 0nat }
    }
}

/// How many users have a counter after a check of `k` at `now`: those left
/// by the sweep (all, when the table is not past the threshold), and `k`
/// when it had none.
pub open spec fn size_after_check(s: Seq<LoginAttempt>, k: Seq<char>, now: u64) -> nat {
    (if s.len() > CLEANUP_THRESHOLD { window_count(s, now) } else { s.len() }) + if after_sweep(s, k, now) is Some {
        0nat
    } else {
        1nat
    }
}

/// A table whose counters have all run out keeps none of them in a sweep.
pub proof fn lemma_all_expired(s: Seq<LoginAttempt>, now: u64)
    requires
        forall|i: int| 0 <= i < s.len() ==> elapsed((#[trigger] s[i]).since, now) >= WINDOW_NANOS,
    ensures
        window_count(s, now) == 0,
    decreases s.len(),
{
    if s.len() > 0 {
        assert forall|i: int| 0 <= i < s.drop_last().len() implies elapsed((#[trigger] s.drop_last()[i]).since, now)
            >= WINDOW_NANOS by {
            assert(s.drop_last()[i] == s[i]);
        }
        lemma_all_expired(s.drop_last(), now);
        assert(s.last() == s[s.len() - 1]);
    }
}

impl LoginAttempts {
    /// The table is well formed: no user appears twice.
    pub closed spec fn wf(&self) -> bool {
        distinct_names(self.entries@)
    }

    /// The counters, as recorded entries.
    pub closed spec fn entries_view(&self) -> Seq<LoginAttempt> {
        self.entries@
    }

    pub open spec fn counter(&self, k: Seq<char>) -> Option<(u32, u64)> {
        lookup(self.entries_view(), k)
    }

    pub fn new() -> (r: Self)
        ensures
            r.wf(),
            r.entries_view().len() == 0,
            forall|k: Seq<char>| r.counter(k) is None,
    {
        LoginAttempts { entries: Vec::new() }
    }

    /// Number of users with a counter.
    pub fn len(&self) -> (n: usize)
        ensures
            n == self.entries_view().len(),
    {
        self.entries.len()
    }

    fn find(&self, username: &str) -> (r: Option<usize>)
        requires
            self.wf(),
        ensures
            r matches Some(i) ==> i < self.entries@.len() && self.entries@[i as int].username@ == username@,
            r is None ==> forall|i: int| 0 <= i < self.entries@.len() ==> (#[trigger] self.entries@[i]).username@ != username@,
    {
        let mut i: usize = 0;
        while i < self.entries.len()
            invariant
                i <= self.entries@.len(),
                forall|q: int| 0 <= q < i ==> (#[trigger] self.entries@[q]).username@ != username@,
            decreases self.entries@.len() - i,
        {
            if text::str_eq(self.entries[i].username.as_str(), username) {
                return Some(i);
            }
            i = i + 1;
        }
        None
    }

    /// The counter of `username`, if it has one.
    pub fn get(&self, username: &str) -> (r: Option<(u32, u64)>)
        requires
            self.wf(),
        ensures
            r == self.counter(username@),
    {
        proof { lemma_lookup_cases(self.entries@, username@); }
        match self.find(username) {
            Some(i) => Some((self.entries[i].count, self.entries[i].since)),
            None => None,
        }
    }

    /// Whether `username` has a counter.
    pub fn contains_key(&self, username: &str) -> (r: bool)
        requires
            self.wf(),
        ensures
            r == self.counter(username@) is Some,
    {
        self.get(username).is_some()
    }

    /// Sets the counter of `username` (adding it when absent).
    pub fn insert(&mut self, username: &str, count: u32, since: u64)
        requires
            old(self).wf(),
        ensures
            final(self).wf(),
            final(self).counter(username@) == Some((count, since)),
            forall|k: Seq<char>| k != username@ ==> final(self).counter(k) == old(self).counter(k),
            final(self).entries_view().len() == old(self).entries_view().len() + if old(self).counter(username@) is Some {
                0nat
            } else {
                1nat
            },
    {
        let ghost s0 = self.entries@;
        proof {
            lemma_lookup_cases(s0, username@);
        }
        let name = text::string_from(text::chars_of(username).as_slice());
        let e = LoginAttempt { username: name, count, since };
        match self.find(username) {
            Some(i) => {
                self.entries.set(i, e);
                proof {
                    let s1 = self.entries@;
                    assert(s1 == s0.update(i as int, e));
                    assert forall|a: int, b: int| 0 <= a < b < s1.len() implies
                        (#[trigger] s1[a]).username@ != (#[trigger] s1[b]).username@ by {
                        assert(s1[a].username@ == s0[a].username@);
                        assert(s1[b].username@ == s0[b].username@);
                    }
                    lemma_lookup_at(s1, i as int);
                    assert forall|k: Seq<char>| k != username@ implies lookup(s1, k) == lookup(s0, k) by {
                        lemma_lookup_cases(s0, k);
                        lemma_lookup_cases(s1, k);
                        assert forall|q: int| 0 <= q < s1.len() implies
                            ((#[trigger] s1[q]).username@ == k <==> s0[q].username@ == k) by {}
                        if exists|q: int| 0 <= q < s0.len() && (#[trigger] s0[q]).username@ == k {
                            let q = choose|q: int| 0 <= q < s0.len() && (#[trigger] s0[q]).username@ == k;
                            assert(s1[q] == s0[q]);
                        }
                    }
                }
            },
            None => {
                self.entries.push(e);
                proof {
                    let s1 = self.entries@;
                    assert(s1 == s0.push(e));
                    assert forall|a: int, b: int| 0 <= a < b < s1.len() implies
                        (#[trigger] s1[a]).username@ != (#[trigger] s1[b]).username@ by {
                        if b == s1.len() - 1 {
                            assert(s1[a] == s0[a]);
                        } else {
                            assert(s1[a] == s0[a] && s1[b] == s0[b]);
                        }
                    }
                    assert(s1.drop_last() == s0);
                }
            },
        }
    }

    /// Drops the counters whose window has run out (those with at least a window's
    /// time elapsed).
    fn sweep(&mut self, now: u64)
        requires
            old(self).wf(),
        ensures
            final(self).wf(),
            forall|k: Seq<char>| #[trigger] final(self).counter(k) == match old(self).counter(k) {
                Some(e) => if elapsed(e.1, now) >= WINDOW_NANOS { None } else { Some(e) },
                None => None,
            },
            final(self).entries_view().len() == window_count(old(self).entries_view(), now),
    {
        let ghost s0 = self.entries@;
        let mut kept: Vec<LoginAttempt> = Vec::new();
        let mut old_entries: Vec<LoginAttempt> = Vec::new();
        std::mem::swap(&mut old_entries, &mut self.entries);
        assert(old_entries@ == s0);
        let n = old_entries.len();
        let mut i: usize = 0;
        while i < n
            invariant
                n == s0.len(),
                old_entries@ == s0,
                distinct_names(s0),
                i <= n,
                distinct_names(kept@),
                kept@.len() == window_count(s0.take(i as int), now),
                forall|k: Seq<char>| #[trigger] lookup(kept@, k) == match lookup(s0.take(i as int), k) {
                    Some(e) => if elapsed(e.1, now) >= WINDOW_NANOS { None } else { Some(e) },
                    None => None,
                },
            decreases n - i,
        {
            let e = &old_entries[i];
            let keep = if now >= e.since { now - e.since < WINDOW_NANOS } else { true };
            proof {
                let t0 = s0.take(i as int);
                let t1 = s0.take(i as int + 1);
                assert(t1.drop_last() == t0);
                assert(t1.last() == s0[i as int]);
                assert forall|q: int| 0 <= q < t0.len() implies (#[trigger] t0[q]).username@ != s0[i as int].username@ by {
                    assert(t0[q] == s0[q]);
                }
                lemma_lookup_none(t0, s0[i as int].username@);
            }
            let ghost k0 = kept@;
            if keep {
                let copy = LoginAttempt { username: e.username.clone(), count: e.count, since: e.since };
                proof {
                    lemma_lookup_none(k0, s0[i as int].username@);
                }
                kept.push(copy);
                proof {
                    assert(kept@.drop_last() == k0);
                    assert forall|a: int, b: int| 0 <= a < b < kept@.len() implies
                        (#[trigger] kept@[a]).username@ != (#[trigger] kept@[b]).username@ by {
                        if b == kept@.len() - 1 {
                            assert(kept@[a] == k0[a]);
                        } else {
                            assert(kept@[a] == k0[a] && kept@[b] == k0[b]);
                        }
                    }
                }
            }
            proof {
                let t0 = s0.take(i as int);
                let t1 = s0.take(i as int + 1);
                assert(t1.drop_last() == t0);
                assert(t1.last() == s0[i as int]);
                if keep {
                    assert(kept@.drop_last() == k0);
                    assert(kept@.last().username@ == s0[i as int].username@);
                } else {
                    assert(kept@ == k0);
                }
                assert forall|k: Seq<char>| #[trigger] lookup(kept@, k) == match lookup(t1, k) {
                    Some(e) => if elapsed(e.1, now) >= WINDOW_NANOS { None } else { Some(e) },
                    None => None,
                } by {
                    assert(lookup(k0, k) == match lookup(t0, k) {
                        Some(e) => if elapsed(e.1, now) >= WINDOW_NANOS { None } else { Some(e) },
                        None => None,
                    });
                }
            }
            i = i + 1;
        }
        assert(s0.take(n as int) == s0);
        self.entries = kept;
    }

    /// Records a login attempt by `username` at `now`: refuses it when the user has
    /// used up the attempts of the current window, else counts it. When the table
    /// holds more than the threshold, out-of-window counters are swept first.
    pub fn check_rate_limit(&mut self, username: &str, now: u64) -> (r: Result<(), RateLimitError>)
        requires
            old(self).wf(),
        ensures
            final(self).wf(),
            r is Ok <==> check_allowed(old(self).entries_view(), username@, now),
            final(self).counter(username@) == Some(counter_after(old(self).entries_view(), username@, now)),
            forall|k: Seq<char>| k != username@ ==> #[trigger] final(self).counter(k)
                == after_sweep(old(self).entries_view(), k, now),
            final(self).entries_view().len() == size_after_check(old(self).entries_view(), username@, now),
    {
        let ghost s0 = self.entries@;
        if self.entries.len() > CLEANUP_THRESHOLD {
            self.sweep(now);
        }
        assert forall|k: Seq<char>| #[trigger] self.counter(k) == after_sweep(s0, k, now) by {}
        let (count, since) = match self.get(username) {
            Some(e) => e,
            None => (0u32, now),
        };
        let expired = if now >= since { now - since > WINDOW_NANOS } else { false };
        let (count, since) = if expired { (0u32, now) } else { (count, since) };
        if count >= MAX_ATTEMPTS {
            self.insert(username, count, since);
            return Err(RateLimitError::TooManyRequests);
        }
        self.insert(username, count + 1, since);
        Ok(())
    }

    /// After a successful login the user's window restarts at `now` with no attempts.
    pub fn reset(&mut self, username: &str, now: u64)
        requires
            old(self).wf(),
        ensures
            final(self).wf(),
            old(self).counter(username@) is Some ==> final(self).counter(username@) == Some((0u32, now)),
            old(self).counter(username@) is None ==> final(self).counter(username@) is None,
            forall|k: Seq<char>| k != username@ ==> final(self).counter(k) == old(self).counter(k),
    {
        if self.contains_key(username) {
            self.insert(username, 0, now);
        }
    }
}


/// No user ever has more than `MAX_ATTEMPTS` counted attempts: from a table
/// where the user's counter is within the bound, a check keeps it within the
/// bound; and a refused attempt changes nothing about the user's counter.
pub proof fn lemma_attempts_bounded(s: Seq<LoginAttempt>, k: Seq<char>, now: u64)
    requires
        lookup(s, k) matches Some(e) ==> e.0 <= MAX_ATTEMPTS,
    ensures
        counter_after(s, k, now).0 <= MAX_ATTEMPTS,
        !check_allowed(s, k, now) ==> counter_after(s, k, now) == counter_before(s, k, now),
        !check_allowed(s, k, now) ==> counter_before(s, k, now).0 == MAX_ATTEMPTS,
{
}

/// Within a window, the sixth attempt is refused: once a user has five
/// counted attempts whose window is still open, the next check fails.
pub proof fn lemma_sixth_attempt_refused(s: Seq<LoginAttempt>, k: Seq<char>, now: u64)
    requires
        lookup(s, k) matches Some(e) && e.0 == MAX_ATTEMPTS && elapsed(e.1, now) <= WINDOW_NANOS,
        s.len() <= CLEANUP_THRESHOLD,
    ensures
        !check_allowed(s, k, now),
{
}


/// An allowed check counts one more attempt in the same window: it keeps
/// the window's start, so the window still ends fifteen minutes after the
/// attempt that opened it.
pub proof fn lemma_allowed_check_keeps_window(s: Seq<LoginAttempt>, k: Seq<char>, now: u64)
    requires
        check_allowed(s, k, now),
    ensures
        counter_after(s, k, now).1 == counter_before(s, k, now).1,
        counter_after(s, k, now).0 == counter_before(s, k, now).0 + 1,
        match lookup(s, k) {
            Some(e) => s.len() <= CLEANUP_THRESHOLD && elapsed(e.1, now) <= WINDOW_NANOS ==> counter_after(s, k, now)
                == ((e.0 + 1) as u32, e.1),
            None => true,
        },
        lookup(s, k) is None ==> counter_after(s, k, now) == (1u32, now),
{
}

/// The window runs out fifteen minutes after the attempt that opened it,
/// whatever was counted since: after a check at `t1` within a user's window
/// begun at `since` (or opening one at `t1` when the user had none), a check
/// more than fifteen minutes after that start is allowed.
pub proof fn lemma_window_expires(s1: Seq<LoginAttempt>, s2: Seq<LoginAttempt>, k: Seq<char>, t1: u64, t2: u64)
    requires
        lookup(s2, k) == Some(counter_after(s1, k, t1)),
        match lookup(s1, k) {
            Some(e) => s1.len() <= CLEANUP_THRESHOLD && elapsed(e.1, t1) <= WINDOW_NANOS && elapsed(e.1, t2)
                > WINDOW_NANOS,
            None => true,
        },
        lookup(s1, k) is None ==> elapsed(t1, t2) > WINDOW_NANOS,
    ensures
        check_allowed(s2, k, t2),
{
}

} // verus!
