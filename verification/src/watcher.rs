//! De-duplicating the clip watcher's notifications: a saved clip touches its
//! file many times, but is announced once.

use vstd::prelude::*;
use crate::text::{chars_of, str_eq};

verus! {

/// How long, in nanoseconds, a path stays quiet after it was announced.
pub const QUIET_NS: u64 = 60_000_000_000;

/// How long, in nanoseconds, an announcement is remembered.
pub const MEMORY_NS: u64 = 300_000_000_000;

/// When `path` was last announced according to the record `m`, if it is
/// remembered (the last entry for it counts).
pub open spec fn announced_at(m: Seq<(Seq<char>, u64)>, path: Seq<char>) -> Option<u64>
    decreases m.len(),
{
    if m.len() == 0 {
        None
    } else if m.last().0 == path {
        Some(m.last().1)
    } else {
        announced_at(m.drop_last(), path)
    }
}

/// Whether no path occurs twice in the record.
pub open spec fn unique_paths(m: Seq<(Seq<char>, u64)>) -> bool {
    forall|i: int, j: int| 0 <= i < j < m.len() ==> (#[trigger] m[i]).0 != (#[trigger] m[j]).0
}

/// Whether a path last announced at `t` is still quiet at `now`: less than
/// a minute has passed.
pub open spec fn still_quiet(t: u64, now: u64) -> bool {
    now >= t && now - t < QUIET_NS
}

/// Whether an announcement at `t` is still remembered at `now`: less than
/// five minutes have passed.
pub open spec fn remembered(t: u64, now: u64) -> bool {
    now >= t && now - t < MEMORY_NS
}

/// When `p` counts as announced after `path` was announced at `now`.
pub open spec fn after_announcing(
    before: Seq<(Seq<char>, u64)>,
    path: Seq<char>,
    now: u64,
    p: Seq<char>,
) -> Option<u64> {
    if p == path {
        Some(now)
    } else {
        match announced_at(before, p) {
            Some(t) => if remembered(t, now) {
                Some(t)
            } else {
                None
            },
            None => None,
        }
    }
}

/// The abstract record of a list of announcements.
pub open spec fn record_view(v: Seq<(String, u64)>) -> Seq<(Seq<char>, u64)> {
    v.map_values(|e: (String, u64)| (e.0@, e.1))
}

/// The paths announced recently, each with the time of its announcement.
pub struct Debouncer {
    seen: Vec<(String, u64)>,
}

impl View for Debouncer {
    type V = Seq<(Seq<char>, u64)>;

    closed spec fn view(&self) -> Seq<(Seq<char>, u64)> {
        record_view(self.seen@)
    }
}

proof fn lemma_announced_none(m: Seq<(Seq<char>, u64)>, p: Seq<char>)
    ensures
        announced_at(m, p) is None <==> forall|j: int| 0 <= j < m.len() ==> (#[trigger] m[j]).0
            != p,
    decreases m.len(),
{
    if m.len() > 0 {
        lemma_announced_none(m.drop_last(), p);
        if announced_at(m, p) is None {
            assert forall|j: int| 0 <= j < m.len() implies (#[trigger] m[j]).0 != p by {
                if j < m.len() - 1 {
                    assert(m.drop_last()[j] == m[j]);
                }
            }
        } else if m.last().0 != p {
            let j = choose|j: int| 0 <= j < m.drop_last().len() && (#[trigger] m.drop_last()[j]).0
                == p;
            assert(m[j] == m.drop_last()[j]);
        }
    }
}

impl Debouncer {
    /// The invariant: every path is recorded at most once.
    pub closed spec fn wf(&self) -> bool {
        unique_paths(self@)
    }

    /// A debouncer that has announced nothing.
    pub fn new() -> (d: Self)
        ensures
            d.wf(),
            forall|p: Seq<char>| #[trigger] announced_at(d@, p) is None,
    {
        let d = Debouncer { seen: Vec::new() };
        assert(d@ =~= Seq::<(Seq<char>, u64)>::empty());
        d
    }

    /// Whether a change to `path` at time `now` (in nanoseconds on a
    /// steady clock) should be announced: not when the path was announced
    /// less than a minute ago. When it is, the announcement is recorded and
    /// announcements five minutes old or more are forgotten.
    pub fn should_announce(&mut self, path: &str, now: u64) -> (r: bool)
        requires
            old(self).wf(),
        ensures
            final(self).wf(),
            r == !(match announced_at(old(self)@, path@) {
                Some(t) => still_quiet(t, now),
                None => false,
            }),
            !r ==> final(self)@ == old(self)@,
            r ==> forall|p: Seq<char>| #[trigger]
                announced_at(final(self)@, p) == after_announcing(old(self)@, path@, now, p),
    {
        let ghost m = self@;
        let n = self.seen.len();
        assert(m.len() == n);
        let mut i: usize = n;
        assert(m.take(n as int) =~= m);
        let mut last: Option<u64> = None;
        while i > 0 && last.is_none()
            invariant
                i <= n == m.len(),
                m == self@,
                match last {
                    Some(t) => announced_at(m, path@) == Some(t),
                    None => announced_at(m, path@) == announced_at(m.take(i as int), path@),
                },
            decreases i + (if last is None {
                1int
            } else {
                0int
            }),
        {
            assert(m.take(i as int).drop_last() =~= m.take(i - 1));
            assert(m[i - 1] == (self.seen@[i - 1].0@, self.seen@[i - 1].1));
            if str_eq(self.seen[i - 1].0.as_str(), path) {
                last = Some(self.seen[i - 1].1);
            } else {
                i = i - 1;
            }
        }
        if last.is_none() {
            assert(m.take(0) =~= Seq::<(Seq<char>, u64)>::empty());
        }
        assert(announced_at(m, path@) == last);
        if let Some(t) = last {
            if now >= t && now - t < QUIET_NS {
                return false;
            }
        }
        let mut kept: Vec<(String, u64)> = Vec::new();
        let mut k: usize = 0;
        while k < n
            invariant
                k <= n == m.len(),
                m == self@,
                unique_paths(m),
                unique_paths(record_view(kept@)),
                forall|p: Seq<char>| #[trigger]
                    announced_at(record_view(kept@), p) == (if p
                        == path@ {
                        None
                    } else {
                        match announced_at(m.take(k as int), p) {
                            Some(t) => if remembered(t, now) {
                                Some(t)
                            } else {
                                None
                            },
                            None => None,
                        }
                    }),
            decreases n - k,
        {
            let ghost kv = record_view(kept@);
            let ghost e = m[k as int];
            assert(m.take(k + 1).drop_last() =~= m.take(k as int));
            assert(m.take(k + 1).last() == e);
            proof {
                assert forall|j: int| 0 <= j < k implies (#[trigger] m.take(k as int)[j]).0 != e.0 by {
                    assert(m.take(k as int)[j] == m[j]);
                }
                lemma_announced_none(m.take(k as int), e.0);
            }
            let t = self.seen[k].1;
            let keep = !str_eq(self.seen[k].0.as_str(), path) && now >= t && now - t
                < MEMORY_NS;
            if keep {
                let entry = (self.seen[k].0.clone(), t);
                proof {
                    assert(announced_at(kv, e.0) is None);
                    lemma_announced_none(kv, e.0);
                }
                kept.push(entry);
                let ghost kv2 = record_view(kept@);
                assert(kv2 =~= kv.push(e));
                assert(kv2.drop_last() =~= kv);
                assert forall|p: Seq<char>| #[trigger] announced_at(kv2, p) == (if p == path@ {
                    None
                } else {
                    match announced_at(m.take(k + 1), p) {
                        Some(t) => if remembered(t, now) {
                            Some(t)
                        } else {
                            None
                        },
                        None => None,
                    }
                }) by {
                    assert(announced_at(kv, p) == announced_at(record_view(kept@).drop_last(), p));
                }
                assert(unique_paths(kv2)) by {
                    assert forall|a: int, b: int| 0 <= a < b < kv2.len() implies (
                    #[trigger] kv2[a]).0 != (#[trigger] kv2[b]).0 by {
                        if b == kv2.len() - 1 {
                            assert(kv2[a] == kv[a]);
                        } else {
                            assert(kv2[a] == kv[a] && kv2[b] == kv[b]);
                        }
                    }
                }
            }
            if !keep {
                assert forall|p: Seq<char>| #[trigger] announced_at(kv, p) == (if p == path@ {
                    None
                } else {
                    match announced_at(m.take(k + 1), p) {
                        Some(t) => if remembered(t, now) {
                            Some(t)
                        } else {
                            None
                        },
                        None => None,
                    }
                }) by {
                    if p == e.0 {
                        assert(announced_at(kv, e.0) is None);
                    }
                }
            }
            k = k + 1;
        }
        assert(m.take(n as int) =~= m);
        let ghost kv = record_view(kept@);
        proof {
            lemma_announced_none(kv, path@);
        }
        kept.push((path.to_string(), now));
        let ghost kv2 = record_view(kept@);
        assert(kv2 =~= kv.push((path@, now)));
        assert(kv2.drop_last() =~= kv);
        assert(unique_paths(kv2)) by {
            assert forall|a: int, b: int| 0 <= a < b < kv2.len() implies (#[trigger] kv2[a]).0 != (
            #[trigger] kv2[b]).0 by {
                if b == kv2.len() - 1 {
                    assert(kv2[a] == kv[a]);
                } else {
                    assert(kv2[a] == kv[a] && kv2[b] == kv[b]);
                }
            }
        }
        assert forall|p: Seq<char>| #[trigger] announced_at(kv2, p) == after_announcing(
            m,
            path@,
            now,
            p,
        ) by {
            assert(announced_at(kv, p) == announced_at(kv2.drop_last(), p));
        }
        self.seen = kept;
        assert(self@ == kv2);
        true
    }

    /// Records that the clip announced at `now` ended up at `path` (a saved
    /// replay is renamed after it is announced), so that the changes the
    /// rename makes to `path` are not announced again.
    pub fn record_announced(&mut self, path: &str, now: u64)
        requires
            old(self).wf(),
        ensures
            final(self).wf(),
            forall|p: Seq<char>| #[trigger]
                announced_at(final(self)@, p) == (if p == path@ {
                    Some(now)
                } else {
                    announced_at(old(self)@, p)
                }),
    {
        let ghost m = self@;
        let n = self.seen.len();
        assert(m.len() == n);
        let mut kept: Vec<(String, u64)> = Vec::new();
        let mut k: usize = 0;
        while k < n
            invariant
                k <= n == m.len(),
                m == self@,
                unique_paths(m),
                unique_paths(record_view(kept@)),
                forall|p: Seq<char>| #[trigger]
                    announced_at(record_view(kept@), p) == (if p == path@ {
                        None
                    } else {
                        announced_at(m.take(k as int), p)
                    }),
            decreases n - k,
        {
            let ghost kv = record_view(kept@);
            let ghost e = m[k as int];
            assert(m.take(k + 1).drop_last() =~= m.take(k as int));
            assert(m.take(k + 1).last() == e);
            assert(m[k as int] == (self.seen@[k as int].0@, self.seen@[k as int].1));
            proof {
                assert forall|j: int| 0 <= j < k implies (#[trigger] m.take(k as int)[j]).0 != e.0 by {
                    assert(m.take(k as int)[j] == m[j]);
                }
                lemma_announced_none(m.take(k as int), e.0);
            }
            if !str_eq(self.seen[k].0.as_str(), path) {
                let entry = (self.seen[k].0.clone(), self.seen[k].1);
                proof {
                    assert(announced_at(kv, e.0) is None);
                    lemma_announced_none(kv, e.0);
                }
                kept.push(entry);
                let ghost kv2 = record_view(kept@);
                assert(kv2 =~= kv.push(e));
                assert(kv2.drop_last() =~= kv);
                assert forall|p: Seq<char>| #[trigger] announced_at(kv2, p) == (if p == path@ {
                    None
                } else {
                    announced_at(m.take(k + 1), p)
                }) by {
                    assert(announced_at(kv, p) == announced_at(record_view(kept@).drop_last(), p));
                }
                assert(unique_paths(kv2)) by {
                    assert forall|a: int, b: int| 0 <= a < b < kv2.len() implies (
                    #[trigger] kv2[a]).0 != (#[trigger] kv2[b]).0 by {
                        if b == kv2.len() - 1 {
                            assert(kv2[a] == kv[a]);
                        } else {
                            assert(kv2[a] == kv[a] && kv2[b] == kv[b]);
                        }
                    }
                }
            }
            k = k + 1;
        }
        assert(m.take(n as int) =~= m);
        let ghost kv = record_view(kept@);
        proof {
            lemma_announced_none(kv, path@);
        }
        kept.push((path.to_string(), now));
        let ghost kv2 = record_view(kept@);
        assert(kv2 =~= kv.push((path@, now)));
        assert(kv2.drop_last() =~= kv);
        assert(unique_paths(kv2)) by {
            assert forall|a: int, b: int| 0 <= a < b < kv2.len() implies (#[trigger] kv2[a]).0 != (
            #[trigger] kv2[b]).0 by {
                if b == kv2.len() - 1 {
                    assert(kv2[a] == kv[a]);
                } else {
                    assert(kv2[a] == kv[a] && kv2[b] == kv[b]);
                }
            }
        }
        assert forall|p: Seq<char>| #[trigger] announced_at(kv2, p) == (if p == path@ {
            Some(now)
        } else {
            announced_at(m, p)
        }) by {
            assert(announced_at(kv, p) == announced_at(kv2.drop_last(), p));
        }
        self.seen = kept;
        assert(self@ == kv2);
    }
}

/// Once a path is announced, it is not announced again within the next
/// minute, however often its file changes (on a clock that does not go back).
pub proof fn lemma_quiet_after_announcing(
    before: Seq<(Seq<char>, u64)>,
    path: Seq<char>,
    now: u64,
    later: u64,
)
    requires
        now <= later,
        later - now < QUIET_NS,
    ensures
        (match after_announcing(before, path, now, path) {
            Some(t) => still_quiet(t, later),
            None => false,
        }),
{
}

/// A saved clip is announced once: after a change to `path` is announced at
/// `now` and the clip's final path `renamed` is recorded at `t` (no earlier
/// than `now`), further changes to either path within a minute of `now` are
/// not announced (on a clock that does not go back).
pub proof fn lemma_clip_announced_once(
    before: Seq<(Seq<char>, u64)>,
    announced: Seq<(Seq<char>, u64)>,
    recorded: Seq<(Seq<char>, u64)>,
    path: Seq<char>,
    renamed: Seq<char>,
    now: u64,
    t: u64,
    later: u64,
)
    requires
        forall|p: Seq<char>| #[trigger]
            announced_at(announced, p) == after_announcing(before, path, now, p),
        forall|p: Seq<char>| #[trigger]
            announced_at(recorded, p) == (if p == renamed {
                Some(t)
            } else {
                announced_at(announced, p)
            }),
        now <= t <= later,
        later - now < QUIET_NS,
    ensures
        (match announced_at(recorded, path) {
            Some(u) => still_quiet(u, later),
            None => false,
        }),
        (match announced_at(recorded, renamed) {
            Some(u) => still_quiet(u, later),
            None => false,
        }),
{
    assert(announced_at(recorded, path) == (if path == renamed {
        Some(t)
    } else {
        announced_at(announced, path)
    }));
    assert(announced_at(announced, path) == after_announcing(before, path, now, path));
}

/// Announcing one path leaves every other path's announcement that is less
/// than five minutes old as it was and forgets only older ones. So a path
/// announced less than a minute ago stays quiet however many other paths
/// are announced meanwhile.
pub proof fn lemma_announcing_keeps_others(
    before: Seq<(Seq<char>, u64)>,
    path: Seq<char>,
    now: u64,
    q: Seq<char>,
    t: u64,
    later: u64,
)
    requires
        q != path,
        announced_at(before, q) == Some(t),
    ensures
        after_announcing(before, path, now, q) == (if t <= now && now - t < 300_000_000_000 {
            Some(t)
        } else {
            None
        }),
        t <= now <= later && later - t < 60_000_000_000 ==> (match after_announcing(
            before,
            path,
            now,
            q,
        ) {
            Some(u) => u <= later && later - u < 60_000_000_000,
            None => false,
        }),
{
}

} // verus!
