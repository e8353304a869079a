//! Dual-tier token-bucket rate limiting.
//!
//! Two independent limiters are evaluated for every feed request, longer
//! window first: a per-feed bucket (keyed by the `(host, token)` pair) and a
//! per-source-address bucket. A request is admitted only if both admit it;
//! rejection by the first-evaluated tier short-circuits, so the second
//! tier's token is not consumed. When the first tier admits and the second
//! rejects, the first tier's token stays spent — a known over-penalization
//! of composing two independent limiters sequentially, kept as designed.
//!
//! Token levels are integers, measured in milliseconds' worth of refill: a
//! bucket of capacity `C` and one token per `period_ms` holds at most
//! `C * period_ms` level, one admission costs `period_ms`, and the level
//! refills by one per elapsed millisecond.

use vstd::prelude::*;
use crate::errors::FeedError;

verus! {

/// Shape of one bucket family: `capacity` tokens at full, one token
/// refilled every `period_ms` milliseconds.
#[derive(Clone, Copy, PartialEq, Eq, Structural, Debug)]
pub struct BucketConfig {
    pub capacity: u64,
    pub period_ms: u64,
}

impl BucketConfig {
    pub open spec fn wf(&self) -> bool {
        1 <= self.capacity && 1 <= self.period_ms && self.capacity * self.period_ms <= u64::MAX
    }
}

/// Outcome of one bucket check.
#[derive(Clone, Copy, PartialEq, Eq, Structural, Debug)]
pub enum BucketDecision {
    Admitted,
    Rejected { retry_after_ms: u64 },
}

/// One token bucket: the refill level in milliseconds' worth of tokens and
/// the timestamp of the last refill.
#[derive(Clone, Copy, PartialEq, Eq, Structural, Debug)]
pub struct TokenBucket {
    pub level_ms: u64,
    pub last_ms: u64,
}

impl TokenBucket {
    pub open spec fn wf(&self, cfg: BucketConfig) -> bool {
        self.level_ms <= cfg.capacity * cfg.period_ms
    }

    /// A bucket at full capacity, as first seen for a fresh key.
    pub open spec fn spec_full(cfg: BucketConfig, now_ms: u64) -> TokenBucket {
        TokenBucket { level_ms: (cfg.capacity * cfg.period_ms) as u64, last_ms: now_ms }
    }

    /// The level after adding the elapsed time since the last refill,
    /// capped at capacity. A clock that moved backwards counts as no
    /// elapsed time.
    pub open spec fn refilled_level(cfg: BucketConfig, b: TokenBucket, now_ms: u64) -> int {
        let elapsed = if now_ms >= b.last_ms {
            now_ms - b.last_ms
        } else {
            0
        };
        let max = cfg.capacity * cfg.period_ms;
        if b.level_ms + elapsed >= max {
            max
        } else {
            b.level_ms + elapsed
        }
    }

    /// Whether a check at `now_ms` admits: at least one whole token is
    /// available.
    pub open spec fn spec_admit(cfg: BucketConfig, b: TokenBucket, now_ms: u64) -> bool {
        Self::refilled_level(cfg, b, now_ms) >= cfg.period_ms
    }

    /// On rejection, how long until one whole token has refilled.
    pub open spec fn spec_wait_ms(cfg: BucketConfig, b: TokenBucket, now_ms: u64) -> int {
        cfg.period_ms - Self::refilled_level(cfg, b, now_ms)
    }

    /// The bucket state after one check at `now_ms`: refilled, stamped,
    /// and charged one token if admitted.
    pub open spec fn spec_after(cfg: BucketConfig, b: TokenBucket, now_ms: u64) -> TokenBucket {
        let l = Self::refilled_level(cfg, b, now_ms);
        let stamped = if now_ms >= b.last_ms {
            now_ms
        } else {
            b.last_ms
        };
        if l >= cfg.period_ms {
            TokenBucket { level_ms: (l - cfg.period_ms) as u64, last_ms: stamped }
        } else {
            TokenBucket { level_ms: l as u64, last_ms: stamped }
        }
    }

    /// A bucket at full capacity.
    pub fn full(cfg: &BucketConfig, now_ms: u64) -> (r: TokenBucket)
        requires
            cfg.wf(),
        ensures
            r == Self::spec_full(*cfg, now_ms),
            r.wf(*cfg),
    {
        TokenBucket { level_ms: cfg.capacity * cfg.period_ms, last_ms: now_ms }
    }

    /// One admission check: refill by the elapsed time, then admit and
    /// charge one token if at least one is available, else reject and
    /// report the wait until one token has refilled.
    pub fn check(&mut self, cfg: &BucketConfig, now_ms: u64) -> (r: BucketDecision)
        requires
            cfg.wf(),
            old(self).wf(*cfg),
        ensures
            *final(self) == Self::spec_after(*cfg, *old(self), now_ms),
            final(self).wf(*cfg),
            r is Admitted <==> Self::spec_admit(*cfg, *old(self), now_ms),
            (r matches BucketDecision::Rejected { retry_after_ms } ==> retry_after_ms
                == Self::spec_wait_ms(*cfg, *old(self), now_ms)),
    {
        let max = cfg.capacity * cfg.period_ms;
        let elapsed = if now_ms >= self.last_ms {
            now_ms - self.last_ms
        } else {
            0
        };
        let headroom = max - self.level_ms;
        let l = if elapsed >= headroom {
            max
        } else {
            self.level_ms + elapsed
        };
        if now_ms >= self.last_ms {
            self.last_ms = now_ms;
        }
        if l >= cfg.period_ms {
            self.level_ms = l - cfg.period_ms;
            BucketDecision::Admitted
        } else {
            self.level_ms = l;
            BucketDecision::Rejected { retry_after_ms: cfg.period_ms - l }
        }
    }
}

/// The bucket reached from a full one by `n` immediate checks at `now_ms`.
pub open spec fn drained(cfg: BucketConfig, now_ms: u64, n: nat) -> TokenBucket
    decreases n,
{
    if n == 0 {
        TokenBucket::spec_full(cfg, now_ms)
    } else {
        TokenBucket::spec_after(cfg, drained(cfg, now_ms, (n - 1) as nat), now_ms)
    }
}

/// Law: from a fresh bucket of capacity `C`, exactly `C` instantaneous
/// requests are admitted and the next one is rejected: after `n <= C`
/// immediate checks the level is `(C - n)` tokens, a further check admits
/// exactly when `n < C`.
pub proof fn lemma_bucket_burst(cfg: BucketConfig, now_ms: u64, n: nat)
    requires
        cfg.wf(),
        n <= cfg.capacity,
    ensures
        drained(cfg, now_ms, n).level_ms == (cfg.capacity - n) * cfg.period_ms,
        drained(cfg, now_ms, n).last_ms == now_ms,
        n < cfg.capacity ==> TokenBucket::spec_admit(cfg, drained(cfg, now_ms, n), now_ms),
        n == cfg.capacity ==> !TokenBucket::spec_admit(cfg, drained(cfg, now_ms, n), now_ms),
    decreases n,
{
    let cap = cfg.capacity as int;
    let p = cfg.period_ms as int;
    if n == 0 {
        assert((cap - 0) * p == cap * p);
        if 0 < cap {
            assert(cap * p >= 1 * p) by (nonlinear_arith)
                requires
                    cap >= 1,
                    p >= 1,
            ;
        }
    } else {
        lemma_bucket_burst(cfg, now_ms, (n - 1) as nat);
        let b = drained(cfg, now_ms, (n - 1) as nat);
        let lvl = (cap - (n - 1)) * p;
        assert(b.level_ms == lvl);
        assert(lvl <= cap * p && lvl >= 1 * p) by (nonlinear_arith)
            requires
                1 <= n <= cap,
                p >= 1,
                lvl == (cap - (n - 1)) * p,
        ;
        assert(TokenBucket::refilled_level(cfg, b, now_ms) == lvl);
        assert(TokenBucket::spec_admit(cfg, b, now_ms));
        assert(drained(cfg, now_ms, n).level_ms == lvl - p);
        assert(lvl - p == (cap - n) * p) by (nonlinear_arith)
            requires
                lvl == (cap - (n - 1)) * p,
        ;
        if n < cfg.capacity {
            assert((cap - n) * p >= 1 * p) by (nonlinear_arith)
                requires
                    cap - n >= 1,
                    p >= 1,
            ;
        }
        if n == cfg.capacity {
            assert((cap - n) * p == 0) by (nonlinear_arith)
                requires
                    cap == n,
            ;
            assert(!TokenBucket::spec_admit(cfg, drained(cfg, now_ms, n), now_ms));
        }
    }
}

/// Law: once a fresh bucket of capacity `C` has been drained by `C`
/// immediate admissions, the rejected request is told to wait one full
/// refill period, and a request arriving one period later is admitted.
pub proof fn lemma_bucket_refill(cfg: BucketConfig, now_ms: u64, later_ms: u64)
    requires
        cfg.wf(),
        later_ms == now_ms + cfg.period_ms,
    ensures
        TokenBucket::spec_wait_ms(cfg, drained(cfg, now_ms, cfg.capacity as nat), now_ms)
            == cfg.period_ms,
        TokenBucket::spec_admit(cfg, drained(cfg, now_ms, cfg.capacity as nat), later_ms),
{
    lemma_bucket_burst(cfg, now_ms, cfg.capacity as nat);
    let b = drained(cfg, now_ms, cfg.capacity as nat);
    let cap = cfg.capacity as int;
    let p = cfg.period_ms as int;
    assert((cap - cap) * p == 0) by (nonlinear_arith);
    assert(b.level_ms == 0);
    assert(p <= cap * p) by (nonlinear_arith)
        requires
            cap >= 1,
            p >= 1,
    ;
    assert(TokenBucket::refilled_level(cfg, b, later_ms) == p);
}

/// The `(host, token)` pair identifying which upstream feed a request
/// targets; the rate-limit partition key of the per-feed tier. The
/// per-source tier reuses the same shape with the caller's address as
/// `host` and an empty `token`. It embeds the caller's bearer credential:
/// never logged or persisted.
pub struct FeedKey {
    pub host: String,
    pub token: String,
}

impl View for FeedKey {
    type V = (Seq<char>, Seq<char>);

    open spec fn view(&self) -> (Seq<char>, Seq<char>) {
        (self.host@, self.token@)
    }
}

impl FeedKey {
    /// A fresh key with the same `(host, token)` value.
    pub fn duplicate(&self) -> (r: FeedKey)
        ensures
            r@ == self@,
    {
        FeedKey { host: self.host.clone(), token: self.token.clone() }
    }

    /// Structural equality over `(host, token)`.
    pub fn key_eq(&self, other: &FeedKey) -> (r: bool)
        ensures
            r == (self@ == other@),
    {
        let h = self.host == other.host;
        let t = self.token == other.token;
        h && t
    }
}

struct BucketEntry {
    key: FeedKey,
    bucket: TokenBucket,
}

spec fn keys_distinct(s: Seq<BucketEntry>) -> bool {
    forall|i: int, j: int|
        #![trigger s[i], s[j]]
        0 <= i < j < s.len() ==> s[i].key@ != s[j].key@
}

spec fn seq_has_key(s: Seq<BucketEntry>, k: (Seq<char>, Seq<char>)) -> bool {
    exists|i: int| 0 <= i < s.len() && (#[trigger] s[i]).key@ == k
}

spec fn seq_bucket_of(s: Seq<BucketEntry>, k: (Seq<char>, Seq<char>)) -> TokenBucket {
    s[choose|i: int| 0 <= i < s.len() && (#[trigger] s[i]).key@ == k].bucket
}

proof fn lemma_found_bucket(s: Seq<BucketEntry>, k: (Seq<char>, Seq<char>), i: int)
    requires
        keys_distinct(s),
        0 <= i < s.len(),
        s[i].key@ == k,
    ensures
        seq_has_key(s, k),
        seq_bucket_of(s, k) == s[i].bucket,
{
    assert(seq_has_key(s, k));
    let j = choose|j: int| 0 <= j < s.len() && (#[trigger] s[j]).key@ == k;
    assert(s[j].key@ == k);
    if i < j {
        assert(s[i].key@ != s[j].key@);
    } else if j < i {
        assert(s[j].key@ != s[i].key@);
    }
    assert(i == j);
}

proof fn lemma_remove_push(s: Seq<BucketEntry>, i: int, e2: BucketEntry)
    requires
        keys_distinct(s),
        0 <= i < s.len(),
        e2.key@ == s[i].key@,
    ensures
        ({
            let s2 = s.update(i, s.last()).drop_last().push(e2);
            &&& keys_distinct(s2)
            &&& seq_has_key(s2, e2.key@)
            &&& seq_bucket_of(s2, e2.key@) == e2.bucket
            &&& forall|k2: (Seq<char>, Seq<char>)|
                k2 != e2.key@ ==> #[trigger] seq_has_key(s2, k2) == seq_has_key(s, k2)
            &&& forall|k2: (Seq<char>, Seq<char>)|
                k2 != e2.key@ && #[trigger] seq_has_key(s, k2) ==> seq_bucket_of(s2, k2)
                    == seq_bucket_of(s, k2)
        }),
{
    let n = s.len();
    let t = s.update(i, s.last()).drop_last();
    let s2 = t.push(e2);
    assert(t.len() == n - 1);
    assert(s2.len() == n);
    assert forall|j: int| 0 <= j < n - 1 implies t[j] == s[if j == i {
        n - 1
    } else {
        j
    }] by {}
    assert forall|j: int| 0 <= j < n - 1 implies (#[trigger] t[j]).key@ != s[i].key@ by {
        if j == i {
            assert(t[j] == s[n - 1]);
            assert(i < n - 1);
        }
    }
    assert(keys_distinct(t)) by {
        assert forall|j1: int, j2: int|
            #![trigger t[j1], t[j2]]
            0 <= j1 < j2 < t.len() implies t[j1].key@ != t[j2].key@ by {
            let o1 = if j1 == i {
                n - 1
            } else {
                j1
            };
            let o2 = if j2 == i {
                n - 1
            } else {
                j2
            };
            assert(t[j1] == s[o1] && t[j2] == s[o2]);
            assert(o1 != o2);
        }
    }
    assert(keys_distinct(s2)) by {
        assert forall|j1: int, j2: int|
            #![trigger s2[j1], s2[j2]]
            0 <= j1 < j2 < s2.len() implies s2[j1].key@ != s2[j2].key@ by {
            if j2 < n - 1 {
                assert(s2[j1] == t[j1] && s2[j2] == t[j2]);
            } else {
                assert(s2[j2] == e2);
                assert(s2[j1] == t[j1]);
                assert(t[j1].key@ != s[i].key@);
            }
        }
    }
    lemma_found_bucket(s2, e2.key@, n - 1);
    assert forall|k2: (Seq<char>, Seq<char>)| k2 != e2.key@ implies #[trigger] seq_has_key(s2, k2)
        == seq_has_key(s, k2) by {
        if seq_has_key(s2, k2) {
            let j = choose|j: int| 0 <= j < s2.len() && (#[trigger] s2[j]).key@ == k2;
            assert(j < n - 1);
            let o = if j == i {
                n - 1
            } else {
                j
            };
            assert(s[o].key@ == k2);
            assert(seq_has_key(s, k2));
        }
        if seq_has_key(s, k2) {
            let m = choose|m: int| 0 <= m < s.len() && (#[trigger] s[m]).key@ == k2;
            assert(m != i);
            if m == n - 1 {
                assert(i < n - 1);
                assert(s2[i] == t[i] && t[i] == s[n - 1]);
                assert(seq_has_key(s2, k2));
            } else {
                assert(s2[m] == t[m] && t[m] == s[m]);
                assert(seq_has_key(s2, k2));
            }
        }
    }
    assert forall|k2: (Seq<char>, Seq<char>)|
        k2 != e2.key@ && #[trigger] seq_has_key(s, k2) implies seq_bucket_of(s2, k2)
        == seq_bucket_of(s, k2) by {
        let m = choose|m: int| 0 <= m < s.len() && (#[trigger] s[m]).key@ == k2;
        lemma_found_bucket(s, k2, m);
        assert(m != i);
        if m == n - 1 {
            assert(i < n - 1);
            assert(s2[i] == t[i] && t[i] == s[n - 1]);
            lemma_found_bucket(s2, k2, i);
        } else {
            assert(s2[m] == t[m] && t[m] == s[m]);
            lemma_found_bucket(s2, k2, m);
        }
    }
}

proof fn lemma_push_fresh(s: Seq<BucketEntry>, e2: BucketEntry)
    requires
        keys_distinct(s),
        !seq_has_key(s, e2.key@),
    ensures
        ({
            let s2 = s.push(e2);
            &&& keys_distinct(s2)
            &&& seq_has_key(s2, e2.key@)
            &&& seq_bucket_of(s2, e2.key@) == e2.bucket
            &&& forall|k2: (Seq<char>, Seq<char>)|
                k2 != e2.key@ ==> #[trigger] seq_has_key(s2, k2) == seq_has_key(s, k2)
            &&& forall|k2: (Seq<char>, Seq<char>)|
                k2 != e2.key@ && #[trigger] seq_has_key(s, k2) ==> seq_bucket_of(s2, k2)
                    == seq_bucket_of(s, k2)
        }),
{
    let n = s.len();
    let s2 = s.push(e2);
    assert forall|j: int| 0 <= j < n implies s2[j] == s[j] by {}
    assert(keys_distinct(s2)) by {
        assert forall|j1: int, j2: int|
            #![trigger s2[j1], s2[j2]]
            0 <= j1 < j2 < s2.len() implies s2[j1].key@ != s2[j2].key@ by {
            if j2 < n {
            } else {
                assert(s2[j2] == e2);
                if s[j1].key@ == e2.key@ {
                    assert(seq_has_key(s, e2.key@));
                }
            }
        }
    }
    lemma_found_bucket(s2, e2.key@, n as int);
    assert forall|k2: (Seq<char>, Seq<char>)| k2 != e2.key@ implies #[trigger] seq_has_key(s2, k2)
        == seq_has_key(s, k2) by {
        if seq_has_key(s2, k2) {
            let j = choose|j: int| 0 <= j < s2.len() && (#[trigger] s2[j]).key@ == k2;
            assert(j < n);
            assert(seq_has_key(s, k2));
        }
        if seq_has_key(s, k2) {
            let m = choose|m: int| 0 <= m < s.len() && (#[trigger] s[m]).key@ == k2;
            assert(s2[m].key@ == k2);
            assert(seq_has_key(s2, k2));
        }
    }
    assert forall|k2: (Seq<char>, Seq<char>)|
        k2 != e2.key@ && #[trigger] seq_has_key(s, k2) implies seq_bucket_of(s2, k2)
        == seq_bucket_of(s, k2) by {
        let m = choose|m: int| 0 <= m < s.len() && (#[trigger] s[m]).key@ == k2;
        lemma_found_bucket(s, k2, m);
        lemma_found_bucket(s2, k2, m);
    }
}

/// One family of token buckets sharing a configuration, partitioned by
/// `FeedKey`. A key never checked before is treated as owning a full
/// bucket. Process-wide shared state in the running gateway; nothing here
/// persists across restarts.
pub struct KeyedBuckets {
    cfg: BucketConfig,
    entries: Vec<BucketEntry>,
}

impl KeyedBuckets {
    pub closed spec fn cfg_spec(&self) -> BucketConfig {
        self.cfg
    }

    pub closed spec fn wf(&self) -> bool {
        &&& self.cfg.wf()
        &&& keys_distinct(self.entries@)
        &&& forall|i: int|
            0 <= i < self.entries@.len() ==> (#[trigger] self.entries@[i]).bucket.wf(self.cfg)
    }

    /// The table has seen this key.
    pub closed spec fn has_key(&self, k: (Seq<char>, Seq<char>)) -> bool {
        seq_has_key(self.entries@, k)
    }

    /// The bucket stored for a seen key.
    pub closed spec fn bucket_of(&self, k: (Seq<char>, Seq<char>)) -> TokenBucket {
        seq_bucket_of(self.entries@, k)
    }

    /// The bucket a check at `now_ms` starts from: the stored one, or a
    /// full one for a key never seen.
    pub open spec fn stored_or_fresh(&self, k: (Seq<char>, Seq<char>), now_ms: u64) -> TokenBucket {
        if self.has_key(k) {
            self.bucket_of(k)
        } else {
            TokenBucket::spec_full(self.cfg_spec(), now_ms)
        }
    }

    /// An empty table.
    pub fn new(cfg: BucketConfig) -> (r: KeyedBuckets)
        requires
            cfg.wf(),
        ensures
            r.wf(),
            r.cfg_spec() == cfg,
            forall|k: (Seq<char>, Seq<char>)| !r.has_key(k),
    {
        let r = KeyedBuckets { cfg, entries: Vec::new() };
        proof {
            assert forall|k: (Seq<char>, Seq<char>)| !r.has_key(k) by {
                assert(r.entries@.len() == 0);
            }
        }
        r
    }

    fn find_idx(entries: &Vec<BucketEntry>, key: &FeedKey) -> (r: Option<usize>)
        ensures
            r matches Some(i) ==> i < entries@.len() && entries@[i as int].key@ == key@,
            r is None ==> forall|j: int|
                0 <= j < entries@.len() ==> (#[trigger] entries@[j]).key@ != key@,
    {
        let mut i: usize = 0;
        while i < entries.len()
            invariant
                i <= entries@.len(),
                forall|j: int| 0 <= j < i ==> (#[trigger] entries@[j]).key@ != key@,
            decreases entries@.len() - i,
        {
            if entries[i].key.key_eq(key) {
                return Some(i);
            }
            i = i + 1;
        }
        None
    }

    /// One admission check against this key's bucket, creating a full
    /// bucket the first time the key is seen. Other keys' buckets are
    /// untouched.
    pub fn check_key(&mut self, key: &FeedKey, now_ms: u64) -> (r: BucketDecision)
        requires
            old(self).wf(),
        ensures
            final(self).wf(),
            final(self).cfg_spec() == old(self).cfg_spec(),
            r is Admitted <==> TokenBucket::spec_admit(
                old(self).cfg_spec(),
                old(self).stored_or_fresh(key@, now_ms),
                now_ms,
            ),
            (r matches BucketDecision::Rejected { retry_after_ms } ==> retry_after_ms
                == TokenBucket::spec_wait_ms(
                old(self).cfg_spec(),
                old(self).stored_or_fresh(key@, now_ms),
                now_ms,
            )),
            final(self).has_key(key@),
            final(self).bucket_of(key@) == TokenBucket::spec_after(
                old(self).cfg_spec(),
                old(self).stored_or_fresh(key@, now_ms),
                now_ms,
            ),
            forall|k2: (Seq<char>, Seq<char>)|
                k2 != key@ ==> #[trigger] final(self).has_key(k2) == old(self).has_key(k2),
            forall|k2: (Seq<char>, Seq<char>)|
                k2 != key@ && #[trigger] old(self).has_key(k2) ==> final(self).bucket_of(k2)
                    == old(self).bucket_of(k2),
    {
        let ghost s0 = self.entries@;
        match Self::find_idx(&self.entries, key) {
            Some(i) => {
                proof {
                    lemma_found_bucket(s0, key@, i as int);
                }
                let mut e = self.entries.swap_remove(i);
                let r = e.bucket.check(&self.cfg, now_ms);
                self.entries.push(e);
                proof {
                    lemma_remove_push(s0, i as int, self.entries@.last());
                    assert(self.entries@ =~= s0.update(i as int, s0.last()).drop_last().push(
                        self.entries@.last(),
                    ));
                    assert forall|j: int| 0 <= j < self.entries@.len() implies (
                    #[trigger] self.entries@[j]).bucket.wf(self.cfg) by {
                        let t = s0.update(i as int, s0.last()).drop_last();
                        if j < self.entries@.len() - 1 {
                            let o = if j == i as int {
                                s0.len() - 1
                            } else {
                                j
                            };
                            assert(self.entries@[j] == s0[o]);
                        }
                    }
                }
                r
            },
            None => {
                let mut b = TokenBucket::full(&self.cfg, now_ms);
                let r = b.check(&self.cfg, now_ms);
                self.entries.push(BucketEntry { key: key.duplicate(), bucket: b });
                proof {
                    assert(!seq_has_key(s0, key@));
                    lemma_push_fresh(s0, self.entries@.last());
                    assert(self.entries@ =~= s0.push(self.entries@.last()));
                    assert forall|j: int| 0 <= j < self.entries@.len() implies (
                    #[trigger] self.entries@[j]).bucket.wf(self.cfg) by {
                        if j < self.entries@.len() - 1 {
                            assert(self.entries@[j] == s0[j]);
                        }
                    }
                }
                r
            },
        }
    }
}

/// Outcome of the dual-tier admission decision: `Ok` admits; an error
/// carries the rejecting bucket's wait, or zero when the feed key could not
/// be extracted at all.
pub struct DualLimiter {
    feed: KeyedBuckets,
    source: KeyedBuckets,
}

impl DualLimiter {
    pub open spec fn wf(&self) -> bool {
        self.feed_tier().wf() && self.source_tier().wf()
    }

    pub closed spec fn feed_tier(&self) -> KeyedBuckets {
        self.feed
    }

    pub closed spec fn source_tier(&self) -> KeyedBuckets {
        self.source
    }

    /// The per-feed bucket family of the gateway: burst 10, one token per
    /// 60 seconds.
    pub fn feed_config() -> (r: BucketConfig)
        ensures
            r == (BucketConfig { capacity: 10u64, period_ms: 60000u64 }),
            r.wf(),
    {
        BucketConfig { capacity: 10, period_ms: 60000 }
    }

    /// The per-source-address bucket family: burst 5, one token per 2
    /// seconds.
    pub fn source_config() -> (r: BucketConfig)
        ensures
            r == (BucketConfig { capacity: 5u64, period_ms: 2000u64 }),
            r.wf(),
    {
        BucketConfig { capacity: 5, period_ms: 2000 }
    }

    /// A fresh dual limiter with the gateway's two bucket families and no
    /// keys seen.
    pub fn new() -> (r: DualLimiter)
        ensures
            r.wf(),
            r.feed_tier().cfg_spec() == (BucketConfig { capacity: 10u64, period_ms: 60000u64 }),
            r.source_tier().cfg_spec() == (BucketConfig { capacity: 5u64, period_ms: 2000u64 }),
            forall|k: (Seq<char>, Seq<char>)| !r.feed_tier().has_key(k),
            forall|k: (Seq<char>, Seq<char>)| !r.source_tier().has_key(k),
    {
        DualLimiter {
            feed: KeyedBuckets::new(Self::feed_config()),
            source: KeyedBuckets::new(Self::source_config()),
        }
    }

    /// The dual-tier admission decision for one request, per-feed tier
    /// first (it has the longer window). `feed_key` is `None` when the
    /// query string did not yield a key; that rejects without consulting
    /// any bucket. Rejection by the feed tier leaves the source tier
    /// unconsulted and uncharged; when the feed tier admits, its token
    /// stays spent even if the source tier then rejects.
    pub fn check(&mut self, feed_key: Option<&FeedKey>, source_key: &FeedKey, now_ms: u64) -> (r:
        Result<(), FeedError>)
        requires
            old(self).wf(),
        ensures
            final(self).wf(),
            final(self).feed_tier().cfg_spec() == old(self).feed_tier().cfg_spec(),
            final(self).source_tier().cfg_spec() == old(self).source_tier().cfg_spec(),
            r is Err ==> r->Err_0 is RateLimited,
            feed_key is None ==> r == Err::<(), FeedError>(
                FeedError::RateLimited { retry_after_ms: 0u64 },
            ) && *final(self) == *old(self),
            feed_key matches Some(k) ==> {
                let fcfg = old(self).feed_tier().cfg_spec();
                let scfg = old(self).source_tier().cfg_spec();
                let fb = old(self).feed_tier().stored_or_fresh(k@, now_ms);
                let sb = old(self).source_tier().stored_or_fresh(source_key@, now_ms);
                let feed_ok = TokenBucket::spec_admit(fcfg, fb, now_ms);
                let source_ok = TokenBucket::spec_admit(scfg, sb, now_ms);
                &&& (r is Ok <==> feed_ok && source_ok)
                &&& final(self).feed_tier().has_key(k@)
                &&& final(self).feed_tier().bucket_of(k@) == TokenBucket::spec_after(
                    fcfg,
                    fb,
                    now_ms,
                )
                &&& (!feed_ok ==> final(self).source_tier() == old(self).source_tier() && r == Err::<
                    (),
                    FeedError,
                >(
                    FeedError::RateLimited {
                        retry_after_ms: TokenBucket::spec_wait_ms(fcfg, fb, now_ms) as u64,
                    },
                ))
                &&& (feed_ok ==> final(self).source_tier().has_key(source_key@)
                    && final(self).source_tier().bucket_of(source_key@)
                    == TokenBucket::spec_after(scfg, sb, now_ms))
                &&& (feed_ok && !source_ok ==> r == Err::<(), FeedError>(
                    FeedError::RateLimited {
                        retry_after_ms: TokenBucket::spec_wait_ms(scfg, sb, now_ms) as u64,
                    },
                ))
            },
    {
        let key = match feed_key {
            Some(k) => k,
            None => {
                return Err(FeedError::RateLimited { retry_after_ms: 0 });
            },
        };
        match self.feed.check_key(key, now_ms) {
            BucketDecision::Admitted => {},
            BucketDecision::Rejected { retry_after_ms } => {
                return Err(FeedError::RateLimited { retry_after_ms });
            },
        }
        match self.source.check_key(source_key, now_ms) {
            BucketDecision::Admitted => Ok(()),
            BucketDecision::Rejected { retry_after_ms } => {
                Err(FeedError::RateLimited { retry_after_ms })
            },
        }
    }
}

} // verus!
