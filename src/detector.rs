use vstd::prelude::*;
use vstd::arithmetic::power2::{pow2, lemma_pow2_unfold, lemma_pow2_pos};

verus! {

/// The poll interval after a change, and at the start.
pub const BASE_INTERVAL_SECS: u64 = 10;

/// The poll interval never grows past this.
pub const MAX_INTERVAL_SECS: u64 = 300;

/// What the store held when it was last read. It is the content itself, so
/// two fingerprints are equal exactly when the contents are byte for byte.
pub struct Fingerprint {
    bytes: Vec<u8>,
}

impl View for Fingerprint {
    type V = Seq<u8>;

    closed spec fn view(&self) -> Seq<u8> {
        self.bytes@
    }
}

/// The fingerprint of store content.
pub open spec fn fingerprint_of(content: Seq<u8>) -> Seq<u8> {
    content
}

impl Fingerprint {
    /// The fingerprint of `content`.
    pub fn of(content: &[u8]) -> (r: Fingerprint)
        ensures
            r@ == fingerprint_of(content@),
    {
        let mut bytes: Vec<u8> = Vec::new();
        let mut i: usize = 0;
        while i < content.len()
            invariant
                i <= content@.len(),
                bytes@ == content@.take(i as int),
            decreases content@.len() - i,
        {
            bytes.push(content[i]);
            assert(content@.take(i + 1) =~= content@.take(i as int).push(content@[i as int]));
            i = i + 1;
        }
        assert(content@.take(content@.len() as int) =~= content@);
        Fingerprint { bytes }
    }

    /// Whether two fingerprints are equal.
    pub fn same_as(&self, other: &Fingerprint) -> (r: bool)
        ensures
            r == (self@ == other@),
    {
        if self.bytes.len() != other.bytes.len() {
            return false;
        }
        let mut i: usize = 0;
        while i < self.bytes.len()
            invariant
                i <= self@.len(),
                self@.len() == other@.len(),
                forall|j: int| 0 <= j < i ==> self@[j] == other@[j],
            decreases self@.len() - i,
        {
            if self.bytes[i] != other.bytes[i] {
                return false;
            }
            i = i + 1;
        }
        assert(self@ =~= other@);
        true
    }
}

/// Two contents have equal fingerprints exactly when they are equal byte for
/// byte: a change always shows, and an unchanged store never looks changed.
pub proof fn lemma_fingerprint_sensitivity(a: Seq<u8>, b: Seq<u8>)
    ensures
        a != b ==> fingerprint_of(a) != fingerprint_of(b),
        a == b ==> fingerprint_of(a) == fingerprint_of(b),
{
}

/// The interval after a failed poll: doubled, at most the ceiling.
pub open spec fn backed_off(interval: nat) -> nat {
    if 2 * interval <= MAX_INTERVAL_SECS {
        2 * interval
    } else {
        MAX_INTERVAL_SECS as nat
    }
}

/// The interval after `k` failed polls in a row, starting from `interval`.
pub open spec fn after_failures(interval: nat, k: nat) -> nat
    decreases k,
{
    if k == 0 {
        interval
    } else {
        backed_off(after_failures(interval, (k - 1) as nat))
    }
}

/// Polls the store for changes, backing off while it cannot be read.
pub struct ChangeDetector {
    last: Option<Fingerprint>,
    interval: u64,
}

impl ChangeDetector {
    pub closed spec fn wf(&self) -> bool {
        BASE_INTERVAL_SECS <= self.interval <= MAX_INTERVAL_SECS
    }

    pub closed spec fn interval_spec(&self) -> u64 {
        self.interval
    }

    pub closed spec fn last_spec(&self) -> Option<Seq<u8>> {
        match self.last {
            Some(f) => Some(f@),
            None => None,
        }
    }

    /// A detector that has seen no content yet, at the base interval.
    pub fn new() -> (r: ChangeDetector)
        ensures
            r.wf(),
            r.interval_spec() == BASE_INTERVAL_SECS,
            r.last_spec() is None,
    {
        ChangeDetector { last: None, interval: BASE_INTERVAL_SECS }
    }

    /// Seconds until the next poll.
    pub fn interval_secs(&self) -> (r: u64)
        ensures
            r == self.interval_spec(),
    {
        self.interval
    }

    /// Records the fingerprint of what a reload read.
    pub fn note_reload(&mut self, fp: Fingerprint)
        ensures
            final(self).last_spec() == Some(fp@),
            final(self).interval_spec() == old(self).interval_spec(),
            final(self).wf() == old(self).wf(),
    {
        self.last = Some(fp);
    }

    /// Takes the outcome of one poll: the store's fingerprint, or `None` where
    /// the store could not be read. Returns whether the store changed, in
    /// which case the list is to be reloaded.
    ///
    /// A failure doubles the interval up to the ceiling and keeps the last
    /// fingerprint. A read that differs from the last fingerprint (or comes
    /// first) is a change: it is kept and the interval goes back to the base.
    /// A read equal to the last fingerprint changes nothing.
    pub fn poll(&mut self, observed: Option<Fingerprint>) -> (changed: bool)
        requires
            old(self).wf(),
        ensures
            final(self).wf(),
            match observed {
                None => !changed && final(self).last_spec() == old(self).last_spec()
                    && final(self).interval_spec() == backed_off(old(self).interval_spec() as nat),
                Some(fp) => if old(self).last_spec() == Some(fp@) {
                    !changed && final(self).last_spec() == old(self).last_spec()
                        && final(self).interval_spec() == old(self).interval_spec()
                } else {
                    changed && final(self).last_spec() == Some(fp@)
                        && final(self).interval_spec() == BASE_INTERVAL_SECS
                },
            },
    {
        match observed {
            None => {
                self.interval = if self.interval <= MAX_INTERVAL_SECS / 2 {
                    2 * self.interval
                } else {
                    MAX_INTERVAL_SECS
                };
                false
            },
            Some(fp) => {
                let unchanged = match &self.last {
                    Some(last) => last.same_as(&fp),
                    None => false,
                };
                if unchanged {
                    false
                } else {
                    self.last = Some(fp);
                    self.interval = BASE_INTERVAL_SECS;
                    true
                }
            },
        }
    }
}

/// After `k` failed polls in a row the interval is the starting one doubled
/// `k` times, capped at the ceiling.
pub proof fn lemma_backoff(interval: nat, k: nat)
    requires
        BASE_INTERVAL_SECS <= interval <= MAX_INTERVAL_SECS,
    ensures
        after_failures(interval, k) == if interval * pow2(k) <= MAX_INTERVAL_SECS {
            interval * pow2(k)
        } else {
            MAX_INTERVAL_SECS as nat
        },
    decreases k,
{
    if k == 0 {
        assert(pow2(0) == 1) by {
            vstd::arithmetic::power2::lemma2_to64();
        }
    } else {
        lemma_backoff(interval, (k - 1) as nat);
        lemma_pow2_unfold(k);
        lemma_pow2_pos((k - 1) as nat);
        let p = pow2((k - 1) as nat);
        assert(interval * pow2(k) == 2 * (interval * p)) by (nonlinear_arith)
            requires
                pow2(k) == 2 * p,
        ;
        assert(interval * p >= interval) by (nonlinear_arith)
            requires
                p >= 1,
        ;
    }
}

} // verus!
