//! A sliding window over packet numbers that lets each number through at most once.

use vstd::prelude::*;

verus! {

/// How many numbers, counted down from the highest one let through, the window remembers.
pub const WINDOW_LEN: u64 = 64;

/// What a window remembers: the highest number let through, and which of the last
/// [`WINDOW_LEN`] numbers up to it have been let through.
#[verifier::ext_equal]
pub struct ReplayView {
    pub last: u64,
    pub seen: Set<u64>,
}

impl ReplayView {
    /// A window that has let nothing through.
    pub open spec fn fresh() -> ReplayView {
        ReplayView { last: 0, seen: Set::empty() }
    }

    /// Whether the window lets `seq` through: it is not 0, and it is above everything so far, or
    /// still within the window and not let through before.
    pub open spec fn admits(self, seq: u64) -> bool {
        &&& seq != 0
        &&& seq > self.last || (self.last - seq < WINDOW_LEN && !self.seen.contains(seq))
    }

    /// The window after it has let `seq` through.
    pub open spec fn advanced(self, seq: u64) -> ReplayView {
        let last = if seq > self.last {
            seq
        } else {
            self.last
        };
        ReplayView {
            last,
            seen: Set::new(
                |s: u64| (s == seq || self.seen.contains(s)) && s <= last && last - s < WINDOW_LEN,
            ),
        }
    }

    /// The window after it has been asked about `seq`.
    pub open spec fn asked(self, seq: u64) -> ReplayView {
        if self.admits(seq) {
            self.advanced(seq)
        } else {
            self
        }
    }
}

/// Whether bit `d` of `w` is set.
spec fn bit(w: u64, d: u64) -> bool {
    w & (1u64 << d) != 0
}

/// A window over the last 64 packet numbers.
#[derive(Debug, Clone, Copy, PartialEq, Eq, Structural)]
pub struct AntiReplayWindow {
    last_seq: u64,
    window: u64,
}

impl View for AntiReplayWindow {
    type V = ReplayView;

    closed spec fn view(&self) -> ReplayView {
        ReplayView {
            last: self.last_seq,
            seen: Set::new(
                |s: u64|
                    s <= self.last_seq && self.last_seq - s < WINDOW_LEN && bit(
                        self.window,
                        (self.last_seq - s) as u64,
                    ),
            ),
        }
    }
}

impl Default for AntiReplayWindow {
    fn default() -> (r: Self)
        ensures
            r == Self::blank(),
            r@ == ReplayView::fresh(),
    {
        Self::new()
    }
}

impl AntiReplayWindow {
    /// The window that every window starts as.
    pub closed spec fn blank() -> Self {
        AntiReplayWindow { last_seq: 0, window: 0 }
    }

    /// A window that has let nothing through.
    pub fn new() -> (r: Self)
        ensures
            r == Self::blank(),
            r@ == ReplayView::fresh(),
    {
        let r = AntiReplayWindow { last_seq: 0, window: 0 };
        proof {
            assert forall|d: u64| #![trigger bit(0, d)] !bit(0, d) by {
                assert(0u64 & (1u64 << d) == 0) by (bit_vector);
            }
            assert(r@ =~= ReplayView::fresh());
        }
        r
    }

    /// Asks whether packet number `seq` may pass, and remembers it if so. Number 0 never passes.
    pub fn validate_and_update(&mut self, seq: u64) -> (passed: bool)
        ensures
            passed == old(self)@.admits(seq),
            !passed ==> *final(self) == *old(self),
            final(self)@ == old(self)@.asked(seq),
    {
        if seq == 0 {
            return false;
        }
        let ghost w = self.window;
        let ghost last = self.last_seq;
        if seq > self.last_seq {
            let diff: u64 = seq - self.last_seq;
            if diff < 64 {
                self.window = (self.window << diff) | 1;
                proof {
                    assert forall|d: u64| d < 64 implies #[trigger] bit(self.window, d) == (d == 0
                        || (d >= diff && bit(w, (d - diff) as u64))) by {
                        lemma_shift_in(w, diff, d);
                    }
                }
            } else {
                self.window = 1;
                proof {
                    assert forall|d: u64| d < 64 implies #[trigger] bit(1, d) == (d == 0) by {
                        assert((1u64 & (1u64 << d) != 0) == (d == 0)) by (bit_vector)
                            requires
                                d < 64,
                        ;
                    }
                }
            }
            self.last_seq = seq;
            assert(self@ =~= old(self)@.advanced(seq));
            true
        } else {
            let diff: u64 = self.last_seq - seq;
            if diff >= 64 {
                return false;
            }
            if (self.window & (1u64 << diff)) != 0 {
                assert(bit(w, diff));
                return false;
            }
            assert(!bit(w, diff));
            self.window = self.window | (1u64 << diff);
            proof {
                assert forall|d: u64| d < 64 implies #[trigger] bit(self.window, d) == (d == diff
                    || bit(w, d)) by {
                    lemma_set_bit(w, diff, d);
                }
            }
            assert(self@ =~= old(self)@.advanced(seq));
            true
        }
    }

    /// The highest number let through so far, 0 if there is none.
    pub fn last_seq(&self) -> (r: u64)
        ensures
            r == self@.last,
    {
        self.last_seq
    }
}

/// Shifting by `diff` and setting bit 0 moves every bit up by `diff`.
proof fn lemma_shift_in(w: u64, diff: u64, d: u64)
    requires
        0 < diff < 64,
        d < 64,
    ensures
        bit((w << diff) | 1, d) == (d == 0 || (d >= diff && bit(w, (d - diff) as u64))),
{
    if d >= diff {
        let e = (d - diff) as u64;
        assert((((w << diff) | 1) & (1u64 << d) != 0) == (w & (1u64 << e) != 0)) by (bit_vector)
            requires
                0 < diff < 64,
                d < 64,
                d == e + diff,
        ;
    } else {
        assert((((w << diff) | 1) & (1u64 << d) != 0) == (d == 0)) by (bit_vector)
            requires
                0 < diff < 64,
                d < diff,
        ;
    }
}

/// Setting bit `diff` leaves the other bits alone.
proof fn lemma_set_bit(w: u64, diff: u64, d: u64)
    requires
        diff < 64,
        d < 64,
    ensures
        bit(w | (1u64 << diff), d) == (d == diff || bit(w, d)),
{
    assert(((w | (1u64 << diff)) & (1u64 << d) != 0) == (d == diff || w & (1u64 << d) != 0))
        by (bit_vector)
        requires
            diff < 64,
            d < 64,
    ;
}

/// The window after it has been asked about each of `seqs` in turn.
pub open spec fn asked_all(w: ReplayView, seqs: Seq<u64>) -> ReplayView
    decreases seqs.len(),
{
    if seqs.len() == 0 {
        w
    } else {
        asked_all(w, seqs.drop_last()).asked(seqs.last())
    }
}

/// Whether the `i`-th of `seqs` passes when a window is asked about them in turn.
pub open spec fn passes(w: ReplayView, seqs: Seq<u64>, i: int) -> bool {
    asked_all(w, seqs.take(i)).admits(seqs[i])
}

/// What every window reached from a fresh one keeps: nothing above the highest number has
/// passed, what it remembers lies within the window, and 0 has not passed.
pub open spec fn sound(w: ReplayView) -> bool {
    &&& forall|s: u64| #[trigger]
        w.seen.contains(s) ==> 0 < s <= w.last && w.last - s < WINDOW_LEN
    &&& w.last > 0 ==> w.seen.contains(w.last)
}

/// Every window reached from a fresh one is sound.
pub proof fn law_window_stays_sound(seqs: Seq<u64>)
    ensures
        sound(asked_all(ReplayView::fresh(), seqs)),
    decreases seqs.len(),
{
    if seqs.len() > 0 {
        law_window_stays_sound(seqs.drop_last());
    }
}

/// The highest number never falls, whatever the window is asked about.
pub proof fn law_last_never_falls(w: ReplayView, seqs: Seq<u64>)
    ensures
        asked_all(w, seqs).last >= w.last,
    decreases seqs.len(),
{
    if seqs.len() > 0 {
        law_last_never_falls(w, seqs.drop_last());
    }
}

/// A number that has passed is remembered, or lies below the window, for ever after.
proof fn lemma_passed_stays_shut(w: ReplayView, seqs: Seq<u64>, seq: u64)
    requires
        !w.admits(seq),
        seq <= w.last,
    ensures
        !asked_all(w, seqs).admits(seq),
        seq <= asked_all(w, seqs).last,
    decreases seqs.len(),
{
    if seqs.len() > 0 {
        lemma_passed_stays_shut(w, seqs.drop_last(), seq);
    }
}

/// Asking about two runs of numbers is asking about the one and then about the other.
proof fn lemma_asked_all_splits(w: ReplayView, a: Seq<u64>, b: Seq<u64>)
    ensures
        asked_all(w, a + b) == asked_all(asked_all(w, a), b),
    decreases b.len(),
{
    if b.len() == 0 {
        assert(a + b =~= a);
    } else {
        assert((a + b).drop_last() =~= a + b.drop_last());
        lemma_asked_all_splits(w, a, b.drop_last());
    }
}

/// No replay: of all the times that a window is asked about a number, the number passes at most
/// once, whatever else the window is asked about in between.
pub proof fn law_no_number_passes_twice(w: ReplayView, seqs: Seq<u64>, i: int, j: int)
    requires
        0 <= i < j < seqs.len(),
        seqs[i] == seqs[j],
        passes(w, seqs, i),
    ensures
        !passes(w, seqs, j),
{
    let before = asked_all(w, seqs.take(i));
    let after = asked_all(w, seqs.take(i + 1));
    assert(seqs.take(i + 1).drop_last() =~= seqs.take(i));
    assert(after == before.advanced(seqs[i]));
    assert(!after.admits(seqs[i]));
    let between = seqs.subrange(i + 1, j);
    assert(seqs.take(j) =~= seqs.take(i + 1) + between);
    lemma_asked_all_splits(w, seqs.take(i + 1), between);
    lemma_passed_stays_shut(after, between, seqs[i]);
}

/// No loss: a number above 0 passes the first time a fresh window is asked about it, unless a
/// number at least [`WINDOW_LEN`] above it has passed before.
pub proof fn law_first_time_passes_within_window(seqs: Seq<u64>, i: int)
    requires
        0 <= i < seqs.len(),
        seqs[i] != 0,
        forall|j: int| 0 <= j < i ==> seqs[j] != seqs[i],
    ensures
        passes(ReplayView::fresh(), seqs, i) <==> asked_all(ReplayView::fresh(), seqs.take(i)).last
            < seqs[i] + WINDOW_LEN,
{
    lemma_remembers_only_asked(ReplayView::fresh(), seqs.take(i), seqs[i]);
}

/// A window remembers no number that it has not been asked about.
proof fn lemma_remembers_only_asked(w: ReplayView, seqs: Seq<u64>, seq: u64)
    requires
        !w.seen.contains(seq),
        !seqs.contains(seq),
    ensures
        !asked_all(w, seqs).seen.contains(seq),
    decreases seqs.len(),
{
    if seqs.len() > 0 {
        assert forall|k: int| 0 <= k < seqs.len() implies seqs[k] != seq by {
            assert(seqs.contains(seqs[k]));
        }
        lemma_remembers_only_asked(w, seqs.drop_last(), seq);
    }
}

/// What a window that was asked about some numbers knows of those that passed.
proof fn lemma_window_knows_what_passed(seqs: Seq<u64>)
    ensures
        ({
            let w = asked_all(ReplayView::fresh(), seqs);
            &&& w.last > 0 ==> exists|k: int|
                0 <= k < seqs.len() && #[trigger] passes(ReplayView::fresh(), seqs, k) && seqs[k]
                    == w.last
            &&& forall|k: int|
                0 <= k < seqs.len() && #[trigger] passes(ReplayView::fresh(), seqs, k) ==> 0
                    < seqs[k] <= w.last
            &&& forall|s: u64| #[trigger]
                w.seen.contains(s) ==> exists|k: int|
                    0 <= k < seqs.len() && #[trigger] passes(ReplayView::fresh(), seqs, k)
                        && seqs[k] == s
            &&& forall|k: int|
                0 <= k < seqs.len() && #[trigger] passes(ReplayView::fresh(), seqs, k) ==> w.last
                    - seqs[k] >= WINDOW_LEN || w.seen.contains(seqs[k])
        }),
    decreases seqs.len(),
{
    let start = ReplayView::fresh();
    if seqs.len() > 0 {
        let front = seqs.drop_last();
        let n = front.len() as int;
        lemma_window_knows_what_passed(front);
        let v = asked_all(start, front);
        let w = asked_all(start, seqs);
        assert(seqs.take(n) =~= front);
        assert forall|k: int| 0 <= k < n implies passes(start, seqs, k) == #[trigger] passes(
            start,
            front,
            k,
        ) by {
            assert(seqs.take(k) =~= front.take(k));
        }
        assert(passes(start, seqs, n) == v.admits(seqs[n]));
        assert forall|k: int| 0 <= k < seqs.len() && #[trigger] passes(start, seqs, k) implies 0
            < seqs[k] <= w.last && (w.last - seqs[k] >= WINDOW_LEN || w.seen.contains(seqs[k])) by {
            if k < n {
                assert(passes(start, front, k));
                assert(front[k] == seqs[k]);
            }
        }
        assert forall|s: u64| #[trigger] w.seen.contains(s) implies exists|k: int|
            0 <= k < seqs.len() && #[trigger] passes(start, seqs, k) && seqs[k] == s by {
            if v.seen.contains(s) {
                let k = choose|k: int|
                    0 <= k < n && #[trigger] passes(start, front, k) && front[k] == s;
                assert(passes(start, seqs, k) && seqs[k] == s);
            } else {
                assert(passes(start, seqs, n) && seqs[n] == s);
            }
        }
        if w.last > 0 {
            if w.last == v.last {
                let k = choose|k: int|
                    0 <= k < n && #[trigger] passes(start, front, k) && front[k] == v.last;
                assert(passes(start, seqs, k) && seqs[k] == w.last);
            } else {
                assert(passes(start, seqs, n) && seqs[n] == w.last);
            }
        }
    }
}

/// A number passes exactly if it is not 0, has not passed before, and lies less than 64 below
/// every number that has.
pub proof fn law_what_passes(seqs: Seq<u64>, i: int)
    requires
        0 <= i < seqs.len(),
    ensures
        passes(ReplayView::fresh(), seqs, i) <==> seqs[i] != 0 && forall|k: int|
            0 <= k < i && #[trigger] passes(ReplayView::fresh(), seqs, k) ==> seqs[k] != seqs[i]
                && seqs[k] < seqs[i] + 64,
{
    let start = ReplayView::fresh();
    let before = seqs.take(i);
    let w = asked_all(start, before);
    lemma_window_knows_what_passed(before);
    assert forall|k: int| 0 <= k < i implies passes(start, seqs, k) == #[trigger] passes(
        start,
        before,
        k,
    ) by {
        assert(seqs.take(k) =~= before.take(k));
    }
    if passes(start, seqs, i) {
        assert forall|k: int| 0 <= k < i && #[trigger] passes(start, seqs, k) implies seqs[k]
            != seqs[i] && seqs[k] < seqs[i] + 64 by {
            assert(passes(start, before, k));
            assert(before[k] == seqs[k]);
        }
    } else if seqs[i] != 0 {
        if w.last - seqs[i] >= WINDOW_LEN {
            let k = choose|k: int|
                0 <= k < i && #[trigger] passes(start, before, k) && before[k] == w.last;
            assert(passes(start, seqs, k) && seqs[k] == w.last);
        } else {
            assert(w.seen.contains(seqs[i]));
            let k = choose|k: int|
                0 <= k < i && #[trigger] passes(start, before, k) && before[k] == seqs[i];
            assert(passes(start, seqs, k) && seqs[k] == seqs[i]);
        }
    }
}

/// The highest number of a window is the highest that has passed, 0 if none has.
pub proof fn law_last_is_the_highest_passed(seqs: Seq<u64>)
    ensures
        ({
            let last = asked_all(ReplayView::fresh(), seqs).last;
            &&& forall|k: int|
                0 <= k < seqs.len() && #[trigger] passes(ReplayView::fresh(), seqs, k) ==> seqs[k]
                    <= last
            &&& last == 0 || exists|k: int|
                0 <= k < seqs.len() && #[trigger] passes(ReplayView::fresh(), seqs, k) && seqs[k]
                    == last
        }),
{
    lemma_window_knows_what_passed(seqs);
}

} // verus!
