//! The staged move picker: a state machine over a scratch buffer
//! that yields the transposition-table move first, then the
//! captures, then the queen promotions, then the quiet moves.

use vstd::prelude::*;
use crate::board::{spec_move_ok, Board, Position};
use crate::movegen::spec_pseudo_legal;
use crate::moves::Move;
use crate::params::spec_value_of;
use crate::piece::Piece;

verus! {

/// The ordering key of a capture: the victim's worth above all,
/// the cheaper attacker first among equal victims.
pub open spec fn spec_capture_key(p: Position, m: Move) -> int {
    let victim = spec_value_of(m.spec_get_capture());
    let attacker = match p.squares[m.spec_from(p.side).0 as int] {
        Some((_, pc)) => spec_value_of(pc),
        None => 0int,
    };
    victim * 100 - attacker
}

/// Computes the ordering key of a capture on the board.
fn capture_key(board: &Board, m: &Move) -> (r: i64)
    requires
        board.boards_ok(),
        spec_move_ok(board@, *m),
        m.spec_is_capture(),
    ensures
        r == spec_capture_key(board@, *m),
{
    let victim: i64 = crate::params::value_of(m.get_capture()) as i64;
    let from = m.from(board.get_side_to_move());
    let attacker: i64 = match board.piece_at(from) {
        Some((_, pc)) => crate::params::value_of(pc) as i64,
        None => 0,
    };
    victim * 100 - attacker
}

/// A permutation of `0..n` and its inverse, witnessing where each
/// sorted entry came from.
pub open spec fn perm_ok(perm: Seq<int>, iperm: Seq<int>, n: int) -> bool {
    &&& perm.len() == n
    &&& iperm.len() == n
    &&& forall|k: int| 0 <= k < n ==> 0 <= #[trigger] perm[k] < n && iperm[perm[k]] == k
    &&& forall|i: int| 0 <= i < n ==> 0 <= #[trigger] iperm[i] < n && perm[iperm[i]] == i
}

/// Sorts the capture range of the buffer by key, largest first.
/// The result is a permutation of the old range, witnessed by the
/// returned index maps: entry `k` of the new range is entry
/// `perm[k]` of the old one.
#[verifier::rlimit(100)]
#[verifier::spinoff_prover]
fn sort_captures(board: &Board, buffer: &mut Vec<Move>, lo: usize, hi: usize) -> (maps: (
    Ghost<Seq<int>>,
    Ghost<Seq<int>>,
))
    requires
        board.boards_ok(),
        lo <= hi <= old(buffer)@.len(),
        forall|k: int|
            lo <= k < hi ==> spec_move_ok(board@, #[trigger] old(buffer)@[k]) && old(
                buffer,
            )@[k].spec_is_capture(),
    ensures
        final(buffer)@.len() == old(buffer)@.len(),
        forall|k: int|
            (0 <= k < lo || hi <= k < old(buffer)@.len()) ==> final(buffer)@[k] == old(buffer)@[k],
        perm_ok(maps.0@, maps.1@, hi - lo),
        forall|k: int|
            0 <= k < hi - lo ==> final(buffer)@[lo + k] == old(buffer)@[lo + #[trigger] maps.0@[k]],
        forall|a: int, b: int|
            lo <= a < b < hi ==> spec_capture_key(board@, final(buffer)@[a]) >= spec_capture_key(
                board@,
                final(buffer)@[b],
            ),
{
    let ghost p = board@;
    let ghost orig = buffer@;
    let n: usize = hi - lo;
    // Compute the keys once; the sort then compares plain numbers.
    let mut kv: Vec<i64> = Vec::new();
    let mut t: usize = 0;
    while t < n
        invariant
            board.boards_ok(),
            p == board@,
            lo <= hi <= buffer@.len(),
            n == hi - lo,
            t <= n,
            buffer@ == orig,
            kv@.len() == t,
            forall|k: int|
                lo <= k < hi ==> spec_move_ok(p, #[trigger] buffer@[k])
                    && buffer@[k].spec_is_capture(),
            forall|k: int|
                0 <= k < t ==> #[trigger] kv@[k] == spec_capture_key(p, buffer@[lo + k]),
        decreases n - t,
    {
        let key = capture_key(board, &buffer[lo + t]);
        kv.push(key);
        t = t + 1;
    }
    let ghost idn = Seq::new(n as nat, |k: int| k);
    let mut perm: Ghost<Seq<int>> = Ghost(idn);
    let mut iperm: Ghost<Seq<int>> = Ghost(idn);
    // Selection sort over the key vector; the moves and the ghost
    // maps move in step.
    let mut i: usize = 0;
    while i < n
        invariant
            lo <= hi <= buffer@.len(),
            n == hi - lo,
            i <= n,
            buffer@.len() == orig.len(),
            kv@.len() == n,
            forall|k: int| (0 <= k < lo || hi <= k < orig.len()) ==> buffer@[k] == orig[k],
            perm_ok(perm@, iperm@, n as int),
            forall|k: int| 0 <= k < n ==> buffer@[lo + k] == orig[lo + #[trigger] perm@[k]],
            forall|k: int|
                0 <= k < n ==> #[trigger] kv@[k] == spec_capture_key(p, buffer@[lo + k]),
            forall|a: int, b: int| 0 <= a < b < i ==> kv@[a] >= kv@[b],
            forall|a: int, b: int| 0 <= a < i <= b < n ==> kv@[a] >= kv@[b],
        decreases n - i,
    {
        let mut jmax: usize = i;
        let mut kmax: i64 = kv[i];
        let mut j: usize = i + 1;
        while j < n
            invariant
                i <= jmax < j <= n,
                kv@.len() == n,
                kmax == kv@[jmax as int],
                forall|k: int| i <= k < j ==> kmax >= #[trigger] kv@[k],
            decreases n - j,
        {
            if kv[j] > kmax {
                jmax = j;
                kmax = kv[j];
            }
            j = j + 1;
        }
        let ghost pre = buffer@;
        let ghost kpre = kv@;
        let a = buffer[lo + i];
        let b = buffer[lo + jmax];
        buffer[lo + i] = b;
        buffer[lo + jmax] = a;
        let ka = kv[i];
        let kb = kv[jmax];
        kv[i] = kb;
        kv[jmax] = ka;
        let ghost pi = perm@[i as int];
        let ghost pj = perm@[jmax as int];
        let ghost perm2 = perm@.update(i as int, pj).update(jmax as int, pi);
        let ghost iperm2 = iperm@.update(pj, i as int).update(pi, jmax as int);
        proof {
            assert(perm_ok(perm2, iperm2, n as int)) by {
                assert forall|k: int|
                    0 <= k < n implies 0 <= #[trigger] perm2[k] < n && iperm2[perm2[k]] == k by {
                    if k == i as int {
                    } else if k == jmax as int {
                    } else {
                        assert(perm2[k] == perm@[k]);
                        assert(perm@[k] != pj || iperm@[pj] == k);
                        assert(perm@[k] != pi || iperm@[pi] == k);
                    }
                }
                assert forall|q: int|
                    0 <= q < n implies 0 <= #[trigger] iperm2[q] < n && perm2[iperm2[q]] == q by {
                    if q == pj {
                    } else if q == pi {
                    } else {
                        assert(iperm2[q] == iperm@[q]);
                        assert(perm@[iperm@[q]] == q);
                        assert(iperm@[q] != i as int && iperm@[q] != jmax as int);
                    }
                }
            }
        }
        perm = Ghost(perm2);
        iperm = Ghost(iperm2);
        proof {
            assert forall|k: int|
                0 <= k < n implies buffer@[lo + k] == orig[lo + #[trigger] perm@[k]] by {
                if k == i as int {
                    assert(buffer@[lo + k] == pre[lo + jmax]);
                } else if k == jmax as int {
                    assert(buffer@[lo + k] == pre[lo + i]);
                } else {
                    assert(buffer@[lo + k] == pre[lo + k]);
                }
            }
            assert forall|k: int|
                0 <= k < n implies #[trigger] kv@[k] == spec_capture_key(p, buffer@[lo + k]) by {
                if k == i as int {
                    assert(kv@[k] == kpre[jmax as int] && buffer@[lo + k] == pre[lo + jmax]);
                } else if k == jmax as int {
                    assert(kv@[k] == kpre[i as int] && buffer@[lo + k] == pre[lo + i]);
                } else {
                    assert(kv@[k] == kpre[k] && buffer@[lo + k] == pre[lo + k]);
                }
            }
        }
        i = i + 1;
    }
    proof {
        assert forall|a: int, b: int|
            lo <= a < b < hi implies spec_capture_key(p, buffer@[a]) >= spec_capture_key(
            p,
            buffer@[b],
        ) by {
            assert(kv@[a - lo] == spec_capture_key(p, buffer@[lo + (a - lo)]));
            assert(kv@[b - lo] == spec_capture_key(p, buffer@[lo + (b - lo)]));
            assert(kv@[a - lo] >= kv@[b - lo]);
        }
    }
    (perm, iperm)
}

/// A stateful picker over a scratch buffer: created per node, it
/// yields the next batch of moves to consider as an index range,
/// or nothing when exhausted.
pub struct MovePicker {
    /// The next stage: the table move, captures, queen promotions,
    /// quiet moves, done.
    pub stage: u8,
    /// Start of this picker's region and of the captures.
    pub start: usize,
    /// End of the captures.
    pub cap_end: usize,
    /// End of the queen promotions.
    pub promo_end: usize,
    /// End of the quiet moves.
    pub quiet_end: usize,
    /// End of the region; holds the validated table move when it
    /// differs from `quiet_end`.
    pub end: usize,
}

impl MovePicker {
    /// The bounds of one stage's range: the table move first, then
    /// the three generated categories.
    pub open spec fn stage_range(&self, s: int) -> (int, int) {
        if s == 0 {
            (self.quiet_end as int, self.end as int)
        } else if s == 1 {
            (self.start as int, self.cap_end as int)
        } else if s == 2 {
            (self.cap_end as int, self.promo_end as int)
        } else {
            (self.promo_end as int, self.quiet_end as int)
        }
    }

    /// The picker fits the board and the buffer: its region holds
    /// only pseudo-legal moves, every pseudo-legal move of the
    /// position appears in it, the stage ranges partition it by
    /// category, and the captures are sorted most valuable victim
    /// first, cheapest attacker next.
    pub open spec fn wf(&self, p: Position, buf: Seq<Move>) -> bool {
        &&& self.start <= self.cap_end <= self.promo_end <= self.quiet_end <= self.end
        &&& self.end <= buf.len()
        &&& self.end - self.quiet_end <= 1
        &&& self.stage <= 4
        &&& forall|i: int| self.start <= i < self.end ==> spec_pseudo_legal(p, #[trigger] buf[i])
        &&& forall|m: Move|
            spec_pseudo_legal(p, m) ==> exists|i: int|
                self.start <= i < self.quiet_end && buf[i] == m
        &&& forall|i: int|
            self.start <= i < self.cap_end ==> (#[trigger] buf[i]).spec_is_capture()
        &&& forall|a: int, b: int|
            self.start <= a < b < self.cap_end ==> spec_capture_key(p, buf[a])
                >= spec_capture_key(p, buf[b])
    }

    /// Creates a picker over the board and the scratch buffer,
    /// generating the moves; the table move is yielded first when
    /// it is one of the generated pseudo-legal moves.
    pub fn new(board: &Board, tt_move: Move, buffer: &mut Vec<Move>) -> (r: MovePicker)
        requires
            board.wf(),
            old(buffer)@.len() < usize::MAX - 300,
        ensures
            final(buffer)@.len() >= old(buffer)@.len(),
            forall|i: int| 0 <= i < old(buffer)@.len() ==> final(buffer)@[i] == old(buffer)@[i],
            r.start == old(buffer)@.len(),
            r.end == final(buffer)@.len(),
            r.stage == 0,
            r.wf(board@, final(buffer)@),
    {
        let start = buffer.len();
        let (cap_end, promo_end) = board.generate_moves(buffer);
        let quiet_end = buffer.len();
        proof {
            assert forall|k: int|
                start <= k < cap_end implies spec_move_ok(board@, #[trigger] buffer@[k])
                && buffer@[k].spec_is_capture() by {
                crate::movegen::lemma_move_ok_of_pseudo(board@, buffer@[k]);
            }
        }
        let ghost raw_buf = buffer@;
        let (Ghost(perm), Ghost(iperm)) = sort_captures(board, buffer, start, cap_end);
        let ghost gen_buf = buffer@;
        proof {
            assert forall|k: int|
                start <= k < quiet_end implies spec_pseudo_legal(
                board@,
                #[trigger] buffer@[k],
            ) by {
                if k < cap_end {
                    assert(buffer@[start + (k - start)] == raw_buf[start + perm[k - start]]);
                }
            }
            assert forall|k: int|
                start <= k < cap_end implies (#[trigger] buffer@[k]).spec_is_capture() by {
                assert(buffer@[start + (k - start)] == raw_buf[start + perm[k - start]]);
            }
            assert forall|m: Move| spec_pseudo_legal(board@, m) implies exists|i: int|
                start <= i < quiet_end && gen_buf[i] == m by {
                let i0 = choose|i0: int| start <= i0 < quiet_end && #[trigger] raw_buf[i0] == m;
                if i0 < cap_end {
                    let k = iperm[i0 - start];
                    assert(gen_buf[start + k] == raw_buf[start + perm[k]]);
                    assert(perm[k] == i0 - start);
                    assert(gen_buf[start + k] == m);
                } else {
                    assert(gen_buf[i0] == m);
                }
            }
        }
        let mut tt_found: bool = false;
        if !tt_move.is_none() {
            let mut i: usize = start;
            while i < quiet_end && !tt_found
                invariant
                    start <= i <= quiet_end <= buffer@.len(),
                    tt_found ==> spec_pseudo_legal(board@, tt_move),
                    forall|k: int|
                        start <= k < quiet_end ==> spec_pseudo_legal(board@, #[trigger] buffer@[k]),
                decreases quiet_end - i + (if tt_found {
                    0int
                } else {
                    1int
                }),
            {
                if buffer[i] == tt_move {
                    tt_found = true;
                } else {
                    i = i + 1;
                }
            }
        }
        if tt_found {
            buffer.push(tt_move);
        }
        let end = buffer.len();
        let r = MovePicker { stage: 0, start, cap_end, promo_end, quiet_end, end };
        proof {
            assert(forall|i: int|
                r.start <= i < r.end ==> spec_pseudo_legal(board@, #[trigger] buffer@[i]));
            assert forall|m: Move| spec_pseudo_legal(board@, m) implies exists|i: int|
                r.start <= i < r.quiet_end && buffer@[i] == m by {
                let i = choose|i: int| start <= i < quiet_end && #[trigger] gen_buf[i] == m;
                assert(buffer@[i] == gen_buf[i]);
            }
            assert(forall|i: int|
                r.start <= i < r.cap_end ==> (#[trigger] buffer@[i]).spec_is_capture());
        }
        r
    }

    /// Yields the index range of the next non-empty stage, or
    /// nothing once every stage is exhausted.
    pub fn next(&mut self) -> (r: Option<(usize, usize)>)
        ensures
            final(self).start == old(self).start,
            final(self).cap_end == old(self).cap_end,
            final(self).promo_end == old(self).promo_end,
            final(self).quiet_end == old(self).quiet_end,
            final(self).end == old(self).end,
            final(self).stage > old(self).stage || (old(self).stage >= 4 && final(self).stage
                == old(self).stage),
            match r {
                Some((lo, hi)) => {
                    &&& 1 <= final(self).stage <= 4
                    &&& old(self).stage <= final(self).stage - 1 <= 3
                    &&& (lo as int, hi as int) == old(self).stage_range(final(self).stage as int
                        - 1)
                    &&& lo < hi
                    &&& forall|t: int|
                        old(self).stage <= t < final(self).stage - 1 ==> (
                        #[trigger] old(self).stage_range(t)).0 >= old(self).stage_range(t).1
                },
                None => {
                    &&& final(self).stage >= 4
                    &&& (final(self).stage == 4 || final(self).stage == old(self).stage)
                    &&& forall|t: int|
                        old(self).stage <= t <= 3 ==> (#[trigger] old(self).stage_range(t)).0
                            >= old(self).stage_range(t).1
                },
            },
    {
        while self.stage < 4
            invariant
                self.start == old(self).start,
                self.cap_end == old(self).cap_end,
                self.promo_end == old(self).promo_end,
                self.quiet_end == old(self).quiet_end,
                self.end == old(self).end,
                self.stage >= old(self).stage,
                self.stage <= 4 || self.stage == old(self).stage,
                forall|t: int|
                    old(self).stage <= t < self.stage ==> (#[trigger] old(self).stage_range(t)).0
                        >= old(self).stage_range(t).1,
            decreases 4 - self.stage,
        {
            let s = self.stage;
            self.stage = self.stage + 1;
            let (lo, hi): (usize, usize) = if s == 0 {
                (self.quiet_end, self.end)
            } else if s == 1 {
                (self.start, self.cap_end)
            } else if s == 2 {
                (self.cap_end, self.promo_end)
            } else {
                (self.promo_end, self.quiet_end)
            };
            if lo < hi {
                return Some((lo, hi));
            }
            proof {
                assert(old(self).stage_range(s as int).0 >= old(self).stage_range(s as int).1);
            }
        }
        None
    }
}

} // verus!
