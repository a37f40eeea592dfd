//! The transposition table: a fixed-size, directly addressed array
//! of buckets keyed by Zobrist, with a depth-and-age replacement
//! policy and bound-aware probing.

use vstd::prelude::*;
use crate::moves::Move;
use crate::params::TABLE_BUCKETS;

verus! {

/// How the stored score bounds the true value: exact, a lower
/// bound from a fail-high (Beta), or an upper bound from a
/// fail-low (Alpha).
#[derive(Clone, Copy, PartialEq, Eq, Structural, Debug)]
pub enum TableEntryFlag {
    Exact,
    Beta,
    Alpha,
}

/// One bucket of the table.
#[derive(Clone, Copy, Debug)]
pub struct TableEntry {
    /// The full Zobrist key, validating a probe against collisions.
    pub zobrist: u64,
    /// The best move recorded at this position.
    pub mv: Move,
    /// The stored score, in centipawns.
    pub score: i32,
    /// The depth the entry was computed at.
    pub depth: u8,
    /// The full-move counter at insert time.
    pub age: u16,
    /// How the score bounds the true value.
    pub flag: TableEntryFlag,
}

/// Whether a stored entry survives a new write: only a strictly
/// deeper entry of equal or newer age is preserved.
pub open spec fn spec_keep_old(old_e: TableEntry, new_e: TableEntry) -> bool {
    old_e.depth > new_e.depth && old_e.age >= new_e.age
}

/// What a bucket holds after a write.
pub open spec fn spec_replace(old_b: Option<TableEntry>, new_e: TableEntry) -> Option<TableEntry> {
    match old_b {
        None => Some(new_e),
        Some(o) => if spec_keep_old(o, new_e) {
            Some(o)
        } else {
            Some(new_e)
        },
    }
}

/// A score clamped into the window.
pub open spec fn spec_clamp(score: int, alpha: int, beta: int) -> int {
    if score < alpha {
        alpha
    } else if score > beta {
        beta
    } else {
        score
    }
}

/// A fixed-size, directly addressed cache mapping Zobrist keys to
/// (best move, score, depth, bound flag, age).
#[derive(Clone, Debug)]
pub struct TranspositionTable {
    /// The buckets, indexed by Zobrist modulo the length.
    pub entries: Vec<Option<TableEntry>>,
}

impl TranspositionTable {
    /// A table is usable once it has at least one bucket.
    pub open spec fn wf(&self) -> bool {
        self.entries@.len() > 0
    }

    /// The bucket index of a key.
    pub open spec fn spec_bucket(&self, zobrist: u64) -> int {
        zobrist as int % self.entries@.len() as int
    }

    /// What a probe of the table answers: a move and a clamped
    /// score when the stored entry matches the full key, is deep
    /// enough, and its bound is usable against the window.
    pub open spec fn spec_probe(&self, zobrist: u64, alpha: int, beta: int, depth: u8) -> Option<
        (Move, int),
    > {
        match self.entries@[self.spec_bucket(zobrist)] {
            Some(o) => if o.zobrist == zobrist && o.depth >= depth {
                match o.flag {
                    TableEntryFlag::Exact => Some((o.mv, spec_clamp(o.score as int, alpha, beta))),
                    TableEntryFlag::Beta => if o.score >= beta {
                        Some((o.mv, beta))
                    } else {
                        None
                    },
                    TableEntryFlag::Alpha => if o.score <= alpha {
                        Some((o.mv, alpha))
                    } else {
                        None
                    },
                }
            } else {
                None
            },
            None => None,
        }
    }

    /// The move stored for a key, whatever its depth.
    pub open spec fn spec_probe_move(&self, zobrist: u64) -> Option<Move> {
        match self.entries@[self.spec_bucket(zobrist)] {
            Some(o) => if o.zobrist == zobrist {
                Some(o.mv)
            } else {
                None
            },
            None => None,
        }
    }

    /// Makes a table with the given number of buckets.
    pub fn with_buckets(n: usize) -> (r: TranspositionTable)
        requires
            n > 0,
        ensures
            r.wf(),
            r.entries@.len() == n,
            forall|i: int| 0 <= i < n ==> r.entries@[i] is None,
    {
        let entries: Vec<Option<TableEntry>> = vec![None; n];
        TranspositionTable { entries }
    }

    /// Makes a table of the default memory budget.
    pub fn new() -> (r: TranspositionTable)
        ensures
            r.wf(),
            forall|i: int| 0 <= i < r.entries@.len() ==> r.entries@[i] is None,
    {
        TranspositionTable::with_buckets(TABLE_BUCKETS)
    }

    /// Writes an entry into its bucket according to the
    /// replacement policy: overwrite unless the existing entry is
    /// strictly deeper and not older.
    pub fn insert(&mut self, e: TableEntry)
        requires
            old(self).wf(),
        ensures
            final(self).wf(),
            final(self).entries@ == old(self).entries@.update(
                old(self).spec_bucket(e.zobrist),
                spec_replace(old(self).entries@[old(self).spec_bucket(e.zobrist)], e),
            ),
    {
        let len = self.entries.len();
        let b: usize = (e.zobrist % (len as u64)) as usize;
        let keep: bool = match self.entries[b] {
            Some(o) => o.depth > e.depth && o.age >= e.age,
            None => false,
        };
        if !keep {
            self.entries[b] = Some(e);
        } else {
            proof {
                assert(final(self).entries@ =~= old(self).entries@.update(
                    old(self).spec_bucket(e.zobrist),
                    spec_replace(old(self).entries@[old(self).spec_bucket(e.zobrist)], e),
                ));
            }
        }
    }

    /// Probes the table for a usable hit against the window.
    pub fn probe(&self, zobrist: u64, alpha: i32, beta: i32, depth: u8) -> (r: Option<(Move, i32)>)
        requires
            self.wf(),
            alpha <= beta,
        ensures
            match (r, self.spec_probe(zobrist, alpha as int, beta as int, depth)) {
                (Some((m1, s1)), Some((m2, s2))) => m1 == m2 && s1 as int == s2,
                (None, None) => true,
                _ => false,
            },
    {
        let len = self.entries.len();
        let b: usize = (zobrist % (len as u64)) as usize;
        match self.entries[b] {
            Some(o) => {
                if o.zobrist == zobrist && o.depth >= depth {
                    match o.flag {
                        TableEntryFlag::Exact => {
                            let s = if o.score < alpha {
                                alpha
                            } else if o.score > beta {
                                beta
                            } else {
                                o.score
                            };
                            Some((o.mv, s))
                        },
                        TableEntryFlag::Beta => {
                            if o.score >= beta {
                                Some((o.mv, beta))
                            } else {
                                None
                            }
                        },
                        TableEntryFlag::Alpha => {
                            if o.score <= alpha {
                                Some((o.mv, alpha))
                            } else {
                                None
                            }
                        },
                    }
                } else {
                    None
                }
            },
            None => None,
        }
    }

    /// The stored move of a position, used as a search hint even
    /// when the stored depth is too shallow.
    pub fn probe_move(&self, zobrist: u64) -> (r: Option<Move>)
        requires
            self.wf(),
        ensures
            r == self.spec_probe_move(zobrist),
    {
        let len = self.entries.len();
        let b: usize = (zobrist % (len as u64)) as usize;
        match self.entries[b] {
            Some(o) => {
                if o.zobrist == zobrist {
                    Some(o.mv)
                } else {
                    None
                }
            },
            None => None,
        }
    }

    /// Zeroes all buckets.
    pub fn clear(&mut self)
        requires
            old(self).wf(),
        ensures
            final(self).wf(),
            final(self).entries@.len() == old(self).entries@.len(),
            forall|i: int| 0 <= i < final(self).entries@.len() ==> final(self).entries@[i] is None,
    {
        let len = self.entries.len();
        let mut i: usize = 0;
        while i < len
            invariant
                self.entries@.len() == len,
                len > 0,
                i <= len,
                forall|k: int| 0 <= k < i ==> self.entries@[k] is None,
            decreases len - i,
        {
            self.entries[i] = None;
            i = i + 1;
        }
    }
}

} // verus!
