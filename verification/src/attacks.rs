//! Attack geometry: which squares a piece on a square attacks, as
//! spec predicates over the piece placement, and the executable
//! attack computations proved against them.

use vstd::prelude::*;
use crate::bits::{bb_get, BitBoard};
use crate::color::Color;
use crate::piece::Piece;
use crate::square::Square;

verus! {

/// The piece placement of a position: what stands on each of the 64
/// squares.
pub type Squares = Seq<Option<(Color, Piece)>>;

/// The mailbox code of an empty square; codes below it name a
/// colored piece, `color * 6 + piece`.
pub const EMPTY_SQ: u8 = 12;

/// The colored piece a mailbox code stands for.
pub open spec fn decode_sq(b: u8) -> Option<(Color, Piece)> {
    if b < 12 {
        Some(
            (
                if b < 6 {
                    Color::White
                } else {
                    Color::Black
                },
                Piece::spec_from_idx(b as int % 6),
            ),
        )
    } else {
        None
    }
}

/// The mailbox code of a colored piece.
pub open spec fn encode_sq(c: Color, p: Piece) -> u8 {
    (c.spec_idx() * 6 + p.spec_idx()) as u8
}

/// A mailbox is 64 codes, each either a piece code or empty.
pub open spec fn mailbox_ok(m: Seq<u8>) -> bool {
    &&& m.len() == 64
    &&& forall|i: int| 0 <= i < 64 ==> m[i] <= EMPTY_SQ
}

/// The placement a mailbox describes.
pub open spec fn mailbox_view(m: Seq<u8>) -> Squares {
    Seq::new(64, |i: int| decode_sq(m[i]))
}

/// The file of square index `s`, 0 for a .. 7 for h.
pub open spec fn sq_file(s: int) -> int {
    s % 8
}

/// The rank of square index `s`, 0 for rank 1 .. 7 for rank 8.
pub open spec fn sq_rank(s: int) -> int {
    s / 8
}

/// Whether `s` is one of the 64 square indices.
pub open spec fn on_board(s: int) -> bool {
    0 <= s < 64
}

/// Absolute value.
pub open spec fn iabs(x: int) -> int {
    if x < 0 {
        -x
    } else {
        x
    }
}

/// The forward direction of a side's pawns: White moves up the
/// ranks, Black down.
pub open spec fn pawn_dir(c: Color) -> int {
    match c {
        Color::White => 1,
        Color::Black => -1,
    }
}

/// A knight on `a` attacks `b`.
pub open spec fn knight_geo(a: int, b: int) -> bool {
    let df = iabs(sq_file(b) - sq_file(a));
    let dr = iabs(sq_rank(b) - sq_rank(a));
    on_board(a) && on_board(b) && ((df == 1 && dr == 2) || (df == 2 && dr == 1))
}

/// A king on `a` attacks `b`.
pub open spec fn king_geo(a: int, b: int) -> bool {
    let df = iabs(sq_file(b) - sq_file(a));
    let dr = iabs(sq_rank(b) - sq_rank(a));
    on_board(a) && on_board(b) && df <= 1 && dr <= 1 && (df != 0 || dr != 0)
}

/// A pawn of color `c` on `a` attacks `b` (diagonally forward).
pub open spec fn pawn_attack_geo(c: Color, a: int, b: int) -> bool {
    on_board(a) && on_board(b) && iabs(sq_file(b) - sq_file(a)) == 1 && sq_rank(b) - sq_rank(a)
        == pawn_dir(c)
}

/// The square index `k` steps from `a` in direction `(df, dr)`.
pub open spec fn step_sq(a: int, df: int, dr: int, k: int) -> int {
    (sq_rank(a) + k * dr) * 8 + sq_file(a) + k * df
}

/// Whether the square `k` steps from `a` in direction `(df, dr)`
/// still lies on the board.
pub open spec fn step_on_board(a: int, df: int, dr: int, k: int) -> bool {
    &&& 0 <= sq_file(a) + k * df < 8
    &&& 0 <= sq_rank(a) + k * dr < 8
}

/// A direction of sliding movement: file and rank deltas in -1..1,
/// not both zero.
pub open spec fn dir_ok(df: int, dr: int) -> bool {
    -1 <= df <= 1 && -1 <= dr <= 1 && (df != 0 || dr != 0)
}

/// A slider on `a` reaches `b` along direction `(df, dr)`: `b` is a
/// whole number of steps away, on the board, and every strictly
/// intermediate square is empty.
pub open spec fn ray_geo(sq: Squares, a: int, b: int, df: int, dr: int) -> bool {
    exists|k: int|
        1 <= k <= 7 && #[trigger] step_on_board(a, df, dr, k) && b == step_sq(a, df, dr, k)
            && forall|j: int| 1 <= j < k ==> sq[step_sq(a, df, dr, j)] is None
}

/// A rook on `a` attacks `b`.
pub open spec fn rook_geo(sq: Squares, a: int, b: int) -> bool {
    ||| ray_geo(sq, a, b, 1, 0)
    ||| ray_geo(sq, a, b, -1, 0)
    ||| ray_geo(sq, a, b, 0, 1)
    ||| ray_geo(sq, a, b, 0, -1)
}

/// A bishop on `a` attacks `b`.
pub open spec fn bishop_geo(sq: Squares, a: int, b: int) -> bool {
    ||| ray_geo(sq, a, b, 1, 1)
    ||| ray_geo(sq, a, b, 1, -1)
    ||| ray_geo(sq, a, b, -1, 1)
    ||| ray_geo(sq, a, b, -1, -1)
}

/// A piece of color `c` and kind `p` on `a` attacks `b`.
pub open spec fn piece_attacks(sq: Squares, c: Color, p: Piece, a: int, b: int) -> bool {
    match p {
        Piece::Pawn => pawn_attack_geo(c, a, b),
        Piece::Knight => knight_geo(a, b),
        Piece::Bishop => bishop_geo(sq, a, b),
        Piece::Rook => rook_geo(sq, a, b),
        Piece::Queen => rook_geo(sq, a, b) || bishop_geo(sq, a, b),
        Piece::King => king_geo(a, b),
    }
}

/// Square `s` holds a piece of `by` that attacks `t`.
pub open spec fn attacker_at(sq: Squares, by: Color, s: int, t: int) -> bool {
    on_board(s) && match sq[s] {
        Some((c, p)) => c == by && piece_attacks(sq, by, p, s, t),
        None => false,
    }
}

/// Some piece of `by` attacks square `t`.
pub open spec fn attacked(sq: Squares, by: Color, t: int) -> bool {
    exists|s: int| #[trigger] attacker_at(sq, by, s, t)
}

/// Adds the square at file `f` and rank `r` to the set when those
/// coordinates lie on the board.
fn add_square_at(out: &mut BitBoard, f: i16, r: i16)
    ensures
        forall|i: u64|
            i < 64 ==> (#[trigger] final(out).spec_has(i) == (old(out).spec_has(i) || (0 <= f < 8
                && 0 <= r < 8 && sq_file(i as int) == f && sq_rank(i as int) == r))),
{
    if 0 <= f && f < 8 && 0 <= r && r < 8 {
        let s: u8 = (r * 8 + f) as u8;
        proof {
            assert forall|i: u64| i < 64 implies ((i == s) == (sq_file(i as int) == f && sq_rank(
                i as int,
            ) == r)) by {
                let ii = i as int;
                assert(ii == (ii / 8) * 8 + ii % 8);
                assert(s as int == (r as int) * 8 + (f as int));
                if sq_file(ii) == f && sq_rank(ii) == r {
                    assert(ii == (r as int) * 8 + (f as int));
                }
                if ii == s {
                    assert(ii % 8 == f as int && ii / 8 == r as int) by (nonlinear_arith)
                        requires
                            ii == (r as int) * 8 + (f as int) && 0 <= f < 8 && 0 <= r < 8,
                    ;
                }
            }
        }
        *out = out.with(s);
    }
}

/// The squares a knight on `t` attacks; by symmetry, also the
/// squares a knight attacks `t` from.
pub fn knight_targets(t: Square) -> (r: BitBoard)
    requires
        t.wf(),
    ensures
        forall|s: u64| s < 64 ==> (#[trigger] r.spec_has(s) == knight_geo(t.0 as int, s as int)),
{
    let tf: i16 = t.file() as i16;
    let tr: i16 = t.rank() as i16;
    let mut out = BitBoard::empty();
    add_square_at(&mut out, tf + 1, tr + 2);
    add_square_at(&mut out, tf + 2, tr + 1);
    add_square_at(&mut out, tf + 2, tr - 1);
    add_square_at(&mut out, tf + 1, tr - 2);
    add_square_at(&mut out, tf - 1, tr - 2);
    add_square_at(&mut out, tf - 2, tr - 1);
    add_square_at(&mut out, tf - 2, tr + 1);
    add_square_at(&mut out, tf - 1, tr + 2);
    out
}

/// The squares a king on `t` attacks; by symmetry, also the squares
/// a king attacks `t` from.
pub fn king_targets(t: Square) -> (r: BitBoard)
    requires
        t.wf(),
    ensures
        forall|s: u64| s < 64 ==> (#[trigger] r.spec_has(s) == king_geo(t.0 as int, s as int)),
{
    let tf: i16 = t.file() as i16;
    let tr: i16 = t.rank() as i16;
    let mut out = BitBoard::empty();
    add_square_at(&mut out, tf + 1, tr + 1);
    add_square_at(&mut out, tf + 1, tr);
    add_square_at(&mut out, tf + 1, tr - 1);
    add_square_at(&mut out, tf, tr - 1);
    add_square_at(&mut out, tf - 1, tr - 1);
    add_square_at(&mut out, tf - 1, tr);
    add_square_at(&mut out, tf - 1, tr + 1);
    add_square_at(&mut out, tf, tr + 1);
    out
}

/// Square `s` is reached from `a` within `kmax` steps along
/// `(df, dr)`, each step staying on the board.
spec fn ray_upto(a: int, df: int, dr: int, kmax: int, s: int) -> bool {
    exists|j: int|
        1 <= j <= kmax && #[trigger] step_on_board(a, df, dr, j) && s == step_sq(a, df, dr, j)
}

/// A step on the board implies every earlier step is on the board:
/// the walked coordinates move one way.
proof fn lemma_step_monotone(a: int, df: int, dr: int, k: int, kp: int)
    requires
        dir_ok(df, dr),
        on_board(a),
        0 <= k <= kp,
        step_on_board(a, df, dr, kp),
    ensures
        step_on_board(a, df, dr, k),
{
    let f0 = sq_file(a);
    let r0 = sq_rank(a);
    assert(0 <= f0 < 8 && 0 <= r0 < 8);
    if df == 1 {
        assert(k * 1 == k && kp * 1 == kp) by (nonlinear_arith);
    } else if df == -1 {
        assert(k * -1 == -k && kp * -1 == -kp) by (nonlinear_arith);
    } else {
        assert(k * 0 == 0 && kp * 0 == 0) by (nonlinear_arith);
    }
    if dr == 1 {
        assert(k * 1 == k && kp * 1 == kp) by (nonlinear_arith);
    } else if dr == -1 {
        assert(k * -1 == -k && kp * -1 == -kp) by (nonlinear_arith);
    } else {
        assert(k * 0 == 0 && kp * 0 == 0) by (nonlinear_arith);
    }
}

/// The eighth step always leaves the board.
proof fn lemma_step_eight_off(a: int, df: int, dr: int)
    requires
        dir_ok(df, dr),
        on_board(a),
    ensures
        !step_on_board(a, df, dr, 8),
{
    if df == 1 {
        assert(8 * 1 == 8) by (nonlinear_arith);
    } else if df == -1 {
        assert(8 * -1 == -8) by (nonlinear_arith);
    } else {
        assert(8 * 0 == 0) by (nonlinear_arith);
        if dr == 1 {
            assert(8 * 1 == 8) by (nonlinear_arith);
        } else {
            assert(8 * -1 == -8) by (nonlinear_arith);
        }
    }
}

/// The squares a slider on `t` reaches in direction `(df, dr)`:
/// every step through empty squares, up to and including the first
/// occupied square.
pub fn ray_targets(mailbox: &Vec<u8>, t: Square, df: i16, dr: i16) -> (r: BitBoard)
    requires
        mailbox_ok(mailbox@),
        t.wf(),
        dir_ok(df as int, dr as int),
    ensures
        forall|s: u64|
            s < 64 ==> (#[trigger] r.spec_has(s) == ray_geo(
                mailbox_view(mailbox@),
                t.0 as int,
                s as int,
                df as int,
                dr as int,
            )),
{
    let ghost view = mailbox_view(mailbox@);
    let ghost a = t.0 as int;
    let ghost dfi = df as int;
    let ghost dri = dr as int;
    let tf: i16 = t.file() as i16;
    let tr: i16 = t.rank() as i16;
    let mut out = BitBoard::empty();
    let mut k: i16 = 1;
    let mut f: i16 = tf + df;
    let mut r: i16 = tr + dr;
    let mut blocked: bool = false;
    while !blocked && 0 <= f && f < 8 && 0 <= r && r < 8
        invariant
            mailbox_ok(mailbox@),
            view == mailbox_view(mailbox@),
            a == t.0 as int,
            dfi == df as int,
            dri == dr as int,
            dir_ok(dfi, dri),
            t.wf(),
            tf == sq_file(a),
            tr == sq_rank(a),
            1 <= k <= 8,
            -1 <= f <= 8,
            -1 <= r <= 8,
            f == sq_file(a) + (k as int) * dfi,
            r == sq_rank(a) + (k as int) * dri,
            forall|j: int|
                1 <= j < k ==> #[trigger] step_on_board(a, dfi, dri, j) && view[step_sq(
                    a,
                    dfi,
                    dri,
                    j,
                )] is None,
            blocked ==> step_on_board(a, dfi, dri, k as int) && view[step_sq(
                a,
                dfi,
                dri,
                k as int,
            )] is Some,
            forall|s: u64|
                s < 64 ==> (#[trigger] out.spec_has(s) == ray_upto(
                    a,
                    dfi,
                    dri,
                    if blocked {
                        k as int
                    } else {
                        k as int - 1
                    },
                    s as int,
                )),
        decreases 8 - k, (if blocked {
            0int
        } else {
            1int
        }),
    {
        proof {
            assert(step_on_board(a, dfi, dri, k as int));
            if k == 8 {
                lemma_step_eight_off(a, dfi, dri);
                assert(false);
            }
        }
        let s: u8 = (r * 8 + f) as u8;
        proof {
            assert(s as int == step_sq(a, dfi, dri, k as int));
            assert(s < 64);
        }
        let ghost old_out = out;
        out = out.with(s);
        proof {
            let kk = k as int;
            assert forall|q: u64| q < 64 implies (out.spec_has(q) == ray_upto(
                a,
                dfi,
                dri,
                kk,
                q as int,
            )) by {
                if out.spec_has(q) {
                    if old_out.spec_has(q) {
                        let j = choose|j: int|
                            1 <= j <= kk - 1 && #[trigger] step_on_board(a, dfi, dri, j) && (
                            q as int) == step_sq(a, dfi, dri, j);
                        assert(step_on_board(a, dfi, dri, j));
                    } else {
                        assert(q == s);
                        assert(step_on_board(a, dfi, dri, kk) && (q as int) == step_sq(
                            a,
                            dfi,
                            dri,
                            kk,
                        ));
                    }
                }
                if ray_upto(a, dfi, dri, kk, q as int) {
                    let j = choose|j: int|
                        1 <= j <= kk && #[trigger] step_on_board(a, dfi, dri, j) && (q as int)
                            == step_sq(a, dfi, dri, j);
                    if j <= kk - 1 {
                        assert(ray_upto(a, dfi, dri, kk - 1, q as int));
                        assert(old_out.spec_has(q));
                    } else {
                        assert((q as int) == step_sq(a, dfi, dri, kk));
                        assert(q == s);
                    }
                }
            }
        }
        if mailbox[s as usize] != EMPTY_SQ {
            blocked = true;
            proof {
                assert(view[s as int] == decode_sq(mailbox@[s as int]));
                assert(view[step_sq(a, dfi, dri, k as int)] is Some);
            }
        } else {
            proof {
                assert(view[s as int] == decode_sq(mailbox@[s as int]));
                assert(view[step_sq(a, dfi, dri, k as int)] is None);
                assert(((k as int) + 1) * dfi == (k as int) * dfi + dfi) by (nonlinear_arith);
                assert(((k as int) + 1) * dri == (k as int) * dri + dri) by (nonlinear_arith);
            }
            k = k + 1;
            f = f + df;
            r = r + dr;
        }
    }
    proof {
        let bound: int = if blocked {
            k as int
        } else {
            k as int - 1
        };
        assert forall|s: u64| s < 64 implies (out.spec_has(s) == ray_geo(
            view,
            a,
            s as int,
            dfi,
            dri,
        )) by {
            let si = s as int;
            if out.spec_has(s) {
                let j = choose|j: int|
                    1 <= j <= bound && #[trigger] step_on_board(a, dfi, dri, j) && si == step_sq(
                        a,
                        dfi,
                        dri,
                        j,
                    );
                assert(j <= 7) by {
                    if j == 8 {
                        lemma_step_eight_off(a, dfi, dri);
                    }
                };
                assert forall|i: int| 1 <= i < j implies view[step_sq(a, dfi, dri, i)] is None by {
                    assert(step_on_board(a, dfi, dri, i) && view[step_sq(a, dfi, dri, i)] is None);
                }
                assert(ray_geo(view, a, si, dfi, dri));
            }
            if ray_geo(view, a, si, dfi, dri) {
                let kp = choose|kp: int|
                    1 <= kp <= 7 && #[trigger] step_on_board(a, dfi, dri, kp) && si == step_sq(
                        a,
                        dfi,
                        dri,
                        kp,
                    ) && forall|j: int| 1 <= j < kp ==> view[step_sq(a, dfi, dri, j)] is None;
                if blocked {
                    if kp > k as int {
                        assert(view[step_sq(a, dfi, dri, k as int)] is None);
                        assert(false);
                    }
                } else {
                    if kp >= k as int {
                        lemma_step_monotone(a, dfi, dri, k as int, kp);
                        assert(false);
                    }
                }
                assert(kp <= bound);
                assert(ray_upto(a, dfi, dri, bound, si));
            }
        }
    }
    out
}

/// The squares a pawn of color `c` on `t` attacks.
pub fn pawn_targets(c: Color, t: Square) -> (r: BitBoard)
    requires
        t.wf(),
    ensures
        forall|s: u64|
            s < 64 ==> (#[trigger] r.spec_has(s) == pawn_attack_geo(c, t.0 as int, s as int)),
{
    let tf: i16 = t.file() as i16;
    let tr: i16 = t.rank() as i16;
    let dir: i16 = match c {
        Color::White => 1,
        Color::Black => -1,
    };
    let mut out = BitBoard::empty();
    add_square_at(&mut out, tf + 1, tr + dir);
    add_square_at(&mut out, tf - 1, tr + dir);
    out
}

/// The file and rank of a step square, when the step stays on the
/// board.
proof fn lemma_step_coords(a: int, df: int, dr: int, k: int)
    requires
        on_board(a),
        step_on_board(a, df, dr, k),
    ensures
        sq_file(step_sq(a, df, dr, k)) == sq_file(a) + k * df,
        sq_rank(step_sq(a, df, dr, k)) == sq_rank(a) + k * dr,
        on_board(step_sq(a, df, dr, k)),
{
    let ff = sq_file(a) + k * df;
    let rr = sq_rank(a) + k * dr;
    assert((rr * 8 + ff) % 8 == ff && (rr * 8 + ff) / 8 == rr) by (nonlinear_arith)
        requires
            0 <= ff < 8 && 0 <= rr < 8,
    ;
}

/// Walking a ray backwards: the reverse direction reaches the start
/// through the same empty squares.
pub proof fn lemma_ray_sym(sq: Squares, a: int, b: int, df: int, dr: int)
    requires
        dir_ok(df, dr),
        on_board(a),
        ray_geo(sq, a, b, df, dr),
    ensures
        ray_geo(sq, b, a, -df, -dr),
{
    let k = choose|k: int|
        1 <= k <= 7 && #[trigger] step_on_board(a, df, dr, k) && b == step_sq(a, df, dr, k)
            && forall|j: int| 1 <= j < k ==> sq[step_sq(a, df, dr, j)] is None;
    lemma_step_coords(a, df, dr, k);
    assert forall|j: int| 0 <= j <= k implies #[trigger] step_on_board(b, -df, -dr, j) && step_sq(
        b,
        -df,
        -dr,
        j,
    ) == step_sq(a, df, dr, k - j) by {
        assert(sq_file(b) + j * (-df) == sq_file(a) + (k - j) * df && sq_rank(b) + j * (-dr)
            == sq_rank(a) + (k - j) * dr) by (nonlinear_arith)
            requires
                sq_file(b) == sq_file(a) + k * df && sq_rank(b) == sq_rank(a) + k * dr,
        ;
        lemma_step_monotone(a, df, dr, k - j, k);
    }
    assert(step_sq(a, df, dr, 0) == a) by {
        assert(0 * df == 0 && 0 * dr == 0) by (nonlinear_arith);
        assert(a == (a / 8) * 8 + a % 8);
    }
    assert(step_on_board(b, -df, -dr, k));
    assert(step_sq(b, -df, -dr, k) == step_sq(a, df, dr, k - k));
    assert(a == step_sq(b, -df, -dr, k));
    assert forall|j: int| 1 <= j < k implies sq[#[trigger] step_sq(b, -df, -dr, j)] is None by {
        assert(step_on_board(b, -df, -dr, j));
        assert(step_sq(b, -df, -dr, j) == step_sq(a, df, dr, k - j));
    }
}

/// Knight attacks are symmetric.
pub proof fn lemma_knight_sym(a: int, b: int)
    ensures
        knight_geo(a, b) == knight_geo(b, a),
{
}

/// King attacks are symmetric.
pub proof fn lemma_king_sym(a: int, b: int)
    ensures
        king_geo(a, b) == king_geo(b, a),
{
}

/// Rook attacks are symmetric.
pub proof fn lemma_rook_sym(sq: Squares, a: int, b: int)
    requires
        on_board(a),
        on_board(b),
    ensures
        rook_geo(sq, a, b) ==> rook_geo(sq, b, a),
{
    if ray_geo(sq, a, b, 1, 0) {
        lemma_ray_sym(sq, a, b, 1, 0);
    } else if ray_geo(sq, a, b, -1, 0) {
        lemma_ray_sym(sq, a, b, -1, 0);
    } else if ray_geo(sq, a, b, 0, 1) {
        lemma_ray_sym(sq, a, b, 0, 1);
    } else if ray_geo(sq, a, b, 0, -1) {
        lemma_ray_sym(sq, a, b, 0, -1);
    }
}

/// Bishop attacks are symmetric.
pub proof fn lemma_bishop_sym(sq: Squares, a: int, b: int)
    requires
        on_board(a),
        on_board(b),
    ensures
        bishop_geo(sq, a, b) ==> bishop_geo(sq, b, a),
{
    if ray_geo(sq, a, b, 1, 1) {
        lemma_ray_sym(sq, a, b, 1, 1);
    } else if ray_geo(sq, a, b, 1, -1) {
        lemma_ray_sym(sq, a, b, 1, -1);
    } else if ray_geo(sq, a, b, -1, 1) {
        lemma_ray_sym(sq, a, b, -1, 1);
    } else if ray_geo(sq, a, b, -1, -1) {
        lemma_ray_sym(sq, a, b, -1, -1);
    }
}

/// The squares a rook on `t` attacks; by symmetry, also the squares
/// rook rays attack `t` from.
pub fn rook_targets(mailbox: &Vec<u8>, t: Square) -> (r: BitBoard)
    requires
        mailbox_ok(mailbox@),
        t.wf(),
    ensures
        forall|s: u64|
            s < 64 ==> (#[trigger] r.spec_has(s) == rook_geo(
                mailbox_view(mailbox@),
                t.0 as int,
                s as int,
            )),
{
    let east = ray_targets(mailbox, t, 1, 0);
    let west = ray_targets(mailbox, t, -1, 0);
    let north = ray_targets(mailbox, t, 0, 1);
    let south = ray_targets(mailbox, t, 0, -1);
    east.union(west).union(north.union(south))
}

/// The squares a bishop on `t` attacks; by symmetry, also the
/// squares bishop rays attack `t` from.
pub fn bishop_targets(mailbox: &Vec<u8>, t: Square) -> (r: BitBoard)
    requires
        mailbox_ok(mailbox@),
        t.wf(),
    ensures
        forall|s: u64|
            s < 64 ==> (#[trigger] r.spec_has(s) == bishop_geo(
                mailbox_view(mailbox@),
                t.0 as int,
                s as int,
            )),
{
    let ne = ray_targets(mailbox, t, 1, 1);
    let se = ray_targets(mailbox, t, 1, -1);
    let nw = ray_targets(mailbox, t, -1, 1);
    let sw = ray_targets(mailbox, t, -1, -1);
    ne.union(se).union(nw.union(sw))
}

} // verus!
