//! The position descriptor: six space-separated fields — piece
//! placement by ranks 8..1 with digit-compressed empty runs, side
//! to move, castling rights, en-passant target, half-move clock and
//! full-move counter. Rendering is specified exactly; parsing
//! accepts exactly the canonical renderings of valid positions.

use vstd::prelude::*;
use crate::attacks::{decode_sq, mailbox_ok, mailbox_view, sq_rank, Squares, EMPTY_SQ};
use crate::board::{ep_rank_of, has_right, pos_ok, Board, Position};
use crate::color::Color;
use crate::errors::ChessError;
use crate::piece::Piece;
use crate::moves::Move;
use crate::square::Square;

verus! {

/// The digit character of a small number.
pub open spec fn spec_digit_char(d: int) -> char {
    if d == 0 {
        '0'
    } else if d == 1 {
        '1'
    } else if d == 2 {
        '2'
    } else if d == 3 {
        '3'
    } else if d == 4 {
        '4'
    } else if d == 5 {
        '5'
    } else if d == 6 {
        '6'
    } else if d == 7 {
        '7'
    } else if d == 8 {
        '8'
    } else {
        '9'
    }
}

/// The decimal digits of a non-negative number, most significant
/// first, without leading zeroes.
pub open spec fn dec_digits(n: int) -> Seq<char>
    decreases n,
{
    if n < 10 {
        seq![spec_digit_char(n)]
    } else {
        dec_digits(n / 10).push(spec_digit_char(n % 10))
    }
}

/// One rank of the placement field, from `file` on, with `run`
/// empty squares pending.
pub open spec fn render_rank(sq: Squares, rank: int, file: int, run: int) -> Seq<char>
    decreases 8 - file,
{
    if file >= 8 {
        if run > 0 {
            seq![spec_digit_char(run)]
        } else {
            Seq::empty()
        }
    } else {
        match sq[rank * 8 + file] {
            None => render_rank(sq, rank, file + 1, run + 1),
            Some((c, p)) => (if run > 0 {
                seq![spec_digit_char(run)]
            } else {
                Seq::empty()
            }).push(p.spec_as_char(c)) + render_rank(sq, rank, file + 1, 0),
        }
    }
}

/// The placement field from `rank` down to rank 1, slash-separated.
pub open spec fn render_ranks_down(sq: Squares, rank: int) -> Seq<char>
    decreases rank,
{
    if rank <= 0 {
        render_rank(sq, 0, 0, 0)
    } else {
        render_rank(sq, rank, 0, 0).push('/') + render_ranks_down(sq, rank - 1)
    }
}

/// The castling field: the held rights in K, Q, k, q order, or a
/// dash for none.
pub open spec fn castle_chars(castle: int) -> Seq<char> {
    if castle == 0 {
        seq!['-']
    } else {
        (if has_right(castle, 1) {
            seq!['K']
        } else {
            Seq::empty()
        }) + (if has_right(castle, 2) {
            seq!['Q']
        } else {
            Seq::empty()
        }) + (if has_right(castle, 4) {
            seq!['k']
        } else {
            Seq::empty()
        }) + (if has_right(castle, 8) {
            seq!['q']
        } else {
            Seq::empty()
        })
    }
}

/// The en-passant field: the target square or a dash.
pub open spec fn ep_chars(ep: Option<int>) -> Seq<char> {
    match ep {
        Some(e) => seq![Square(e as u8).spec_file_char(), Square(e as u8).spec_rank_char()],
        None => seq!['-'],
    }
}

/// The whole descriptor of a position.
pub open spec fn spec_render(p: Position) -> Seq<char> {
    render_ranks_down(p.squares, 7).push(' ').push(p.side.spec_as_char()).push(' ') + castle_chars(
        p.castle,
    ).push(' ') + ep_chars(p.ep).push(' ') + dec_digits(p.halfmove).push(' ') + dec_digits(
        p.fullmove,
    )
}

/// Appends one digit character.
fn append_digit(out: &mut String, d: u8)
    requires
        d <= 9,
    ensures
        final(out)@ == old(out)@.push(spec_digit_char(d as int)),
{
    proof {
        reveal_strlit("0");
        reveal_strlit("1");
        reveal_strlit("2");
        reveal_strlit("3");
        reveal_strlit("4");
        reveal_strlit("5");
        reveal_strlit("6");
        reveal_strlit("7");
        reveal_strlit("8");
        reveal_strlit("9");
    }
    match d {
        0 => out.append("0"),
        1 => out.append("1"),
        2 => out.append("2"),
        3 => out.append("3"),
        4 => out.append("4"),
        5 => out.append("5"),
        6 => out.append("6"),
        7 => out.append("7"),
        8 => out.append("8"),
        _ => out.append("9"),
    }
    proof {
        assert(final(out)@ =~= old(out)@.push(spec_digit_char(d as int)));
    }
}

/// Appends the letter of a colored piece.
fn append_piece(out: &mut String, c: Color, p: Piece)
    ensures
        final(out)@ == old(out)@.push(p.spec_as_char(c)),
{
    proof {
        reveal_strlit("P");
        reveal_strlit("R");
        reveal_strlit("N");
        reveal_strlit("B");
        reveal_strlit("Q");
        reveal_strlit("K");
        reveal_strlit("p");
        reveal_strlit("r");
        reveal_strlit("n");
        reveal_strlit("b");
        reveal_strlit("q");
        reveal_strlit("k");
    }
    match (c, p) {
        (Color::White, Piece::Pawn) => out.append("P"),
        (Color::White, Piece::Rook) => out.append("R"),
        (Color::White, Piece::Knight) => out.append("N"),
        (Color::White, Piece::Bishop) => out.append("B"),
        (Color::White, Piece::Queen) => out.append("Q"),
        (Color::White, Piece::King) => out.append("K"),
        (Color::Black, Piece::Pawn) => out.append("p"),
        (Color::Black, Piece::Rook) => out.append("r"),
        (Color::Black, Piece::Knight) => out.append("n"),
        (Color::Black, Piece::Bishop) => out.append("b"),
        (Color::Black, Piece::Queen) => out.append("q"),
        (Color::Black, Piece::King) => out.append("k"),
    }
    proof {
        assert(final(out)@ =~= old(out)@.push(p.spec_as_char(c)));
    }
}

/// Appends the decimal digits of a number.
fn append_dec(out: &mut String, v: u16)
    ensures
        final(out)@ == old(out)@ + dec_digits(v as int),
    decreases v,
{
    if v < 10 {
        append_digit(out, v as u8);
        proof {
            assert(final(out)@ =~= old(out)@ + dec_digits(v as int));
        }
    } else {
        append_dec(out, v / 10);
        append_digit(out, (v % 10) as u8);
        proof {
            assert(final(out)@ =~= old(out)@ + dec_digits(v as int));
        }
    }
}

/// Appends the algebraic name of a square.
fn append_square(out: &mut String, e: Square)
    requires
        e.wf(),
    ensures
        final(out)@ == old(out)@.push(e.spec_file_char()).push(e.spec_rank_char()),
{
    proof {
        reveal_strlit("a");
        reveal_strlit("b");
        reveal_strlit("c");
        reveal_strlit("d");
        reveal_strlit("e");
        reveal_strlit("f");
        reveal_strlit("g");
        reveal_strlit("h");
    }
    match e.file() {
        0 => out.append("a"),
        1 => out.append("b"),
        2 => out.append("c"),
        3 => out.append("d"),
        4 => out.append("e"),
        5 => out.append("f"),
        6 => out.append("g"),
        _ => out.append("h"),
    }
    append_digit(out, e.rank() + 1);
    proof {
        assert(final(out)@ =~= old(out)@.push(e.spec_file_char()).push(e.spec_rank_char()));
    }
}

impl Board {
    /// Renders the position as its canonical descriptor.
    #[verifier::rlimit(100)]
    #[verifier::spinoff_prover]
    pub fn render_fen(&self) -> (r: String)
        requires
            self.boards_ok(),
            pos_ok(self@),
        ensures
            r@ == spec_render(self@),
    {
        proof {
            reveal_strlit(" ");
            reveal_strlit("/");
            reveal_strlit("-");
            reveal_strlit("w");
            reveal_strlit("b");
            reveal_strlit("K");
            reveal_strlit("Q");
            reveal_strlit("k");
            reveal_strlit("q");
        }
        let ghost sqv = self@.squares;
        let mut out = String::new();
        let mut rank: i8 = 7;
        while rank >= 0
            invariant
                self.boards_ok(),
                pos_ok(self@),
                sqv == self@.squares,
                -1 <= rank <= 7,
                out@ + (if rank >= 0 {
                    render_ranks_down(sqv, rank as int)
                } else {
                    Seq::<char>::empty()
                }) == render_ranks_down(sqv, 7),
            decreases rank + 1,
        {
            let ghost rank_start = out@;
            let mut file: u8 = 0;
            let mut run: u8 = 0;
            while file < 8
                invariant
                    self.boards_ok(),
                    sqv == self@.squares,
                    0 <= rank <= 7,
                    file <= 8,
                    run <= file,
                    out@ + render_rank(sqv, rank as int, file as int, run as int) == rank_start
                        + render_rank(sqv, rank as int, 0, 0),
                decreases 8 - file,
            {
                let s = Square::at(file, rank as u8);
                match self.piece_at(s) {
                    None => {
                        run = run + 1;
                    },
                    Some((c, p)) => {
                        if run > 0 {
                            append_digit(&mut out, run);
                        }
                        append_piece(&mut out, c, p);
                        run = 0;
                        proof {
                            assert(out@ + render_rank(sqv, rank as int, file as int + 1, 0)
                                =~= rank_start + render_rank(sqv, rank as int, 0, 0));
                        }
                    },
                }
                file = file + 1;
            }
            if run > 0 {
                append_digit(&mut out, run);
            }
            proof {
                assert(out@ =~= rank_start + render_rank(sqv, rank as int, 0, 0));
            }
            if rank > 0 {
                proof {
                    reveal_strlit("/");
                    assert(render_ranks_down(sqv, rank as int) == render_rank(
                        sqv,
                        rank as int,
                        0,
                        0,
                    ).push('/') + render_ranks_down(sqv, rank as int - 1));
                }
                out.append("/");
                proof {
                    assert(("/")@ =~= seq!['/']);
                    assert(out@ =~= rank_start + render_rank(sqv, rank as int, 0, 0).push('/'));
                    assert(out@ + render_ranks_down(sqv, rank as int - 1) =~= render_ranks_down(
                        sqv,
                        7,
                    ));
                }
            } else {
                proof {
                    assert(render_ranks_down(sqv, 0) == render_rank(sqv, 0, 0, 0));
                    assert(out@ + Seq::<char>::empty() =~= render_ranks_down(sqv, 7));
                }
            }
            rank = rank - 1;
        }
        out.append(" ");
        match self.side {
            Color::White => out.append("w"),
            Color::Black => out.append("b"),
        }
        out.append(" ");
        if self.castle == 0 {
            out.append("-");
        } else {
            if (self.castle / 1) % 2 == 1 {
                out.append("K");
            }
            if (self.castle / 2) % 2 == 1 {
                out.append("Q");
            }
            if (self.castle / 4) % 2 == 1 {
                out.append("k");
            }
            if (self.castle / 8) % 2 == 1 {
                out.append("q");
            }
        }
        out.append(" ");
        match self.ep {
            Some(e) => append_square(&mut out, e),
            None => out.append("-"),
        }
        out.append(" ");
        append_dec(&mut out, self.halfmove);
        out.append(" ");
        append_dec(&mut out, self.fullmove);
        proof {
            assert(out@ =~= spec_render(self@));
        }
        out
    }
}

/// Whether two strings hold the same characters.
pub fn chars_eq(a: &str, b: &str) -> (r: bool)
    ensures
        r == (a@ == b@),
{
    let na = a.unicode_len();
    let nb = b.unicode_len();
    if na != nb {
        proof {
            assert(a@ != b@);
        }
        return false;
    }
    let mut i: usize = 0;
    while i < na
        invariant
            na == a@.len(),
            na == b@.len(),
            i <= na,
            forall|k: int| 0 <= k < i ==> a@[k] == b@[k],
        decreases na - i,
    {
        if a.get_char(i) != b.get_char(i) {
            return false;
        }
        i = i + 1;
    }
    proof {
        assert(a@ =~= b@);
    }
    true
}

/// The value of a decimal digit character, if it is one.
pub open spec fn spec_digit_val(c: char) -> Option<u8> {
    if c == '0' {
        Some(0u8)
    } else if c == '1' {
        Some(1u8)
    } else if c == '2' {
        Some(2u8)
    } else if c == '3' {
        Some(3u8)
    } else if c == '4' {
        Some(4u8)
    } else if c == '5' {
        Some(5u8)
    } else if c == '6' {
        Some(6u8)
    } else if c == '7' {
        Some(7u8)
    } else if c == '8' {
        Some(8u8)
    } else if c == '9' {
        Some(9u8)
    } else {
        None
    }
}

/// The number of consecutive empty squares on a rank, from `f` on.
pub open spec fn run_len(sq: Squares, rank: int, f: int) -> int
    decreases 8 - f,
{
    if f < 0 || f >= 8 {
        0
    } else if sq[rank * 8 + f] is Some {
        0
    } else {
        1 + run_len(sq, rank, f + 1)
    }
}

/// Empty squares are rendered by raising the pending run.
proof fn lemma_rank_skip(sq: Squares, rank: int, f: int, j: int, run: int)
    requires
        0 <= f,
        0 <= j,
        f + j <= 8,
        forall|t: int| f <= t < f + j ==> (#[trigger] sq[rank * 8 + t]) is None,
    ensures
        render_rank(sq, rank, f, run) == render_rank(sq, rank, f + j, run + j),
    decreases j,
{
    if j > 0 {
        assert(sq[rank * 8 + f] is None);
        lemma_rank_skip(sq, rank, f + 1, j - 1, run + 1);
    }
}

/// The head of a rank rendering: the run digit when empty squares
/// lead, else nothing special to say beyond the definition.
proof fn lemma_rank_head(sq: Squares, rank: int, f: int)
    requires
        0 <= f < 8,
        run_len(sq, rank, f) >= 1,
    ensures
        1 <= run_len(sq, rank, f) <= 8 - f,
        forall|t: int|
            f <= t < f + run_len(sq, rank, f) ==> (#[trigger] sq[rank * 8 + t]) is None,
        f + run_len(sq, rank, f) < 8 ==> sq[rank * 8 + f + run_len(sq, rank, f)] is Some,
        render_rank(sq, rank, f, 0) == seq![spec_digit_char(run_len(sq, rank, f))] + render_rank(
            sq,
            rank,
            f + run_len(sq, rank, f),
            0,
        ),
    decreases 8 - f,
{
    let k = run_len(sq, rank, f);
    lemma_run_props(sq, rank, f);
    lemma_rank_skip(sq, rank, f, k, 0);
    if f + k == 8 {
        assert(render_rank(sq, rank, f + k, k) =~= seq![spec_digit_char(k)] + render_rank(
            sq,
            rank,
            f + k,
            0,
        ));
    } else {
        assert(sq[rank * 8 + f + k] is Some);
        assert(render_rank(sq, rank, f + k, k) =~= seq![spec_digit_char(k)] + render_rank(
            sq,
            rank,
            f + k,
            0,
        ));
    }
}

/// The run length is bounded and covers only empty squares.
proof fn lemma_run_props(sq: Squares, rank: int, f: int)
    requires
        0 <= f <= 8,
    ensures
        0 <= run_len(sq, rank, f) <= 8 - f,
        forall|t: int|
            f <= t < f + run_len(sq, rank, f) ==> (#[trigger] sq[rank * 8 + t]) is None,
        f + run_len(sq, rank, f) < 8 ==> sq[rank * 8 + f + run_len(sq, rank, f)] is Some,
    decreases 8 - f,
{
    if f < 8 && sq[rank * 8 + f] is None {
        lemma_run_props(sq, rank, f + 1);
    }
}

/// The value of a digit string, most significant first.
pub open spec fn dec_val(cs: Seq<char>) -> nat
    decreases cs.len(),
{
    if cs.len() == 0 {
        0
    } else {
        dec_val(cs.drop_last()) * 10 + (match spec_digit_val(cs.last()) {
            Some(d) => d as nat,
            None => 0,
        })
    }
}

/// Powers of ten.
pub open spec fn pow10(k: nat) -> nat
    decreases k,
{
    if k == 0 {
        1
    } else {
        10 * pow10((k - 1) as nat)
    }
}

/// The decimal rendering of a number holds only digits, is not
/// empty, and reads back as the number.
proof fn lemma_dec_digits_props(v: int)
    requires
        0 <= v,
    ensures
        dec_digits(v).len() >= 1,
        forall|idx: int|
            0 <= idx < dec_digits(v).len() ==> (#[trigger] spec_digit_val(dec_digits(v)[idx]))
                is Some,
        dec_val(dec_digits(v)) == v,
    decreases v,
{
    if v < 10 {
        assert(dec_digits(v) =~= seq![spec_digit_char(v)]);
        assert(dec_digits(v).drop_last() =~= Seq::<char>::empty());
        assert(spec_digit_val(spec_digit_char(v)) == Some(v as u8));
        assert forall|idx: int|
            0 <= idx < dec_digits(v).len() implies (#[trigger] spec_digit_val(
            dec_digits(v)[idx],
        )) is Some by {
            assert(dec_digits(v)[idx] == spec_digit_char(v));
        }
        assert(dec_val(Seq::<char>::empty()) == 0);
        assert(dec_digits(v).last() == spec_digit_char(v));
        assert(dec_val(dec_digits(v)) == 0 * 10 + v);
    } else {
        lemma_dec_digits_props(v / 10);
        assert(dec_digits(v) == dec_digits(v / 10).push(spec_digit_char(v % 10)));
        assert(dec_digits(v).drop_last() =~= dec_digits(v / 10));
        assert(spec_digit_val(spec_digit_char(v % 10)) == Some((v % 10) as u8));
        lemma_dec_val_push(dec_digits(v / 10), spec_digit_char(v % 10));
        assert(dec_val(dec_digits(v)) == dec_val(dec_digits(v / 10)) * 10 + (v % 10));
        assert(dec_val(dec_digits(v)) == (v / 10) * 10 + (v % 10));
        assert forall|idx: int|
            0 <= idx < dec_digits(v).len() implies (#[trigger] spec_digit_val(
            dec_digits(v)[idx],
        )) is Some by {
            if idx < dec_digits(v / 10).len() {
                assert(dec_digits(v)[idx] == dec_digits(v / 10)[idx]);
            } else {
                assert(dec_digits(v)[idx] == spec_digit_char(v % 10));
            }
        }
    }
}

/// A number up to five digits renders in at most five characters.
proof fn lemma_dec_len5(v: int)
    requires
        0 <= v <= 99999,
    ensures
        dec_digits(v).len() <= 5,
{
    reveal_with_fuel(dec_digits, 6);
}

/// The value of a digit string grown by one digit on the right.
proof fn lemma_dec_val_push(cs: Seq<char>, c: char)
    ensures
        dec_val(cs.push(c)) == dec_val(cs) * 10 + (match spec_digit_val(c) {
            Some(d) => d as nat,
            None => 0nat,
        }),
{
    assert(cs.push(c).drop_last() =~= cs);
}

/// Consuming the head of a known suffix advances the cursor by one.
proof fn lemma_suffix_step(s: Seq<char>, i: int, head: char, rest: Seq<char>)
    requires
        0 <= i <= s.len(),
        s.subrange(i, s.len() as int) == seq![head] + rest,
    ensures
        i < s.len(),
        s[i] == head,
        s.subrange(i + 1, s.len() as int) == rest,
{
    assert(s.subrange(i, s.len() as int).len() == s.len() - i);
    assert(s.subrange(i, s.len() as int)[0] == head);
    assert(s.subrange(i + 1, s.len() as int) =~= rest) by {
        assert forall|t: int| 0 <= t < rest.len() implies s.subrange(
            i + 1,
            s.len() as int,
        )[t] == rest[t] by {
            assert(s.subrange(i, s.len() as int)[t + 1] == rest[t]);
        }
    }
}

/// A four-bit mask is the sum of its set bits.
proof fn lemma_castle_bits(c: int)
    requires
        0 <= c < 16,
    ensures
        c == (if has_right(c, 1) {
            1int
        } else {
            0int
        }) + (if has_right(c, 2) {
            2int
        } else {
            0int
        }) + (if has_right(c, 4) {
            4int
        } else {
            0int
        }) + (if has_right(c, 8) {
            8int
        } else {
            0int
        }),
{
}

/// Ten to the sixth bounds every shorter decimal prefix.
proof fn lemma_pow10_le6(k: nat)
    requires
        k <= 6,
    ensures
        pow10(k) <= 1000000,
        pow10(k) >= 1,
{
    reveal_with_fuel(pow10, 8);
    if k == 0 {
    } else if k == 1 {
    } else if k == 2 {
    } else if k == 3 {
    } else if k == 4 {
    } else if k == 5 {
    } else {
        assert(k == 6);
    }
}

/// The value of a decimal digit character.
fn digit_val(c: char) -> (r: Option<u8>)
    ensures
        r == spec_digit_val(c),
        r is Some ==> r.unwrap() <= 9,
{
    match c {
        '0' => Some(0),
        '1' => Some(1),
        '2' => Some(2),
        '3' => Some(3),
        '4' => Some(4),
        '5' => Some(5),
        '6' => Some(6),
        '7' => Some(7),
        '8' => Some(8),
        '9' => Some(9),
        _ => None,
    }
}

impl Board {
    /// Parses a position descriptor. Exactly the canonical
    /// renderings of valid positions are accepted: on success the
    /// input is the rendering of the returned board, whose history
    /// is empty.
    /// Parses a position descriptor. Exactly the canonical
    /// renderings of valid positions are accepted: on success the
    /// input is the rendering of the returned board, whose history
    /// is empty, and every such rendering is accepted.
    #[verifier::rlimit(100)]
    #[verifier::spinoff_prover]
    pub fn parse_fen(s: &str) -> (r: Result<Board, ChessError>)
        ensures
            match r {
                Ok(b) => {
                    &&& b.wf()
                    &&& b.history@.len() == 0
                    &&& s@ == spec_render(b@)
                },
                Err(e) => e == ChessError::Parse,
            },
            (exists|p: Position| pos_ok(p) && s@ == spec_render(p)) ==> r is Ok,
    {
        let ghost hyp = exists|p: Position| pos_ok(p) && s@ == spec_render(p);
        let ghost pw: Position = if hyp {
            choose|p: Position| pos_ok(p) && s@ == spec_render(p)
        } else {
            vstd::pervasive::arbitrary()
        };
        let ghost sqw = pw.squares;
        let ghost cast = castle_chars(pw.castle);
        let ghost epc = ep_chars(pw.ep);
        let ghost dh = dec_digits(pw.halfmove);
        let ghost dfu = dec_digits(pw.fullmove);
        let ghost rest_sd = seq![' '] + dfu;
        let ghost rest_ep = seq![' '] + dh + rest_sd;
        let ghost rest_ca = seq![' '] + epc + rest_ep;
        let ghost rest_pl = seq![' ', pw.side.spec_as_char(), ' '] + cast + rest_ca;
        let n = s.unicode_len();
        proof {
            if hyp {
                assert(s@ =~= render_ranks_down(sqw, 7) + rest_pl);
                assert(s@.subrange(0, n as int) =~= s@);
            }
        }
        let mut i: usize = 0;
        let mut codes: Vec<u8> = vec![EMPTY_SQ; 64];
        // Piece placement, ranks 8 down to 1.
        let mut rank: i8 = 7;
        while rank >= 0
            invariant
                -1 <= rank <= 7,
                n == s@.len(),
                mailbox_ok(codes@),
                i <= n,
                hyp == (exists|p: Position| pos_ok(p) && s@ == spec_render(p)),
                hyp ==> pos_ok(pw) && sqw == pw.squares && rest_pl == seq![
                    ' ',
                    pw.side.spec_as_char(),
                    ' ',
                ] + cast + rest_ca,
                hyp ==> cast == castle_chars(pw.castle) && epc == ep_chars(pw.ep) && dh
                    == dec_digits(pw.halfmove) && dfu == dec_digits(pw.fullmove),
                hyp ==> rest_ca == seq![' '] + epc + rest_ep && rest_ep == seq![' '] + dh + rest_sd
                    && rest_sd == seq![' '] + dfu,
                hyp && rank >= 0 ==> s@.subrange(i as int, n as int) == render_ranks_down(
                    sqw,
                    rank as int,
                ) + rest_pl,
                hyp && rank < 0 ==> s@.subrange(i as int, n as int) == rest_pl,
                hyp ==> forall|idx: int|
                    0 <= idx < 64 ==> decode_sq(#[trigger] codes@[idx]) == (if idx / 8
                        > rank as int {
                        sqw[idx]
                    } else {
                        Option::<(Color, Piece)>::None
                    }),
            decreases rank + 1,
        {
            let ghost tail = (if rank > 0 {
                seq!['/'] + render_ranks_down(sqw, rank as int - 1)
            } else {
                Seq::<char>::empty()
            }) + rest_pl;
            proof {
                if hyp {
                    if rank > 0 {
                        assert(render_ranks_down(sqw, rank as int) + rest_pl =~= render_rank(
                            sqw,
                            rank as int,
                            0,
                            0,
                        ) + tail);
                    } else {
                        assert(render_ranks_down(sqw, 0) + rest_pl =~= render_rank(sqw, 0, 0, 0)
                            + tail);
                    }
                }
            }
            let mut file: u8 = 0;
            while file < 8
                invariant
                    0 <= rank <= 7,
                    file <= 8,
                    n == s@.len(),
                    mailbox_ok(codes@),
                    i <= n,
                    hyp == (exists|p: Position| pos_ok(p) && s@ == spec_render(p)),
                    hyp ==> pos_ok(pw) && sqw == pw.squares,
                    hyp ==> tail == (if rank > 0 {
                        seq!['/'] + render_ranks_down(sqw, rank as int - 1)
                    } else {
                        Seq::<char>::empty()
                    }) + rest_pl,
                    hyp ==> s@.subrange(i as int, n as int) == render_rank(
                        sqw,
                        rank as int,
                        file as int,
                        0,
                    ) + tail,
                    hyp ==> forall|idx: int|
                        0 <= idx < 64 ==> decode_sq(#[trigger] codes@[idx]) == (if idx / 8
                            > rank as int || (idx / 8 == rank as int && idx % 8 < file as int) {
                            sqw[idx]
                        } else {
                            Option::<(Color, Piece)>::None
                        }),
                decreases 8 - file,
            {
                let ghost k = run_len(sqw, rank as int, file as int);
                proof {
                    if hyp {
                        lemma_run_props(sqw, rank as int, file as int);
                        if k == 0 {
                            let ch = match sqw[rank as int * 8 + file as int] {
                                Some((c2, p2)) => p2.spec_as_char(c2),
                                None => ' ',
                            };
                            assert(render_rank(sqw, rank as int, file as int, 0) =~= seq![ch]
                                + render_rank(sqw, rank as int, file as int + 1, 0));
                            assert(s@.subrange(i as int, s@.len() as int) =~= seq![ch] + (render_rank(sqw, rank as int, file as int + 1, 0) + tail));
                            lemma_suffix_step(
                                s@,
                                i as int,
                                ch,
                                render_rank(sqw, rank as int, file as int + 1, 0) + tail,
                            );
                        } else {
                            lemma_rank_head(sqw, rank as int, file as int);
                            assert(s@.subrange(i as int, s@.len() as int) =~= seq![spec_digit_char(k)] + (render_rank(sqw, rank as int, file as int + k, 0) + tail));
                            lemma_suffix_step(
                                s@,
                                i as int,
                                spec_digit_char(k),
                                render_rank(sqw, rank as int, file as int + k, 0) + tail,
                            );
                        }
                    }
                }
                if i >= n {
                    proof {
                        if hyp {
                            assert(false);
                        }
                    }
                    return Err(ChessError::Parse);
                }
                let c = s.get_char(i);
                i = i + 1;
                match digit_val(c) {
                    Some(d) => {
                        proof {
                            if hyp {
                                if k == 0 {
                                    let (c2, p2) = sqw[rank as int * 8
                                        + file as int].unwrap();
                                    assert(spec_digit_val(p2.spec_as_char(c2)) is None);
                                    assert(false);
                                }
                                assert(spec_digit_val(spec_digit_char(k)) == Some(k as u8));
                                assert(d == k);
                            }
                        }
                        if d < 1 || d > 8 || file + d > 8 {
                            proof {
                                if hyp {
                                    assert(false);
                                }
                            }
                            return Err(ChessError::Parse);
                        }
                        file = file + d;
                        proof {
                            if hyp {
                                assert forall|idx: int|
                                    0 <= idx < 64 implies decode_sq(#[trigger] codes@[idx]) == (
                                if idx / 8 > rank as int || (idx / 8 == rank as int && idx % 8
                                    < file as int) {
                                    sqw[idx]
                                } else {
                                    Option::<(Color, Piece)>::None
                                }) by {
                                    if idx / 8 == rank as int && file as int - k <= idx % 8
                                        < file as int {
                                        assert(idx == rank as int * 8 + idx % 8);
                                        assert(sqw[idx] is None);
                                    }
                                }
                            }
                        }
                    },
                    None => {
                        match Piece::from_char(c) {
                            Some((col, p)) => {
                                proof {
                                    if hyp {
                                        if k != 0 {
                                            assert(spec_digit_val(spec_digit_char(k)) == Some(
                                                k as u8,
                                            ));
                                            assert(false);
                                        }
                                        let (c2, p2) = sqw[rank as int * 8
                                            + file as int].unwrap();
                                        crate::piece::lemma_piece_char_round_trip(c2, p2);
                                        assert(col == c2 && p == p2);
                                    }
                                }
                                let idx: usize = (rank as usize) * 8 + (file as usize);
                                let code: u8 = (col.idx() * 6 + p.idx()) as u8;
                                codes[idx] = code;
                                proof {
                                    if hyp {
                                        assert(decode_sq(code) == Some((col, p)));
                                        assert forall|idx2: int|
                                            0 <= idx2 < 64 implies decode_sq(
                                            #[trigger] codes@[idx2],
                                        ) == (if idx2 / 8 > rank as int || (idx2 / 8 == rank as int
                                            && idx2 % 8 < file as int + 1) {
                                            sqw[idx2]
                                        } else {
                                            Option::<(Color, Piece)>::None
                                        }) by {
                                            if idx2 == idx as int {
                                                assert(idx2 / 8 == rank as int && idx2 % 8
                                                    == file as int);
                                            }
                                        }
                                    }
                                }
                                file = file + 1;
                            },
                            None => {
                                proof {
                                    if hyp {
                                        if k == 0 {
                                            let (c2, p2) = sqw[rank as int * 8
                                                + file as int].unwrap();
                                            assert(Piece::spec_from_char(p2.spec_as_char(c2))
                                                == Some((c2, p2))) by {
                                                crate::piece::lemma_piece_char_round_trip(c2, p2);
                                            }
                                            assert(false);
                                        } else {
                                            assert(spec_digit_val(spec_digit_char(k)) == Some(
                                                k as u8,
                                            ));
                                            assert(false);
                                        }
                                    }
                                }
                                return Err(ChessError::Parse);
                            },
                        }
                    },
                }
            }
            proof {
                if hyp {
                    assert(render_rank(sqw, rank as int, 8, 0) =~= Seq::<char>::empty());
                    assert(s@.subrange(i as int, n as int) =~= tail);
                }
            }
            if rank > 0 {
                proof {
                    if hyp {
                        assert(s@.subrange(i as int, s@.len() as int) =~= seq!['/'] + (render_ranks_down(sqw, rank as int - 1) + rest_pl));
                        lemma_suffix_step(
                            s@,
                            i as int,
                            '/',
                            render_ranks_down(sqw, rank as int - 1) + rest_pl,
                        );
                    }
                }
                if i >= n || s.get_char(i) != '/' {
                    proof {
                        if hyp {
                            assert(false);
                        }
                    }
                    return Err(ChessError::Parse);
                }
                i = i + 1;
            }
            rank = rank - 1;
        }
        proof {
            if hyp {
                assert(s@.subrange(i as int, n as int) =~= seq![' '] + (seq![
                    pw.side.spec_as_char(),
                    ' ',
                ] + cast + rest_ca));
                assert(s@.subrange(i as int, s@.len() as int) =~= seq![' '] + (seq![pw.side.spec_as_char(), ' '] + cast + rest_ca));
                lemma_suffix_step(
                    s@,
                    i as int,
                    ' ',
                    seq![pw.side.spec_as_char(), ' '] + cast + rest_ca,
                );
            }
        }
        if i >= n || s.get_char(i) != ' ' {
            proof {
                if hyp {
                    assert(false);
                }
            }
            return Err(ChessError::Parse);
        }
        i = i + 1;
        // Side to move.
        proof {
            if hyp {
                assert(seq![pw.side.spec_as_char(), ' '] + cast + rest_ca =~= seq![
                    pw.side.spec_as_char(),
                ] + (seq![' '] + cast + rest_ca));
                assert(s@.subrange(i as int, s@.len() as int) =~= seq![pw.side.spec_as_char()] + (seq![' '] + cast + rest_ca));
                lemma_suffix_step(
                    s@,
                    i as int,
                    pw.side.spec_as_char(),
                    seq![' '] + cast + rest_ca,
                );
            }
        }
        if i >= n {
            proof {
                if hyp {
                    assert(false);
                }
            }
            return Err(ChessError::Parse);
        }
        let side = match Color::from_char(s.get_char(i)) {
            Some(c) => c,
            None => {
                proof {
                    if hyp {
                        assert(false);
                    }
                }
                return Err(ChessError::Parse);
            },
        };
        proof {
            if hyp {
                assert(side == pw.side);
            }
        }
        i = i + 1;
        proof {
            if hyp {
                assert(s@.subrange(i as int, s@.len() as int) =~= seq![' '] + (cast + rest_ca));
                lemma_suffix_step(s@, i as int, ' ', cast + rest_ca);
            }
        }
        if i >= n || s.get_char(i) != ' ' {
            proof {
                if hyp {
                    assert(false);
                }
            }
            return Err(ChessError::Parse);
        }
        i = i + 1;
        proof {
            if hyp {
                assert(s@.subrange(i as int, n as int) =~= castle_chars(pw.castle) + (seq![' ']
                    + ep_chars(pw.ep) + (seq![' '] + dec_digits(pw.halfmove) + (seq![' ']
                    + dec_digits(pw.fullmove)))));
            }
        }
        let (i2, castle, ep) = match Board::parse_fen_fields(s, i, side, Ghost(hyp), Ghost(pw)) {
            Ok(t) => t,
            Err(e) => {
                return Err(e);
            },
        };
        i = i2;
        proof {
            if hyp {
                assert(mailbox_view(codes@) =~= pw.squares);
            }
        }
        Board::parse_fen_tail(s, i, codes, side, castle, ep, Ghost(hyp), Ghost(pw))
    }

    /// The middle of descriptor parsing: the castling and the
    /// en-passant fields, each followed by its separating space.
    #[verifier::rlimit(100)]
    #[verifier::spinoff_prover]
    fn parse_fen_fields(
        s: &str,
        i0: usize,
        side: Color,
        Ghost(hyp): Ghost<bool>,
        Ghost(pw): Ghost<Position>,
    ) -> (r: Result<(usize, u8, Option<Square>), ChessError>)
        requires
            i0 <= s@.len(),
            hyp == (exists|p: Position| pos_ok(p) && s@ == spec_render(p)),
            hyp ==> pos_ok(pw) && s@ == spec_render(pw) && side == pw.side,
            hyp ==> s@.subrange(i0 as int, s@.len() as int) == castle_chars(pw.castle) + (seq![' ']
                + ep_chars(pw.ep) + (seq![' '] + dec_digits(pw.halfmove) + (seq![' ']
                + dec_digits(pw.fullmove)))),
        ensures
            match r {
                Ok((i2, castle, ep)) => {
                    &&& i2 <= s@.len()
                    &&& castle < 16
                    &&& (match ep {
                        Some(e) => e.wf() && sq_rank(e.0 as int) == ep_rank_of(side),
                        None => true,
                    })
                    &&& (hyp ==> s@.subrange(i2 as int, s@.len() as int) == dec_digits(pw.halfmove)
                        + (seq![' '] + dec_digits(pw.fullmove)))
                    &&& (hyp ==> castle as int == pw.castle && (match ep {
                        Some(e) => pw.ep == Some(e.0 as int),
                        None => pw.ep is None,
                    }))
                },
                Err(e) => e == ChessError::Parse,
            },
            hyp ==> r is Ok,
    {
        let ghost cast = castle_chars(pw.castle);
        let ghost epc = ep_chars(pw.ep);
        let ghost dh = dec_digits(pw.halfmove);
        let ghost dfu = dec_digits(pw.fullmove);
        let ghost rest_sd = seq![' '] + dfu;
        let ghost rest_ep = seq![' '] + dh + rest_sd;
        let ghost rest_ca = seq![' '] + epc + rest_ep;
        let n = s.unicode_len();
        let mut i = i0;
        proof {
            if hyp {
                assert(s@.subrange(i as int, n as int) =~= cast + rest_ca);
            }
        }
        // Castling rights, in the canonical K, Q, k, q order.
        let castle = match Board::parse_fen_castle(s, &mut i, Ghost(hyp), Ghost(pw)) {
            Ok(c) => c,
            Err(e) => {
                return Err(e);
            },
        };
        proof {
            if hyp {
                assert(s@.subrange(i as int, n as int) =~= seq![' '] + (epc + rest_ep));
                assert(s@.subrange(i as int, s@.len() as int) =~= seq![' '] + (epc + rest_ep));
                lemma_suffix_step(s@, i as int, ' ', epc + rest_ep);
            }
        }
        if i >= n || s.get_char(i) != ' ' {
            proof {
                if hyp {
                    assert(false);
                }
            }
            return Err(ChessError::Parse);
        }
        i = i + 1;
        // En-passant target.
        let ep: Option<Square>;
        if i < n && s.get_char(i) == '-' {
            proof {
                if hyp {
                    if pw.ep is Some {
                        let e = pw.ep.unwrap();
                        Square(e as u8).lemma_algebraic_round_trip();
                        assert(epc =~= seq![Square(e as u8).spec_file_char()] + seq![
                            Square(e as u8).spec_rank_char(),
                        ]);
                        assert(s@.subrange(i as int, s@.len() as int) =~= seq![Square(e as u8).spec_file_char()] + (seq![Square(e as u8).spec_rank_char()] + rest_ep));
                        lemma_suffix_step(
                            s@,
                            i as int,
                            Square(e as u8).spec_file_char(),
                            seq![Square(e as u8).spec_rank_char()] + rest_ep,
                        );
                        assert(false);
                    }
                    assert(epc =~= seq!['-']);
                    assert(s@.subrange(i as int, s@.len() as int) =~= seq!['-'] + (rest_ep));
                    lemma_suffix_step(s@, i as int, '-', rest_ep);
                }
            }
            ep = None;
            i = i + 1;
        } else {
            proof {
                if hyp {
                    if pw.ep is None {
                        assert(epc =~= seq!['-']);
                        assert(s@.subrange(i as int, s@.len() as int) =~= seq!['-'] + (rest_ep));
                        lemma_suffix_step(s@, i as int, '-', rest_ep);
                        assert(false);
                    }
                    let e = pw.ep.unwrap();
                    assert(epc =~= seq![Square(e as u8).spec_file_char()] + seq![
                        Square(e as u8).spec_rank_char(),
                    ]);
                    assert(s@.subrange(i as int, s@.len() as int) =~= seq![Square(e as u8).spec_file_char()] + (seq![Square(e as u8).spec_rank_char()] + rest_ep));
                    lemma_suffix_step(
                        s@,
                        i as int,
                        Square(e as u8).spec_file_char(),
                        seq![Square(e as u8).spec_rank_char()] + rest_ep,
                    );
                }
            }
            if i >= n || n - i < 2 {
                proof {
                    if hyp {
                        assert(false);
                    }
                }
                return Err(ChessError::Parse);
            }
            let f = match Square::file_of_char(s.get_char(i)) {
                Some(f) => f,
                None => {
                    proof {
                        if hyp {
                            let e = pw.ep.unwrap();
                            Square(e as u8).lemma_algebraic_round_trip();
                            assert(false);
                        }
                    }
                    return Err(ChessError::Parse);
                },
            };
            proof {
                if hyp {
                    let e = pw.ep.unwrap();
                    assert(s@.subrange(i as int + 1, s@.len() as int) =~= seq![Square(e as u8).spec_rank_char()] + (rest_ep));
                    lemma_suffix_step(
                        s@,
                        i as int + 1,
                        Square(e as u8).spec_rank_char(),
                        rest_ep,
                    );
                }
            }
            let k = match Square::rank_of_char(s.get_char(i + 1)) {
                Some(k) => k,
                None => {
                    proof {
                        if hyp {
                            let e = pw.ep.unwrap();
                            Square(e as u8).lemma_algebraic_round_trip();
                            assert(false);
                        }
                    }
                    return Err(ChessError::Parse);
                },
            };
            i = i + 2;
            let e = Square::at(f, k);
            let want: u8 = match side {
                Color::White => 5,
                Color::Black => 2,
            };
            proof {
                if hyp {
                    let ew = pw.ep.unwrap();
                    Square(ew as u8).lemma_algebraic_round_trip();
                    assert(e == Square(ew as u8));
                    assert(sq_rank(ew) == ep_rank_of(pw.side));
                }
            }
            if k != want {
                proof {
                    if hyp {
                        assert(false);
                    }
                }
                return Err(ChessError::Parse);
            }
            ep = Some(e);
        }
        proof {
            if hyp {
                assert(s@.subrange(i as int, n as int) =~= seq![' '] + (dh + rest_sd));
                assert(s@.subrange(i as int, s@.len() as int) =~= seq![' '] + (dh + rest_sd));
                lemma_suffix_step(s@, i as int, ' ', dh + rest_sd);
            }
        }
        if i >= n || s.get_char(i) != ' ' {
            proof {
                if hyp {
                    assert(false);
                }
            }
            return Err(ChessError::Parse);
        }
        i = i + 1;
        proof {
            if hyp {
                assert(s@.subrange(i as int, n as int) =~= dh + (seq![' '] + dfu));
            }
        }
        Ok((i, castle, ep))
    }


    /// The castling field of a descriptor, read in the canonical
    /// K, Q, k, q order.
    #[verifier::rlimit(100)]
    #[verifier::spinoff_prover]
    fn parse_fen_castle(s: &str, i: &mut usize, Ghost(hyp): Ghost<bool>, Ghost(pw): Ghost<
        Position,
    >) -> (r: Result<u8, ChessError>)
        requires
            *old(i) <= s@.len(),
            hyp == (exists|p: Position| pos_ok(p) && s@ == spec_render(p)),
            hyp ==> pos_ok(pw) && s@ == spec_render(pw),
            hyp ==> s@.subrange(*old(i) as int, s@.len() as int) == castle_chars(pw.castle) + (
            seq![' '] + ep_chars(pw.ep) + (seq![' '] + dec_digits(pw.halfmove) + (seq![' ']
                + dec_digits(pw.fullmove)))),
        ensures
            *final(i) <= s@.len(),
            match r {
                Ok(castle) => {
                    &&& castle < 16
                    &&& (hyp ==> castle as int == pw.castle)
                    &&& (hyp ==> s@.subrange(*final(i) as int, s@.len() as int) == seq![' ']
                        + ep_chars(pw.ep) + (seq![' '] + dec_digits(pw.halfmove) + (seq![' ']
                        + dec_digits(pw.fullmove))))
                },
                Err(e) => e == ChessError::Parse,
            },
            hyp ==> r is Ok,
    {
        let ghost cast = castle_chars(pw.castle);
        let ghost rest_ca = seq![' '] + ep_chars(pw.ep) + (seq![' '] + dec_digits(pw.halfmove) + (
        seq![' '] + dec_digits(pw.fullmove)));
        let n = s.unicode_len();
        proof {
            if hyp {
                assert(s@.subrange(*i as int, n as int) =~= cast + rest_ca);
            }
        }
        let ghost ck: Seq<char> = if has_right(pw.castle, 1) {
            seq!['K']
        } else {
            Seq::empty()
        };
        let ghost cq: Seq<char> = if has_right(pw.castle, 2) {
            seq!['Q']
        } else {
            Seq::empty()
        };
        let ghost cbk: Seq<char> = if has_right(pw.castle, 4) {
            seq!['k']
        } else {
            Seq::empty()
        };
        let ghost cbq: Seq<char> = if has_right(pw.castle, 8) {
            seq!['q']
        } else {
            Seq::empty()
        };
        let mut castle: u8 = 0;
        if *i < n && s.get_char(*i) == '-' {
            proof {
                if hyp {
                    if pw.castle != 0 {
                        assert(cast =~= ck + cq + cbk + cbq);
                        lemma_castle_bits(pw.castle);
                        assert(s@.subrange(*i as int, n as int)[0] == '-');
                        assert(false);
                    }
                    assert(cast =~= seq!['-']);
                    assert(s@.subrange(*i as int, s@.len() as int) =~= seq!['-'] + (rest_ca));
                    lemma_suffix_step(s@, *i as int, '-', rest_ca);
                }
            }
            *i = *i + 1;
        } else {
            proof {
                if hyp {
                    if pw.castle == 0 {
                        assert(cast =~= seq!['-']);
                        assert(s@.subrange(*i as int, s@.len() as int) =~= seq!['-'] + (rest_ca));
                        lemma_suffix_step(s@, *i as int, '-', rest_ca);
                        assert(false);
                    }
                    assert(cast =~= ck + cq + cbk + cbq);
                    lemma_castle_bits(pw.castle);
                }
            }
            if *i < n && s.get_char(*i) == 'K' {
                proof {
                    if hyp {
                        if !has_right(pw.castle, 1) {
                            assert(s@.subrange(*i as int, n as int) =~= cq + cbk + cbq + rest_ca);
                            assert(s@.subrange(*i as int, n as int)[0] != 'K');
                            assert(false);
                        }
                        assert(s@.subrange(*i as int, s@.len() as int) =~= seq!['K'] + (cq + cbk + cbq + rest_ca));
                        lemma_suffix_step(s@, *i as int, 'K', cq + cbk + cbq + rest_ca);
                    }
                }
                castle = castle + 1;
                *i = *i + 1;
            } else {
                proof {
                    if hyp && has_right(pw.castle, 1) {
                        assert(s@.subrange(*i as int, s@.len() as int) =~= seq!['K'] + (cq + cbk + cbq + rest_ca));
                        lemma_suffix_step(s@, *i as int, 'K', cq + cbk + cbq + rest_ca);
                        assert(false);
                    }
                }
            }
            proof {
                if hyp {
                    assert(s@.subrange(*i as int, n as int) =~= cq + cbk + cbq + rest_ca);
                }
            }
            if *i < n && s.get_char(*i) == 'Q' {
                proof {
                    if hyp {
                        if !has_right(pw.castle, 2) {
                            assert(s@.subrange(*i as int, n as int) =~= cbk + cbq + rest_ca);
                            assert(s@.subrange(*i as int, n as int)[0] != 'Q');
                            assert(false);
                        }
                        assert(s@.subrange(*i as int, s@.len() as int) =~= seq!['Q'] + (cbk + cbq + rest_ca));
                        lemma_suffix_step(s@, *i as int, 'Q', cbk + cbq + rest_ca);
                    }
                }
                castle = castle + 2;
                *i = *i + 1;
            } else {
                proof {
                    if hyp && has_right(pw.castle, 2) {
                        assert(s@.subrange(*i as int, s@.len() as int) =~= seq!['Q'] + (cbk + cbq + rest_ca));
                        lemma_suffix_step(s@, *i as int, 'Q', cbk + cbq + rest_ca);
                        assert(false);
                    }
                }
            }
            proof {
                if hyp {
                    assert(s@.subrange(*i as int, n as int) =~= cbk + cbq + rest_ca);
                }
            }
            if *i < n && s.get_char(*i) == 'k' {
                proof {
                    if hyp {
                        if !has_right(pw.castle, 4) {
                            assert(s@.subrange(*i as int, n as int) =~= cbq + rest_ca);
                            assert(s@.subrange(*i as int, n as int)[0] != 'k');
                            assert(false);
                        }
                        assert(s@.subrange(*i as int, s@.len() as int) =~= seq!['k'] + (cbq + rest_ca));
                        lemma_suffix_step(s@, *i as int, 'k', cbq + rest_ca);
                    }
                }
                castle = castle + 4;
                *i = *i + 1;
            } else {
                proof {
                    if hyp && has_right(pw.castle, 4) {
                        assert(s@.subrange(*i as int, s@.len() as int) =~= seq!['k'] + (cbq + rest_ca));
                        lemma_suffix_step(s@, *i as int, 'k', cbq + rest_ca);
                        assert(false);
                    }
                }
            }
            proof {
                if hyp {
                    assert(s@.subrange(*i as int, n as int) =~= cbq + rest_ca);
                }
            }
            if *i < n && s.get_char(*i) == 'q' {
                proof {
                    if hyp {
                        if !has_right(pw.castle, 8) {
                            assert(s@.subrange(*i as int, n as int) =~= rest_ca);
                            assert(s@.subrange(*i as int, n as int)[0] != 'q');
                            assert(false);
                        }
                        assert(s@.subrange(*i as int, s@.len() as int) =~= seq!['q'] + (rest_ca));
                        lemma_suffix_step(s@, *i as int, 'q', rest_ca);
                    }
                }
                castle = castle + 8;
                *i = *i + 1;
            } else {
                proof {
                    if hyp && has_right(pw.castle, 8) {
                        assert(s@.subrange(*i as int, s@.len() as int) =~= seq!['q'] + (rest_ca));
                        lemma_suffix_step(s@, *i as int, 'q', rest_ca);
                        assert(false);
                    }
                }
            }
            if castle == 0 {
                proof {
                    if hyp {
                        assert(false);
                    }
                }
                return Err(ChessError::Parse);
            }
        }
        proof {
            if hyp {
                assert(castle as int == pw.castle);
                assert(s@.subrange(*i as int, n as int) =~= rest_ca);
            }
        }
        Ok(castle)
    }

    /// The tail of descriptor parsing: the two clocks, the board
    /// construction and the re-rendering check.
    #[verifier::rlimit(100)]
    #[verifier::spinoff_prover]
    fn parse_fen_tail(
        s: &str,
        i0: usize,
        codes: Vec<u8>,
        side: Color,
        castle: u8,
        ep: Option<Square>,
        Ghost(hyp): Ghost<bool>,
        Ghost(pw): Ghost<Position>,
    ) -> (r: Result<Board, ChessError>)
        requires
            i0 <= s@.len(),
            mailbox_ok(codes@),
            castle < 16,
            match ep {
                Some(e) => e.wf() && sq_rank(e.0 as int) == ep_rank_of(side),
                None => true,
            },
            hyp == (exists|p: Position| pos_ok(p) && s@ == spec_render(p)),
            hyp ==> pos_ok(pw) && s@ == spec_render(pw),
            hyp ==> s@.subrange(i0 as int, s@.len() as int) == dec_digits(pw.halfmove) + (seq![' ']
                + dec_digits(pw.fullmove)),
            hyp ==> mailbox_view(codes@) == pw.squares,
            hyp ==> side == pw.side && castle as int == pw.castle && (match ep {
                Some(e) => pw.ep == Some(e.0 as int),
                None => pw.ep is None,
            }),
        ensures
            match r {
                Ok(b) => {
                    &&& b.wf()
                    &&& b.history@.len() == 0
                    &&& s@ == spec_render(b@)
                },
                Err(e) => e == ChessError::Parse,
            },
            hyp ==> r is Ok,
    {
        let ghost sqw = pw.squares;
        let ghost dh = dec_digits(pw.halfmove);
        let ghost dfu = dec_digits(pw.fullmove);
        let ghost rest_sd = seq![' '] + dfu;
        let n = s.unicode_len();
        let mut i = i0;
        proof {
            if hyp {
                assert(s@.subrange(i as int, n as int) =~= dh + rest_sd);
            }
        }
        // Half-move clock.
        proof {
            if hyp {
                lemma_dec_digits_props(pw.halfmove);
                lemma_dec_len5(pw.halfmove);
                lemma_dec_digits_props(pw.fullmove);
                lemma_dec_len5(pw.fullmove);
                assert(dh.subrange(0, dh.len() as int) =~= dh);
                assert(dh.subrange(0, 0) =~= Seq::<char>::empty());
            }
        }
        let mut acc: u64 = 0;
        let mut digits: u8 = 0;
        while i < n && s.get_char(i) != ' '
            invariant
                n == s@.len(),
                i <= n,
                digits <= 6,
                acc < pow10(digits as nat),
                hyp == (exists|p: Position| pos_ok(p) && s@ == spec_render(p)),
                hyp ==> dh == dec_digits(pw.halfmove) && dh.len() <= 5 && dec_val(dh)
                    == pw.halfmove && pos_ok(pw) && rest_sd == seq![' '] + dfu && dfu
                    == dec_digits(pw.fullmove),
                hyp ==> forall|idx: int|
                    0 <= idx < dh.len() ==> (#[trigger] spec_digit_val(dh[idx])) is Some,
                hyp ==> digits <= dh.len() && acc == dec_val(dh.subrange(0, digits as int))
                    && s@.subrange(i as int, n as int) == dh.subrange(digits as int, dh.len() as int)
                    + rest_sd,
            decreases n - i,
        {
            proof {
                if hyp {
                    if digits as int == dh.len() {
                        assert(dh.subrange(digits as int, dh.len() as int)
                            =~= Seq::<char>::empty());
                        assert(s@.subrange(i as int, s@.len() as int) =~= seq![' '] + (dfu));
                        lemma_suffix_step(s@, i as int, ' ', dfu);
                        assert(false);
                    }
                    assert(dh.subrange(digits as int, dh.len() as int) =~= seq![
                        dh[digits as int],
                    ] + dh.subrange(digits as int + 1, dh.len() as int));
                    assert(s@.subrange(i as int, s@.len() as int) =~= seq![dh[digits as int]] + (dh.subrange(digits as int + 1, dh.len() as int) + rest_sd));
                    lemma_suffix_step(
                        s@,
                        i as int,
                        dh[digits as int],
                        dh.subrange(digits as int + 1, dh.len() as int) + rest_sd,
                    );
                }
            }
            let d = match digit_val(s.get_char(i)) {
                Some(d) => d,
                None => {
                    proof {
                        if hyp {
                            assert(spec_digit_val(dh[digits as int]) is Some);
                            assert(false);
                        }
                    }
                    return Err(ChessError::Parse);
                },
            };
            if digits >= 6 {
                proof {
                    if hyp {
                        assert(false);
                    }
                }
                return Err(ChessError::Parse);
            }
            proof {
                lemma_pow10_le6(digits as nat);
                lemma_pow10_le6((digits + 1) as nat);
                assert(pow10((digits + 1) as nat) == 10 * pow10(digits as nat));
                if hyp {
                    assert(dh.subrange(0, digits as int + 1) =~= dh.subrange(
                        0,
                        digits as int,
                    ).push(dh[digits as int]));
                    lemma_dec_val_push(dh.subrange(0, digits as int), dh[digits as int]);
                }
            }
            acc = acc * 10 + (d as u64);
            digits = digits + 1;
            i = i + 1;
        }
        if digits == 0 {
            proof {
                if hyp {
                    assert(dh.subrange(0, dh.len() as int) =~= dh);
                    assert(false);
                }
            }
            return Err(ChessError::Parse);
        }
        proof {
            if hyp {
                if (digits as int) < dh.len() {
                    assert(dh.subrange(digits as int, dh.len() as int) =~= seq![
                        dh[digits as int],
                    ] + dh.subrange(digits as int + 1, dh.len() as int));
                    assert(s@.subrange(i as int, s@.len() as int) =~= seq![dh[digits as int]] + (dh.subrange(digits as int + 1, dh.len() as int) + rest_sd));
                    lemma_suffix_step(
                        s@,
                        i as int,
                        dh[digits as int],
                        dh.subrange(digits as int + 1, dh.len() as int) + rest_sd,
                    );
                    assert(spec_digit_val(dh[digits as int]) is Some);
                    assert(false);
                }
                assert(dh.subrange(0, digits as int) =~= dh);
                assert(acc == pw.halfmove);
                assert(dh.subrange(digits as int, dh.len() as int) =~= Seq::<char>::empty());
                assert(s@.subrange(i as int, n as int) =~= seq![' '] + dfu);
                assert(s@.subrange(i as int, s@.len() as int) =~= seq![' '] + (dfu));
                lemma_suffix_step(s@, i as int, ' ', dfu);
            }
        }
        if acc > 65535 {
            proof {
                if hyp {
                    assert(false);
                }
            }
            return Err(ChessError::Parse);
        }
        let halfmove: u16 = acc as u16;
        if i >= n || s.get_char(i) != ' ' {
            proof {
                if hyp {
                    assert(false);
                }
            }
            return Err(ChessError::Parse);
        }
        i = i + 1;
        // Full-move counter.
        proof {
            if hyp {
                assert(dfu.subrange(0, dfu.len() as int) =~= dfu);
                assert(dfu.subrange(0, 0) =~= Seq::<char>::empty());
            }
        }
        acc = 0;
        digits = 0;
        while i < n
            invariant
                n == s@.len(),
                i <= n,
                digits <= 6,
                acc < pow10(digits as nat),
                hyp == (exists|p: Position| pos_ok(p) && s@ == spec_render(p)),
                hyp ==> dfu == dec_digits(pw.fullmove) && dfu.len() <= 5 && dec_val(dfu)
                    == pw.fullmove && pos_ok(pw),
                hyp ==> forall|idx: int|
                    0 <= idx < dfu.len() ==> (#[trigger] spec_digit_val(dfu[idx])) is Some,
                hyp ==> digits <= dfu.len() && acc == dec_val(dfu.subrange(0, digits as int))
                    && s@.subrange(i as int, n as int) == dfu.subrange(
                    digits as int,
                    dfu.len() as int,
                ),
            decreases n - i,
        {
            proof {
                if hyp {
                    if digits as int == dfu.len() {
                        assert(dfu.subrange(digits as int, dfu.len() as int)
                            =~= Seq::<char>::empty());
                        assert(n - i == 0);
                        assert(false);
                    }
                    assert(dfu.subrange(digits as int, dfu.len() as int) =~= seq![
                        dfu[digits as int],
                    ] + dfu.subrange(digits as int + 1, dfu.len() as int));
                    assert(s@.subrange(i as int, s@.len() as int) =~= seq![dfu[digits as int]] + (dfu.subrange(digits as int + 1, dfu.len() as int)));
                    lemma_suffix_step(
                        s@,
                        i as int,
                        dfu[digits as int],
                        dfu.subrange(digits as int + 1, dfu.len() as int),
                    );
                }
            }
            let d = match digit_val(s.get_char(i)) {
                Some(d) => d,
                None => {
                    proof {
                        if hyp {
                            assert(spec_digit_val(dfu[digits as int]) is Some);
                            assert(false);
                        }
                    }
                    return Err(ChessError::Parse);
                },
            };
            if digits >= 6 {
                proof {
                    if hyp {
                        assert(false);
                    }
                }
                return Err(ChessError::Parse);
            }
            proof {
                lemma_pow10_le6(digits as nat);
                lemma_pow10_le6((digits + 1) as nat);
                assert(pow10((digits + 1) as nat) == 10 * pow10(digits as nat));
                if hyp {
                    assert(dfu.subrange(0, digits as int + 1) =~= dfu.subrange(
                        0,
                        digits as int,
                    ).push(dfu[digits as int]));
                    lemma_dec_val_push(dfu.subrange(0, digits as int), dfu[digits as int]);
                }
            }
            acc = acc * 10 + (d as u64);
            digits = digits + 1;
            i = i + 1;
        }
        proof {
            if hyp {
                if (digits as int) < dfu.len() {
                    assert(dfu.subrange(digits as int, dfu.len() as int) =~= seq![
                        dfu[digits as int],
                    ] + dfu.subrange(digits as int + 1, dfu.len() as int));
                    assert(n - i >= 1);
                    assert(false);
                }
                assert(dfu.subrange(0, digits as int) =~= dfu);
                assert(acc == pw.fullmove);
            }
        }
        if digits == 0 || acc < 1 || acc > 65535 {
            proof {
                if hyp {
                    assert(dfu.subrange(0, dfu.len() as int) =~= dfu);
                    assert(false);
                }
            }
            return Err(ChessError::Parse);
        }
        let fullmove: u16 = acc as u16;
        proof {
            if hyp {
                assert(mailbox_view(codes@) =~= sqw);
                assert(match ep {
                    Some(e) => e.wf() && sq_rank(e.0 as int) == ep_rank_of(side),
                    None => true,
                });
            }
        }
        let b = match Board::from_parts(&codes, side, castle, ep, halfmove, fullmove) {
            Some(b) => b,
            None => {
                proof {
                    if hyp {
                        assert(false);
                    }
                }
                return Err(ChessError::Parse);
            },
        };
        proof {
            if hyp {
                assert(b@ =~= pw);
            }
        }
        // The descriptor is accepted exactly when it is the
        // canonical rendering of the position it describes.
        let rendered = b.render_fen();
        if chars_eq(rendered.as_str(), s) {
            Ok(b)
        } else {
            proof {
                if hyp {
                    assert(rendered@ == spec_render(pw));
                    assert(false);
                }
            }
            Err(ChessError::Parse)
        }
    }
}

/// The promotion piece a move carries, if any.
pub open spec fn spec_promo_of(m: Move) -> Option<Piece> {
    match m {
        Move::Promote { promote, .. } => Some(promote),
        Move::PromoteCapture { promote, .. } => Some(promote),
        _ => None,
    }
}

/// The pure coordinate notation of a move: from square, to square,
/// and the promotion letter if the move promotes. Castling is
/// encoded by the king's two-square move.
pub open spec fn spec_move_coords(m: Move, side: Color) -> Seq<char> {
    let from = m.spec_from(side);
    let to = m.spec_to(side);
    let base = seq![
        from.spec_file_char(),
        from.spec_rank_char(),
        to.spec_file_char(),
        to.spec_rank_char(),
    ];
    match spec_promo_of(m) {
        Some(p) => base.push(p.spec_as_char(Color::Black)),
        None => base,
    }
}

/// The squares a pseudo-legal move names lie on the board.
pub proof fn lemma_pseudo_squares_wf(p: Position, m: Move)
    requires
        crate::movegen::spec_pseudo_legal(p, m),
    ensures
        m.spec_from(p.side).wf(),
        m.spec_to(p.side).wf(),
        !(m is Null),
{
}

/// Renders a move of the given side in pure coordinate notation.
pub fn render_move(m: Move, side: Color) -> (r: String)
    requires
        m.wf() || (m is KingCastle || m is QueenCastle),
    ensures
        r@ == spec_move_coords(m, side),
{
    let mut out = String::new();
    let from = m.from(side);
    let to = m.to(side);
    append_square(&mut out, from);
    append_square(&mut out, to);
    match m {
        Move::Promote { promote, .. } => append_piece(&mut out, Color::Black, promote),
        Move::PromoteCapture { promote, .. } => append_piece(&mut out, Color::Black, promote),
        _ => {},
    }
    proof {
        assert(out@ =~= spec_move_coords(m, side));
    }
    out
}


/// Coordinate notation is unambiguous: two pseudo-legal moves with
/// the same coordinates are the same move.
pub proof fn lemma_coords_unique(p: Position, m1: Move, m2: Move)
    requires
        crate::movegen::spec_pseudo_legal(p, m1),
        crate::movegen::spec_pseudo_legal(p, m2),
        spec_move_coords(m1, p.side) == spec_move_coords(m2, p.side),
    ensures
        m1 == m2,
{
    let side = p.side;
    lemma_pseudo_squares_wf(p, m1);
    lemma_pseudo_squares_wf(p, m2);
    let f1 = m1.spec_from(side);
    let f2 = m2.spec_from(side);
    let t1 = m1.spec_to(side);
    let t2 = m2.spec_to(side);
    let c1 = spec_move_coords(m1, side);
    let c2 = spec_move_coords(m2, side);
    f1.lemma_algebraic_round_trip();
    f2.lemma_algebraic_round_trip();
    t1.lemma_algebraic_round_trip();
    t2.lemma_algebraic_round_trip();
    assert(c1[0] == c2[0] && c1[1] == c2[1] && c1[2] == c2[2] && c1[3] == c2[3]);
    assert(f1 == f2) by {
        assert(f1.spec_file_char() == f2.spec_file_char());
        assert(f1.spec_rank_char() == f2.spec_rank_char());
        assert(Square::spec_at(f1.spec_file(), f1.spec_rank()) == f1);
        assert(Square::spec_at(f2.spec_file(), f2.spec_rank()) == f2);
    }
    assert(t1 == t2) by {
        assert(t1.spec_file_char() == t2.spec_file_char());
        assert(t1.spec_rank_char() == t2.spec_rank_char());
    }
    assert(spec_promo_of(m1) == spec_promo_of(m2)) by {
        if spec_promo_of(m1) is Some && spec_promo_of(m2) is Some {
            let p1 = spec_promo_of(m1).unwrap();
            let p2 = spec_promo_of(m2).unwrap();
            assert(c1[4] == c2[4]);
            crate::piece::lemma_piece_char_round_trip(Color::Black, p1);
            crate::piece::lemma_piece_char_round_trip(Color::Black, p2);
        } else if spec_promo_of(m1) is Some {
            assert(c1.len() == 5 && c2.len() == 4);
        } else if spec_promo_of(m2) is Some {
            assert(c1.len() == 4 && c2.len() == 5);
        }
    }
    assert(m1 == m2);
}

impl Board {
    /// Parses pure coordinate notation and returns a pseudo-legal
    /// move matching that coordinate pair: `Parse` when the literal
    /// is malformed, `IllegalMove` when no pseudo-legal move
    /// matches. When some pseudo-legal move matches the literal,
    /// one is returned.
    pub fn parse_move(&self, s: &str) -> (r: Result<Move, ChessError>)
        requires
            self.wf(),
        ensures
            match r {
                Ok(m) => crate::movegen::spec_pseudo_legal(self@, m) && s@ == spec_move_coords(
                    m,
                    self@.side,
                ) && (forall|m2: Move|
                    crate::movegen::spec_pseudo_legal(self@, m2) && s@ == spec_move_coords(
                        m2,
                        self@.side,
                    ) ==> m2 == m),
                Err(e) => e == ChessError::Parse || e == ChessError::IllegalMove,
            },
            (exists|m: Move|
                #[trigger] crate::movegen::spec_pseudo_legal(self@, m) && s@ == spec_move_coords(
                    m,
                    self@.side,
                )) ==> r is Ok,
    {
        let ghost p = self@;
        let side = self.side;
        let n = s.unicode_len();
        if n < 4 || n > 5 {
            proof {
                assert forall|m: Move|
                    !(#[trigger] crate::movegen::spec_pseudo_legal(p, m) && s@ == spec_move_coords(
                        m,
                        side,
                    )) by {}
            }
            return Err(ChessError::Parse);
        }
        let ff = match Square::file_of_char(s.get_char(0)) {
            Some(f) => f,
            None => {
                return Err(ChessError::Parse);
            },
        };
        let fr = match Square::rank_of_char(s.get_char(1)) {
            Some(k) => k,
            None => {
                return Err(ChessError::Parse);
            },
        };
        let tf = match Square::file_of_char(s.get_char(2)) {
            Some(f) => f,
            None => {
                return Err(ChessError::Parse);
            },
        };
        let tr = match Square::rank_of_char(s.get_char(3)) {
            Some(k) => k,
            None => {
                return Err(ChessError::Parse);
            },
        };
        let promo: Option<Piece> = if n == 5 {
            match s.get_char(4) {
                'q' => Some(Piece::Queen),
                'r' => Some(Piece::Rook),
                'b' => Some(Piece::Bishop),
                'n' => Some(Piece::Knight),
                _ => {
                    return Err(ChessError::Parse);
                },
            }
        } else {
            None
        };
        let from = Square::at(ff, fr);
        let to = Square::at(tf, tr);
        let mut buffer: Vec<Move> = Vec::new();
        let (_a, _b) = self.generate_moves(&mut buffer);
        let mut i: usize = 0;
        let cnt = buffer.len();
        while i < cnt
            invariant
                self.wf(),
                p == self@,
                side == p.side,
                cnt == buffer@.len(),
                i <= cnt,
                n == s@.len(),
                4 <= n <= 5,
                s@[0] == from.spec_file_char(),
                s@[1] == from.spec_rank_char(),
                s@[2] == to.spec_file_char(),
                s@[3] == to.spec_rank_char(),
                from.wf(),
                to.wf(),
                match promo {
                    Some(pp) => n == 5 && s@[4] == pp.spec_as_char(Color::Black),
                    None => n == 4,
                },
                forall|k: int| 0 <= k < cnt ==> crate::movegen::spec_pseudo_legal(
                    p,
                    #[trigger] buffer@[k],
                ),
                forall|m: Move|
                    crate::movegen::spec_pseudo_legal(p, m) ==> exists|k: int|
                        0 <= k < cnt && buffer@[k] == m,
                forall|k: int|
                    0 <= k < i ==> !(s@ == spec_move_coords(#[trigger] buffer@[k], side)),
            decreases cnt - i,
        {
            let m2 = buffer[i];
            proof {
                lemma_pseudo_squares_wf(p, m2);
            }
            let mf = m2.from(side);
            let mt = m2.to(side);
            let mp: Option<Piece> = match m2 {
                Move::Promote { promote, .. } => Some(promote),
                Move::PromoteCapture { promote, .. } => Some(promote),
                _ => None,
            };
            let promo_match: bool = match (mp, promo) {
                (Some(a1), Some(b1)) => a1 == b1,
                (None, None) => true,
                _ => false,
            };
            if mf.0 == from.0 && mt.0 == to.0 && promo_match {
                proof {
                    assert(s@ =~= spec_move_coords(m2, side));
                    assert forall|m3: Move|
                        crate::movegen::spec_pseudo_legal(p, m3) && s@ == spec_move_coords(
                            m3,
                            side,
                        ) implies m3 == m2 by {
                        lemma_coords_unique(p, m2, m3);
                    }
                }
                return Ok(m2);
            }
            proof {
                assert(!(s@ == spec_move_coords(m2, side))) by {
                    if s@ == spec_move_coords(m2, side) {
                        assert(s@[0] == mf.spec_file_char() && s@[1] == mf.spec_rank_char());
                        assert(s@[2] == mt.spec_file_char() && s@[3] == mt.spec_rank_char());
                        mf.lemma_algebraic_round_trip();
                        mt.lemma_algebraic_round_trip();
                        from.lemma_algebraic_round_trip();
                        to.lemma_algebraic_round_trip();
                        assert(mf == from && mt == to);
                    }
                }
            }
            i = i + 1;
        }
        proof {
            assert forall|m: Move|
                !(#[trigger] crate::movegen::spec_pseudo_legal(p, m) && s@ == spec_move_coords(
                    m,
                    side,
                )) by {
                if crate::movegen::spec_pseudo_legal(p, m) {
                    let k = choose|k: int| 0 <= k < cnt && buffer@[k] == m;
                }
            }
        }
        Err(ChessError::IllegalMove)
    }
}

} // verus!
