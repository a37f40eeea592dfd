//! Board squares, dense indices 0..63 in file-major order A1 = 0,
//! H8 = 63.

use vstd::prelude::*;

verus! {

/// One of the 64 board cells. The index is `rank * 8 + file`.
#[derive(Clone, Copy, PartialEq, Eq, Structural, Debug)]
pub struct Square(pub u8);

impl Square {
    /// A square is meaningful only with an index below 64.
    pub open spec fn wf(self) -> bool {
        self.0 < 64
    }

    /// The file of the square, 0 for a .. 7 for h.
    pub open spec fn spec_file(self) -> int {
        self.0 as int % 8
    }

    /// The rank of the square, 0 for rank 1 .. 7 for rank 8.
    pub open spec fn spec_rank(self) -> int {
        self.0 as int / 8
    }

    /// The square of a file and a rank.
    pub open spec fn spec_at(file: int, rank: int) -> Square {
        Square((rank * 8 + file) as u8)
    }

    /// The square at the given file and rank.
    pub fn at(file: u8, rank: u8) -> (r: Square)
        requires
            file < 8,
            rank < 8,
        ensures
            r == Square::spec_at(file as int, rank as int),
            r.wf(),
            r.spec_file() == file,
            r.spec_rank() == rank,
    {
        Square(rank * 8 + file)
    }

    /// The file of the square.
    pub fn file(self) -> (r: u8)
        ensures
            r == self.spec_file(),
            r < 8,
    {
        self.0 % 8
    }

    /// The rank of the square.
    pub fn rank(self) -> (r: u8)
        requires
            self.wf(),
        ensures
            r == self.spec_rank(),
            r < 8,
    {
        self.0 / 8
    }

    /// The vertically reflected square, 63 - index.
    pub fn mirror(self) -> (r: Square)
        requires
            self.wf(),
        ensures
            r.0 == 63 - self.0,
            r.wf(),
    {
        Square(63 - self.0)
    }

    /// The file letter of the square, a .. h.
    pub open spec fn spec_file_char(self) -> char {
        let f = self.spec_file();
        if f == 0 {
            'a'
        } else if f == 1 {
            'b'
        } else if f == 2 {
            'c'
        } else if f == 3 {
            'd'
        } else if f == 4 {
            'e'
        } else if f == 5 {
            'f'
        } else if f == 6 {
            'g'
        } else {
            'h'
        }
    }

    /// The rank digit of the square, 1 .. 8.
    pub open spec fn spec_rank_char(self) -> char {
        let r = self.spec_rank();
        if r == 0 {
            '1'
        } else if r == 1 {
            '2'
        } else if r == 2 {
            '3'
        } else if r == 3 {
            '4'
        } else if r == 4 {
            '5'
        } else if r == 5 {
            '6'
        } else if r == 6 {
            '7'
        } else {
            '8'
        }
    }

    /// The file letter of the square.
    #[verifier::when_used_as_spec(spec_file_char)]
    pub fn file_char(self) -> (r: char)
        ensures
            r == self.spec_file_char(),
    {
        match self.file() {
            0 => 'a',
            1 => 'b',
            2 => 'c',
            3 => 'd',
            4 => 'e',
            5 => 'f',
            6 => 'g',
            _ => 'h',
        }
    }

    /// The rank digit of the square.
    #[verifier::when_used_as_spec(spec_rank_char)]
    pub fn rank_char(self) -> (r: char)
        requires
            self.wf(),
        ensures
            r == self.spec_rank_char(),
    {
        match self.rank() {
            0 => '1',
            1 => '2',
            2 => '3',
            3 => '4',
            4 => '5',
            5 => '6',
            6 => '7',
            _ => '8',
        }
    }

    /// The file a letter names, if it is one of a .. h.
    pub open spec fn spec_file_of_char(c: char) -> Option<int> {
        if c == 'a' {
            Some(0int)
        } else if c == 'b' {
            Some(1int)
        } else if c == 'c' {
            Some(2int)
        } else if c == 'd' {
            Some(3int)
        } else if c == 'e' {
            Some(4int)
        } else if c == 'f' {
            Some(5int)
        } else if c == 'g' {
            Some(6int)
        } else if c == 'h' {
            Some(7int)
        } else {
            None
        }
    }

    /// The rank a digit names, if it is one of 1 .. 8.
    pub open spec fn spec_rank_of_char(c: char) -> Option<int> {
        if c == '1' {
            Some(0int)
        } else if c == '2' {
            Some(1int)
        } else if c == '3' {
            Some(2int)
        } else if c == '4' {
            Some(3int)
        } else if c == '5' {
            Some(4int)
        } else if c == '6' {
            Some(5int)
        } else if c == '7' {
            Some(6int)
        } else if c == '8' {
            Some(7int)
        } else {
            None
        }
    }

    /// Parses a file letter.
    pub fn file_of_char(c: char) -> (r: Option<u8>)
        ensures
            match r {
                Some(f) => Square::spec_file_of_char(c) == Some(f as int) && f < 8,
                None => Square::spec_file_of_char(c) is None,
            },
    {
        match c {
            'a' => Some(0),
            'b' => Some(1),
            'c' => Some(2),
            'd' => Some(3),
            'e' => Some(4),
            'f' => Some(5),
            'g' => Some(6),
            'h' => Some(7),
            _ => None,
        }
    }

    /// Parses a rank digit.
    pub fn rank_of_char(c: char) -> (r: Option<u8>)
        ensures
            match r {
                Some(k) => Square::spec_rank_of_char(c) == Some(k as int) && k < 8,
                None => Square::spec_rank_of_char(c) is None,
            },
    {
        match c {
            '1' => Some(0),
            '2' => Some(1),
            '3' => Some(2),
            '4' => Some(3),
            '5' => Some(4),
            '6' => Some(5),
            '7' => Some(6),
            '8' => Some(7),
            _ => None,
        }
    }

    /// The algebraic pair of a square names that square back.
    pub proof fn lemma_algebraic_round_trip(self)
        requires
            self.wf(),
        ensures
            Square::spec_file_of_char(self.spec_file_char()) == Some(self.spec_file()),
            Square::spec_rank_of_char(self.spec_rank_char()) == Some(self.spec_rank()),
            Square::spec_at(self.spec_file(), self.spec_rank()) == self,
    {
    }
}

} // verus!
