//! Moves as text: `a1`, `Sc3`, `Cd4` for placements, `3a1>12` for spreads.

use crate::takmove::Move;
use crate::types::{Direction, PieceType, Square, SquareStrError};
use vstd::prelude::*;
use vstd::string::StringSliceAdditionalSpecFns;

verus! {

/// Why a text is not a move.
#[derive(Copy, Clone, PartialEq, Eq, Structural, Debug)]
pub enum MoveStrError {
    NonAsciiString,
    TooShort,
    MissingSquare,
    InvalidSquare(SquareStrError),
    InvalidDirection,
    TooManySpreadSteps,
    InvalidSpreadPattern,
    TooManySpreadPieces,
}

/// The number of times that 2 divides `x`; 0 for 0.
pub open spec fn low_zeros(x: nat) -> nat
    decreases x,
{
    if x == 0 || x % 2 == 1 {
        0
    } else {
        1 + low_zeros(x / 2)
    }
}

/// `x` divided by 2 as often as it can be.
pub open spec fn strip_zeros(x: nat) -> nat
    decreases x,
{
    if x == 0 || x % 2 == 1 {
        x
    } else {
        strip_zeros(x / 2)
    }
}

/// `x` doubled `d` times.
pub open spec fn doubled(x: nat, d: nat) -> nat
    decreases d,
{
    if d == 0 {
        x
    } else {
        2 * doubled(x, (d - 1) as nat)
    }
}

/// The position of the highest set bit of `x`; 0 for 0 and 1.
pub open spec fn top_bit(x: nat) -> nat
    decreases x,
{
    if x <= 1 {
        0
    } else {
        1 + top_bit(x / 2)
    }
}

/// The number of pieces that a spread with this drop schedule carries.
pub open spec fn carried(pattern: nat) -> nat {
    (6 - low_zeros(pattern)) as nat
}

/// The drop schedule with its trailing zeros taken off and a bit added above
/// the last piece: an odd number whose set bits are the boundaries of the drops.
pub open spec fn boundaries(pattern: nat) -> nat {
    strip_zeros(pattern + 64)
}

/// The distances from bit to bit in `x`, lowest first, each as a digit,
/// where `run` positions lie between the last boundary and the lowest bit
/// of `x`.
pub open spec fn gap_run(x: nat, run: nat) -> Seq<u8>
    decreases x,
{
    if x == 0 {
        Seq::empty()
    } else if x % 2 == 1 {
        seq![(48 + run) as u8] + gap_run(x / 2, 1)
    } else {
        gap_run(x / 2, run + 1)
    }
}

/// The drop counts of a spread, in the order of the squares walked, as digits.
pub open spec fn drop_digits(pattern: nat) -> Seq<u8> {
    gap_run(boundaries(pattern) / 2, 1)
}

/// The odd number whose set bits lie at the distances that the digits give.
pub open spec fn unfold(ds: Seq<u8>) -> nat
    decreases ds.len(),
{
    if ds.len() == 0 {
        1
    } else {
        1 + doubled(unfold(ds.skip(1)), (ds[0] - 48) as nat)
    }
}

/// The sum of the digits.
pub open spec fn digit_sum(ds: Seq<u8>) -> nat
    decreases ds.len(),
{
    if ds.len() == 0 {
        0
    } else {
        (ds[0] - 48) as nat + digit_sum(ds.skip(1))
    }
}

/// Every byte is one of the digits `1` to `6`.
pub open spec fn drop_counts(ds: Seq<u8>) -> bool {
    forall|i: int| 0 <= i < ds.len() ==> 49 <= #[trigger] ds[i] <= 54
}

/// Every byte is below 128.
pub open spec fn ascii(s: Seq<u8>) -> bool {
    forall|i: int| 0 <= i < s.len() ==> #[trigger] s[i] < 128
}

/// Whether the byte is one of `+ - < >`.
pub open spec fn is_direction(b: u8) -> bool {
    b == 43 || b == 45 || b == 60 || b == 62
}

/// The direction that the byte stands for.
pub open spec fn direction_of(b: u8) -> Direction {
    if b == 43 {
        Direction::Up
    } else if b == 45 {
        Direction::Down
    } else if b == 60 {
        Direction::Left
    } else {
        Direction::Right
    }
}

/// Whether a first byte is a piece letter or a carry count, which the
/// square then follows.
pub open spec fn is_lead(b: u8) -> bool {
    b == 70 || b == 83 || b == 67 || (49 <= b <= 57)
}

/// The piece type that a first byte asks for; a flat without a letter.
pub open spec fn lead_kind(b: u8) -> PieceType {
    if b == 83 {
        PieceType::Wall
    } else if b == 67 {
        PieceType::Capstone
    } else {
        PieceType::Flat
    }
}

/// The carry count that a first byte gives; one without a digit.
pub open spec fn lead_count(b: u8) -> nat {
    if 49 <= b <= 57 {
        (b - 48) as nat
    } else {
        1
    }
}

/// What follows the direction sign: the drop counts, and after them
/// possibly a `*`, which says nothing.
pub open spec fn drop_part(s: Seq<u8>, at: int) -> Seq<u8> {
    if s.len() > 0 && s.last() == 42 {
        s.subrange(at, s.len() - 1)
    } else {
        s.subrange(at, s.len() as int)
    }
}

impl Move {
    /// The move in notation.
    ///
    /// A placement is the square, after `S` for a wall or `C` for a capstone.
    /// A spread is the carry count (left out when it is one), the square, the
    /// direction sign, and the drop counts (left out when all pieces go to
    /// one square).
    pub open spec fn text(self) -> Seq<u8> {
        if self.spreads() {
            let p = self.pattern_bits() as nat;
            let head = self.square().text() + seq![self.direction().sign_byte()];
            if carried(p) == 1 {
                head
            } else if drop_digits(p).len() > 1 {
                seq![(48 + carried(p)) as u8] + head + drop_digits(p)
            } else {
                seq![(48 + carried(p)) as u8] + head
            }
        } else if self.kind() == PieceType::Flat {
            self.square().text()
        } else {
            seq![self.kind().letter()] + self.square().text()
        }
    }

    /// The spread that the text from `at` on completes, where the square,
    /// the direction and the carry count have been read.
    pub open spec fn parse_drops(s: Seq<u8>, at: int, sq: Square, dir: Direction, count: nat)
        -> Result<Move, MoveStrError> {
        let ds = drop_part(s, at);
        if s.len() - at > 6 {
            Err(MoveStrError::TooManySpreadSteps)
        } else if !drop_counts(ds) {
            Err(MoveStrError::InvalidSpreadPattern)
        } else if count > 6 || digit_sum(ds) > count {
            Err(MoveStrError::TooManySpreadPieces)
        } else {
            Ok(Move::spreading(sq, dir, doubled(unfold(ds), (6 - count) as nat) % 64))
        }
    }

    /// The move that a text stands for, or why it stands for none.
    pub open spec fn parse(s: Seq<u8>) -> Result<Move, MoveStrError> {
        if !ascii(s) {
            Err(MoveStrError::NonAsciiString)
        } else if s.len() < 2 {
            Err(MoveStrError::TooShort)
        } else {
            let next: int = if is_lead(s[0]) {
                1
            } else {
                0
            };
            if s.len() - next < 2 {
                Err(MoveStrError::MissingSquare)
            } else {
                match Square::parse(s.subrange(next, next + 2)) {
                    Err(e) => Err(MoveStrError::InvalidSquare(e)),
                    Ok(sq) => {
                        if next + 2 == s.len() {
                            Ok(Move::placing(lead_kind(s[0]), sq))
                        } else if !is_direction(s[next + 2]) {
                            Err(MoveStrError::InvalidDirection)
                        } else {
                            Move::parse_drops(
                                s,
                                next + 3,
                                sq,
                                direction_of(s[next + 2]),
                                lead_count(s[0]),
                            )
                        }
                    },
                }
            }
        }
    }
}


/// Doubling `d` times, then `e` times more, is doubling `d + e` times.
pub proof fn lemma_doubled_add(x: nat, d: nat, e: nat)
    ensures
        doubled(doubled(x, d), e) == doubled(x, d + e),
        doubled(2 * x, d) == 2 * doubled(x, d),
        doubled(x + 1, d) == doubled(x, d) + doubled(1, d),
    decreases d + e,
{
    if d > 0 {
        lemma_doubled_add(x, (d - 1) as nat, e);
        lemma_doubled_add(x, (d - 1) as nat, 0);
    }
    if e > 0 {
        lemma_doubled_add(x, d, (e - 1) as nat);
    }
}

/// Doubling keeps the order, and seven doublings of one give 128.
pub proof fn lemma_doubled_order(x: nat, y: nat, d: nat)
    requires
        x <= y,
    ensures
        doubled(x, d) <= doubled(y, d),
        x < y ==> doubled(x, d) + doubled(1, d) <= doubled(y, d),
        doubled(1, d) >= 1,
        d <= 7 ==> doubled(1, d) <= 128,
        doubled(1, 7) == 128,
        doubled(1, 6) == 64,
    decreases d,
{
    reveal_with_fuel(doubled, 8);
    if d > 0 {
        lemma_doubled_order(x, y, (d - 1) as nat);
    }
}

/// A number is its stripped part doubled as often as 2 divides it, and the
/// top bit of the stripped part lies that much lower.
pub proof fn lemma_strip(x: nat)
    requires
        x >= 1,
    ensures
        doubled(strip_zeros(x), low_zeros(x)) == x,
        strip_zeros(x) % 2 == 1,
        top_bit(x) == low_zeros(x) + top_bit(strip_zeros(x)),
    decreases x,
{
    if x % 2 == 0 {
        lemma_strip(x / 2);
    }
}

/// Below 64, a drop schedule has as many trailing zeros as with the bit
/// for 64 added, at most five.
pub proof fn lemma_low_zeros_under(p: nat, m: nat, j: nat)
    requires
        1 <= p < m,
        m == doubled(1, j),
    ensures
        low_zeros(p + m) == low_zeros(p),
        low_zeros(p) < j,
        top_bit(p + m) == j,
    decreases p,
{
    if j == 0 {
    } else {
        let half = doubled(1, (j - 1) as nat);
        assert(m == 2 * half);
        if p == 1 {
            if j >= 2 {
                lemma_top_bit_doubled((j - 1) as nat);
                assert((1 + m) / 2 == half);
            }
            if j == 1 {
                assert(top_bit(3) == 1 + top_bit(1));
            }
        } else if p % 2 == 0 {
            lemma_low_zeros_under(p / 2, half, (j - 1) as nat);
            assert((p + m) / 2 == p / 2 + half);
        } else {
            lemma_low_zeros_under(p / 2, half, (j - 1) as nat);
            assert((p + m) / 2 == p / 2 + half);
        }
    }
}

/// The top bit of one doubled `j` times is at `j`.
pub proof fn lemma_top_bit_doubled(j: nat)
    ensures
        top_bit(doubled(1, j)) == j,
        doubled(1, j) >= 1,
    decreases j,
{
    if j > 0 {
        lemma_top_bit_doubled((j - 1) as nat);
    }
}

/// What the digits of a run of gaps fold back to, what they sum to, and that
/// each is a digit from `1` up to that sum.
#[verifier::rlimit(30)]
pub proof fn lemma_gap_run(x: nat, run: nat)
    requires
        x >= 1,
        run >= 1,
        run + top_bit(x) <= 9,
    ensures
        unfold(gap_run(x, run)) == 1 + doubled(x, run),
        digit_sum(gap_run(x, run)) == run + top_bit(x),
        1 <= gap_run(x, run).len() <= 1 + top_bit(x),
        gap_run(x, run).len() == 1 <==> x == doubled(1, top_bit(x)),
        forall|i: int|
            0 <= i < gap_run(x, run).len() ==> 49 <= #[trigger] gap_run(x, run)[i] <= 48 + run
                + top_bit(x),
    decreases x,
{
    let g = gap_run(x, run);
    if x % 2 == 1 {
        let rest = gap_run(x / 2, 1);
        assert(g == seq![(48 + run) as u8] + rest);
        assert(g.skip(1) =~= rest);
        assert(g[0] == (48 + run) as u8);
        assert(unfold(g) == 1 + doubled(unfold(rest), run));
        assert(digit_sum(g) == run + digit_sum(rest));
        if x / 2 >= 1 {
            lemma_gap_run(x / 2, 1);
            lemma_top_bit_doubled(top_bit(x));
            assert(x != doubled(1, top_bit(x))) by {
                lemma_doubled_even(top_bit(x));
            }
            assert(doubled(x / 2, 1) == 2 * (x / 2)) by {
                reveal_with_fuel(doubled, 2);
            }
        } else {
            assert(rest.len() == 0);
            assert(unfold(rest) == 1);
            assert(doubled(1, 0) == 1);
        }
        assert forall|i: int| 0 <= i < g.len() implies 49 <= #[trigger] g[i] <= 48 + run + top_bit(
            x,
        ) by {
            if i > 0 {
                assert(g[i] == rest[i - 1]);
            }
        }
    } else {
        lemma_gap_run(x / 2, run + 1);
        lemma_doubled_add(x / 2, run, 1);
        assert(doubled(x / 2, run + 1) == doubled(x, run)) by {
            lemma_doubled_add(x / 2, run, 0);
            assert(doubled(2 * (x / 2), run) == 2 * doubled(x / 2, run));
        }
        assert(x == doubled(1, top_bit(x)) <==> x / 2 == doubled(1, top_bit(x / 2)));
    }
}

/// One doubled at least once is even.
pub proof fn lemma_doubled_even(j: nat)
    ensures
        j >= 1 ==> doubled(1, j) % 2 == 0,
{
}

/// Digits that are drop counts sum to at least their number, and at
/// most six times it.
pub proof fn lemma_digit_sum_bounds(ds: Seq<u8>)
    requires
        drop_counts(ds),
    ensures
        ds.len() <= digit_sum(ds) <= 6 * ds.len(),
        unfold(ds) % 2 == 1,
        unfold(ds) < doubled(1, digit_sum(ds) + 1),
        unfold(ds) >= doubled(1, digit_sum(ds)),
    decreases ds.len(),
{
    if ds.len() > 0 {
        let rest = ds.skip(1);
        assert(drop_counts(rest)) by {
            assert forall|i: int| 0 <= i < rest.len() implies 49 <= #[trigger] rest[i] <= 54 by {
                assert(rest[i] == ds[i + 1]);
            }
        }
        lemma_digit_sum_bounds(rest);
        let d = (ds[0] - 48) as nat;
        let u = unfold(rest);
        let k = digit_sum(rest);
        lemma_doubled_order(u + 1, doubled(1, k + 1), d);
        lemma_doubled_order(doubled(1, k), u, d);
        lemma_doubled_add(u, d, 0);
        lemma_doubled_add(1, k + 1, d);
        lemma_doubled_add(1, k, d);
        lemma_doubled_add(1, d + k, 1);
        assert(doubled(1, d + k + 1) == 2 * doubled(1, d + k)) by {
            reveal_with_fuel(doubled, 2);
        }
        lemma_doubled_order(1, 1, d + k);
        assert(doubled(u, d) % 2 == 0);
    } else {
        reveal_with_fuel(doubled, 2);
    }
}


/// `x` doubled `d` times.
fn double_times(x: u64, d: u8) -> (r: u64)
    requires
        doubled(x as nat, d as nat) <= u64::MAX,
    ensures
        r == doubled(x as nat, d as nat),
{
    let mut r: u64 = x;
    let mut i: u8 = 0;
    while i < d
        invariant
            i <= d,
            r == doubled(x as nat, i as nat),
            doubled(x as nat, d as nat) <= u64::MAX,
        decreases d - i,
    {
        proof {
            lemma_doubled_add(x as nat, (i + 1) as nat, (d - i - 1) as nat);
            lemma_doubled_order(0, doubled(x as nat, (i + 1) as nat), (d - i - 1) as nat);
            lemma_doubled_zero((d - i - 1) as nat);
            lemma_doubled_grows(doubled(x as nat, (i + 1) as nat), (d - i - 1) as nat);
        }
        r = r * 2;
        i = i + 1;
    }
    r
}

/// Doubling zero gives zero.
pub proof fn lemma_doubled_zero(d: nat)
    ensures
        doubled(0, d) == 0,
    decreases d,
{
    if d > 0 {
        lemma_doubled_zero((d - 1) as nat);
    }
}

/// Doubling does not make a number smaller.
pub proof fn lemma_doubled_grows(x: nat, d: nat)
    ensures
        doubled(x, d) >= x,
    decreases d,
{
    if d > 0 {
        lemma_doubled_grows(x, (d - 1) as nat);
    }
}

/// The number of pieces that a drop schedule carries, and the schedule
/// without its trailing zeros.
pub fn unpack_pattern(pattern: u16) -> (r: (u8, u16))
    requires
        1 <= pattern < 64,
    ensures
        r.0 == carried(pattern as nat),
        r.1 == strip_zeros(pattern as nat),
        1 <= r.0 <= 6,
        r.1 % 2 == 1,
        r.1 < 64,
{
    let mut bits: u16 = pattern;
    let mut taken: u8 = 6;
    proof {
        lemma_doubled_order(1, 1, 6);
        lemma_low_zeros_under(pattern as nat, 64, 6);
    }
    while bits % 2 == 0
        invariant
            1 <= bits <= pattern,
            1 <= taken <= 6,
            strip_zeros(bits as nat) == strip_zeros(pattern as nat),
            low_zeros(bits as nat) + (6 - taken) == low_zeros(pattern as nat),
            low_zeros(pattern as nat) < 6,
        decreases bits,
    {
        bits = bits / 2;
        taken = taken - 1;
    }
    (taken, bits)
}

/// `String::from_utf8_lossy`, then `Cow::into_owned`: the text whose
/// characters are the given bytes, each of which is ASCII.
#[verifier::external_body]
pub(crate) fn ascii_string(bytes: &[u8]) -> (r: String)
    requires
        ascii(bytes@),
    ensures
        r@ == Seq::new(bytes@.len(), |i: int| bytes@[i] as char),
{
    String::from_utf8_lossy(bytes).into_owned()
}

impl Square {
    /// The name of the square, such as `c4`.
    pub fn to_string(self) -> (r: String)
        ensures
            r@ == Seq::new(2, |i: int| self.text()[i] as char),
    {
        let bytes = self.to_bytes();
        proof {
            self.lemma_at_index();
        }
        ascii_string(bytes.as_slice())
    }

    /// Reads a square name of exactly two characters.
    pub fn from_str(s: &str) -> (r: Result<Square, SquareStrError>)
        ensures
            !s.is_ascii() ==> r == Err::<Square, SquareStrError>(SquareStrError::NonAsciiString),
            s.is_ascii() ==> r == Square::parse(s.spec_bytes()),
    {
        if !s.is_ascii() {
            return Err(SquareStrError::NonAsciiString);
        }
        Square::from_bytes(s.as_bytes())
    }
}

impl Move {
    /// The move in notation, as bytes.
    #[verifier::rlimit(30)]
    pub fn to_bytes(self) -> (r: Vec<u8>)
        requires
            self.valid(),
        ensures
            r@ == self.text(),
    {
        let sq = self.sq();
        let name = sq.to_bytes();
        let mut out: Vec<u8> = Vec::new();
        if self.is_spread() {
            let pattern: u16 = self.pattern();
            let dir = self.dir();
            let mut q: u16 = pattern + 64;
            let mut taken: u8 = 6;
            proof {
                lemma_doubled_order(1, 1, 6);
                lemma_low_zeros_under(pattern as nat, 64, 6);
            }
            while q % 2 == 0
                invariant
                    1 <= q <= 127,
                    1 <= taken <= 6,
                    strip_zeros(q as nat) == boundaries(pattern as nat),
                    low_zeros(q as nat) + (6 - taken) == low_zeros(pattern as nat),
                    top_bit(q as nat) == taken,
                    low_zeros(pattern as nat) < 6,
                decreases q,
            {
                q = q / 2;
                taken = taken - 1;
            }
            assert(taken == carried(pattern as nat));
            assert(q == boundaries(pattern as nat));
            if taken == 1 {
                out.push(name[0]);
                out.push(name[1]);
                out.push(dir.to_byte());
                assert(out@ =~= self.text());
            } else {
                let mut digits: Vec<u8> = Vec::new();
                let mut x: u16 = q / 2;
                let mut run: u8 = 1;
                while x != 0
                    invariant
                        1 <= run,
                        x == 0 || run + top_bit(x as nat) <= 6,
                        digits@ + gap_run(x as nat, run as nat) == gap_run((q / 2) as nat, 1),
                    decreases x,
                {
                    if x % 2 == 1 {
                        proof {
                            let g = gap_run((x / 2) as nat, 1);
                            assert(digits@.push((48 + run) as u8) + g =~= digits@ + (seq![
                                (48 + run) as u8,
                            ] + g));
                        }
                        digits.push(48 + run);
                        run = 1;
                    } else {
                        run = run + 1;
                    }
                    x = x / 2;
                }
                assert(digits@ =~= drop_digits(pattern as nat));
                out.push(48 + taken);
                out.push(name[0]);
                out.push(name[1]);
                out.push(dir.to_byte());
                if digits.len() > 1 {
                    let ghost before = out@;
                    let mut k: usize = 0;
                    while k < digits.len()
                        invariant
                            k <= digits.len(),
                            out@ == before + digits@.subrange(0, k as int),
                        decreases digits.len() - k,
                    {
                        out.push(digits[k]);
                        proof {
                            assert(digits@.subrange(0, k + 1) =~= digits@.subrange(0, k as int).push(
                                digits@[k as int],
                            ));
                        }
                        k = k + 1;
                    }
                    assert(digits@.subrange(0, digits.len() as int) =~= digits@);
                    assert(out@ =~= self.text());
                } else {
                    assert(out@ =~= self.text());
                }
            }
        } else {
            let pt = self.pt();
            match pt {
                PieceType::Flat => {},
                _ => {
                    out.push(pt.to_byte());
                },
            }
            out.push(name[0]);
            out.push(name[1]);
            assert(out@ =~= self.text());
        }
        out
    }

    /// The move in notation.
    pub fn to_string(self) -> (r: String)
        requires
            self.valid(),
        ensures
            r@ == Seq::new(self.text().len(), |i: int| self.text()[i] as char),
    {
        let bytes = self.to_bytes();
        proof {
            self.lemma_text_ascii();
        }
        ascii_string(bytes.as_slice())
    }

    /// The notation of a valid move is made of at most ten ASCII characters.
    pub proof fn lemma_text_ascii(self)
        requires
            self.valid(),
        ensures
            ascii(self.text()),
            2 <= self.text().len() <= 10,
    {
        self.square().lemma_at_index();
        if self.spreads() {
            let p = self.pattern_bits() as nat;
            lemma_doubled_order(1, 1, 6);
            lemma_low_zeros_under(p, 64, 6);
            lemma_strip(p + 64);
            let q = boundaries(p);
            if q / 2 >= 1 {
                lemma_gap_run(q / 2, 1);
            }
        }
    }

    /// Reads a move from its notation.
    #[verifier::rlimit(30)]
    pub fn from_bytes(s: &[u8]) -> (r: Result<Move, MoveStrError>)
        ensures
            r == Move::parse(s@),
    {
        let n: usize = s.len();
        let mut i: usize = 0;
        while i < n
            invariant
                i <= n,
                n == s@.len(),
                forall|j: int| 0 <= j < i ==> #[trigger] s@[j] < 128,
            decreases n - i,
        {
            if s[i] >= 128 {
                return Err(MoveStrError::NonAsciiString);
            }
            i = i + 1;
        }
        if n < 2 {
            return Err(MoveStrError::TooShort);
        }
        let lead: u8 = s[0];
        let mut pt = PieceType::Flat;
        let mut count: u8 = 1;
        let mut next: usize = 0;
        if lead == 70 {
            next = 1;
        } else if lead == 83 {
            pt = PieceType::Wall;
            next = 1;
        } else if lead == 67 {
            pt = PieceType::Capstone;
            next = 1;
        } else if 49 <= lead && lead <= 57 {
            count = lead - 48;
            next = 1;
        }
        if n - next < 2 {
            return Err(MoveStrError::MissingSquare);
        }
        let sq = match Square::from_bytes(vstd::slice::slice_subrange(s, next, next + 2)) {
            Ok(sq) => sq,
            Err(e) => {
                return Err(MoveStrError::InvalidSquare(e));
            },
        };
        next = next + 2;
        if next == n {
            return Ok(Move::placement(pt, sq));
        }
        let sign: u8 = s[next];
        let dir = if sign == 43 {
            Direction::Up
        } else if sign == 45 {
            Direction::Down
        } else if sign == 60 {
            Direction::Left
        } else if sign == 62 {
            Direction::Right
        } else {
            return Err(MoveStrError::InvalidDirection);
        };
        next = next + 1;
        Move::read_drops(s, next, sq, dir, count)
    }

    /// Reads the drop counts of a spread from place `next` on, where the
    /// square, the direction and the carry count have been read.
    #[verifier::rlimit(30)]
    fn read_drops(s: &[u8], next: usize, sq: Square, dir: Direction, count: u8) -> (r: Result<
        Move,
        MoveStrError,
    >)
        requires
            3 <= next <= s@.len(),
            1 <= count <= 9,
            is_direction(s@[next - 1]),
        ensures
            r == Move::parse_drops(s@, next as int, sq, dir, count as nat),
    {
        let n: usize = s.len();
        let end: usize = if s[n - 1] == 42 {
            n - 1
        } else {
            n
        };
        if n - next > 6 {
            return Err(MoveStrError::TooManySpreadSteps);
        }
        let ghost ds = drop_part(s@, next as int);
        assert(ds == s@.subrange(next as int, end as int));
        let mut k: usize = next;
        while k < end
            invariant
                next <= k <= end <= n,
                n == s@.len(),
                n - next <= 6,
                ds == drop_part(s@, next as int),
                ds == s@.subrange(next as int, end as int),
                forall|j: int| 0 <= j < k - next ==> 49 <= #[trigger] ds[j] <= 54,
            decreases end - k,
        {
            if s[k] < 49 || s[k] > 54 {
                proof {
                    let j = k - next;
                    assert(ds[j] == s@[k as int]);
                    assert(0 <= j < ds.len() && !(49 <= ds[j] <= 54));
                    assert(!drop_counts(ds));
                }
                return Err(MoveStrError::InvalidSpreadPattern);
            }
            assert(ds[k - next] == s@[k as int]);
            k = k + 1;
        }
        assert(drop_counts(ds));
        let mut total: u32 = 0;
        let mut k: usize = end;
        while k > next
            invariant
                next <= k <= end <= n,
                end - next <= 6,
                n == s@.len(),
                ds == s@.subrange(next as int, end as int),
                drop_counts(ds),
                total == digit_sum(ds.subrange(k - next, ds.len() as int)),
                total <= 6 * (end - k),
            decreases k,
        {
            k = k - 1;
            proof {
                let tail = ds.subrange(k - next, ds.len() as int);
                assert(tail.skip(1) =~= ds.subrange(k + 1 - next, ds.len() as int));
                assert(tail[0] == s@[k as int]);
                assert(49 <= ds[k - next] <= 54);
            }
            total = total + (s[k] - 48) as u32;
        }
        assert(ds.subrange(0, ds.len() as int) =~= ds);
        if count > 6 || total > count as u32 {
            return Err(MoveStrError::TooManySpreadPieces);
        }
        let mut acc: u64 = 1;
        let mut k: usize = end;
        while k > next
            invariant
                next <= k <= end <= n,
                n == s@.len(),
                ds == s@.subrange(next as int, end as int),
                drop_counts(ds),
                digit_sum(ds) <= 6,
                acc == unfold(ds.subrange(k - next, ds.len() as int)),
                digit_sum(ds.subrange(k - next, ds.len() as int)) + digit_sum(
                    ds.subrange(0, k - next),
                ) == digit_sum(ds),
            decreases k,
        {
            k = k - 1;
            proof {
                let tail = ds.subrange(k - next, ds.len() as int);
                let rest = ds.subrange(k + 1 - next, ds.len() as int);
                let front = ds.subrange(0, k + 1 - next);
                assert(tail.skip(1) =~= rest);
                assert(tail[0] == s@[k as int]);
                assert(49 <= ds[k - next] <= 54);
                assert(drop_counts(tail)) by {
                    assert forall|j: int| 0 <= j < tail.len() implies 49 <= #[trigger] tail[j]
                        <= 54 by {
                        assert(tail[j] == ds[j + k - next]);
                    }
                }
                assert(drop_counts(ds.subrange(0, k - next))) by {
                    assert forall|j: int| 0 <= j < k - next implies 49 <= #[trigger] ds.subrange(
                        0,
                        k - next,
                    )[j] <= 54 by {
                        assert(ds.subrange(0, k - next)[j] == ds[j]);
                    }
                }
                lemma_digit_sum_split(front);
                assert(front.drop_last() =~= ds.subrange(0, k - next));
                assert(front.last() == ds[k - next]);
                lemma_digit_sum_bounds(tail);
                lemma_digit_sum_bounds(ds.subrange(0, k - next));
                lemma_doubled_order(1, 1, digit_sum(tail) + 1);
                assert(unfold(tail) == 1 + doubled(unfold(rest), (s@[k as int] - 48) as nat));
            }
            acc = 1 + double_times(acc, s[k] - 48);
        }
        assert(ds.subrange(0, ds.len() as int) =~= ds);
        proof {
            lemma_digit_sum_bounds(ds);
            let u = unfold(ds);
            let e = (6 - count) as nat;
            lemma_doubled_order(u + 1, doubled(1, digit_sum(ds) + 1), e);
            lemma_doubled_add(1, digit_sum(ds) + 1, e);
            lemma_doubled_add(u, e, 0);
            lemma_doubled_order(1, 1, digit_sum(ds) + 1 + e);
            lemma_doubled_odd(u, e);
        }
        let shifted: u64 = double_times(acc, 6 - count);
        let pattern: u16 = (shifted % 64) as u16;
        Ok(Move::spread(sq, dir, pattern))
    }

    /// Reads a move from its notation.
    pub fn from_str(s: &str) -> (r: Result<Move, MoveStrError>)
        ensures
            !s.is_ascii() ==> r == Err::<Move, MoveStrError>(MoveStrError::NonAsciiString),
            s.is_ascii() ==> r == Move::parse(s.spec_bytes()),
    {
        if !s.is_ascii() {
            return Err(MoveStrError::NonAsciiString);
        }
        Move::from_bytes(s.as_bytes())
    }
}

/// An odd number doubled at most five times is no multiple of 64.
pub proof fn lemma_doubled_odd(x: nat, d: nat)
    requires
        x % 2 == 1,
        d <= 5,
    ensures
        doubled(x, d) % 64 != 0,
{
    reveal_with_fuel(doubled, 6);
}

/// The sum of digits, taken from the last digit.
pub proof fn lemma_digit_sum_split(ds: Seq<u8>)
    requires
        ds.len() > 0,
        drop_counts(ds),
    ensures
        digit_sum(ds) == digit_sum(ds.drop_last()) + (ds.last() - 48),
    decreases ds.len(),
{
    if ds.len() == 1 {
        assert(ds.skip(1) =~= ds.drop_last());
        assert(digit_sum(ds.skip(1)) == 0);
    } else {
        let rest = ds.skip(1);
        assert(drop_counts(rest)) by {
            assert forall|i: int| 0 <= i < rest.len() implies 49 <= #[trigger] rest[i] <= 54 by {
                assert(rest[i] == ds[i + 1]);
            }
        }
        lemma_digit_sum_split(rest);
        assert(rest.drop_last() =~= ds.drop_last().skip(1));
        assert(ds.drop_last()[0] == ds[0]);
    }
}


/// What the drop digits of a schedule are, and that they fold back to it.
pub proof fn lemma_drop_digits(p: nat)
    requires
        1 <= p < 64,
    ensures
        1 <= carried(p) <= 6,
        carried(p) == 1 ==> p == 32,
        carried(p) >= 2 ==> {
            let g = drop_digits(p);
            &&& 1 <= g.len() <= 6
            &&& drop_counts(g)
            &&& digit_sum(g) == carried(p)
            &&& doubled(unfold(g), (6 - carried(p)) as nat) % 64 == p
            &&& g.len() == 1 ==> doubled(1, (6 - carried(p)) as nat) % 64 == p
        },
{
    let n = carried(p);
    let q = boundaries(p);
    lemma_doubled_order(1, 1, 6);
    lemma_low_zeros_under(p, 64, 6);
    lemma_strip(p + 64);
    lemma_strip(p);
    if n == 1 {
        assert(doubled(strip_zeros(p), 5) == 32 * strip_zeros(p)) by {
            reveal_with_fuel(doubled, 6);
        }
    } else {
        let g = gap_run(q / 2, 1);
        assert(top_bit(q) == n);
        assert(top_bit(q) == 1 + top_bit(q / 2));
        lemma_gap_run(q / 2, 1);
        assert(doubled(q / 2, 1) == 2 * (q / 2)) by {
            reveal_with_fuel(doubled, 2);
        }
        assert(unfold(g) == q);
        assert(doubled(unfold(g), (6 - n) as nat) == p + 64);
        if g.len() == 1 {
            let h = doubled(1, (n - 1) as nat);
            assert(q / 2 == h);
            assert(q == 2 * h + 1);
            assert(doubled(1, n) == 2 * h);
            lemma_doubled_add(doubled(1, n), (6 - n) as nat, 0);
            lemma_doubled_add(1, n, (6 - n) as nat);
            assert(p + 64 == 64 + doubled(1, (6 - n) as nat));
        }
    }
}

impl Move {
    /// Reading the notation of a valid placement gives the placement back.
    proof fn lemma_parse_placement(self)
        requires
            self.valid(),
            !self.spreads(),
        ensures
            Move::parse(self.text()) == Ok::<Move, MoveStrError>(self),
    {
        let t = self.text();
        let sq = self.square();
        let name = sq.text();
        sq.lemma_at_index();
        sq.lemma_parse_text();
        self.lemma_text_ascii();
        self.lemma_of_fields();
        if self.kind() == PieceType::Flat {
            assert(t.subrange(0, 2) =~= name);
        } else {
            assert(t.subrange(1, 3) =~= name);
        }
    }

    /// Reading the notation of a valid spread gives the spread back.
    #[verifier::rlimit(30)]
    proof fn lemma_parse_spread(self)
        requires
            self.valid(),
            self.spreads(),
        ensures
            Move::parse(self.text()) == Ok::<Move, MoveStrError>(self),
    {
        let t = self.text();
        let sq = self.square();
        let name = sq.text();
        let p = self.pattern_bits() as nat;
        let n = carried(p);
        let g = drop_digits(p);
        let sign = self.direction().sign_byte();
        let dir = self.direction();
        lemma_drop_digits(p);
        self.lemma_text_ascii();
        self.lemma_of_fields();
        assert(Square::parse(name) == Ok::<Square, SquareStrError>(sq)) by {
            sq.lemma_parse_text();
        }
        assert(name.len() == 2 && 97 <= name[0] <= 102) by {
            sq.lemma_at_index();
        }
        assert(is_direction(sign) && direction_of(sign) == dir && sign != 42);
        if n == 1 {
            assert(t =~= name + seq![sign]);
            assert(t.subrange(0, 2) =~= name);
            assert(drop_part(t, 3) =~= Seq::<u8>::empty());
            assert(doubled(unfold(Seq::<u8>::empty()), 5) == 32) by {
                reveal_with_fuel(doubled, 6);
            }
            assert(Move::parse(t) == Move::parse_drops(t, 3, sq, dir, 1));
        } else {
            let lead = (48 + n) as u8;
            if g.len() > 1 {
                assert(t =~= seq![lead] + (name + seq![sign]) + g);
                assert(t.subrange(1, 3) =~= name);
                assert(t.last() == g.last());
                assert(drop_part(t, 4) =~= g);
            } else {
                assert(t =~= seq![lead] + (name + seq![sign]));
                assert(t.subrange(1, 3) =~= name);
                assert(drop_part(t, 4) =~= Seq::<u8>::empty());
                assert(unfold(Seq::<u8>::empty()) == 1);
            }
            assert(is_lead(t[0]) && lead_count(t[0]) == n);
            assert(Move::parse(t) == Move::parse_drops(t, 4, sq, dir, n));
        }
    }

    /// Reading the notation of a valid move gives the move back.
    pub proof fn lemma_parse_text(self)
        requires
            self.valid(),
        ensures
            Move::parse(self.text()) == Ok::<Move, MoveStrError>(self),
    {
        if self.spreads() {
            self.lemma_parse_spread();
        } else {
            self.lemma_parse_placement();
        }
    }
}

} // verus!
