use vstd::prelude::*;

use crate::font::{char_mask, digit_mask, mask_for_char, mask_for_digit, DECIMAL_POINT};
use crate::shared_constants::CELL_COUNT;

verus! {

/// The target state of the whole display: one segment mask per cell, index
/// `i` always meaning physical cell `i`. Mask `0` is a blank cell.
#[derive(Clone, Copy, Debug)]
pub struct BitMatrix {
    cells: [u8; CELL_COUNT],
}

impl View for BitMatrix {
    type V = Seq<u8>;

    closed spec fn view(&self) -> Seq<u8> {
        self.cells@
    }
}

/// The sequence `s` with the mask `m` OR-ed into every cell.
pub open spec fn overlay_spec(s: Seq<u8>, m: u8) -> Seq<u8> {
    Seq::new(s.len(), |i: int| s[i] | m)
}

/// `n` with its last `k` decimal digits removed.
pub open spec fn strip_digits(n: nat, k: nat) -> nat
    decreases k,
{
    if k == 0 {
        n
    } else {
        strip_digits(n / 10, (k - 1) as nat)
    }
}

/// The `p`-th decimal digit of `n`, counting from the least significant.
pub open spec fn digit_at(n: nat, p: nat) -> nat {
    strip_digits(n, p) % 10
}

/// How many decimal digits `n` has; zero is written with one digit.
pub open spec fn num_digits(n: nat) -> nat
    decreases n,
{
    if n < 10 {
        1
    } else {
        1 + num_digits(n / 10)
    }
}

/// The number written by the digits `digit_at(n, k - 1) .. digit_at(n, 0)`,
/// i.e. the value read back from the last `k` digits of `n`.
pub open spec fn digits_value(n: nat, k: nat) -> nat
    decreases k,
{
    if k == 0 {
        0
    } else {
        digit_at(n, 0) + 10 * digits_value(n / 10, (k - 1) as nat)
    }
}

impl BitMatrix {
    /// A display always has exactly one mask per cell.
    pub proof fn lemma_cell_count(&self)
        ensures
            self@.len() == CELL_COUNT,
    {
    }

    pub fn new(bits: [u8; CELL_COUNT]) -> (r: Self)
        ensures
            r@ == bits@,
    {
        Self { cells: bits }
    }

    /// A display whose every cell holds the same mask.
    pub fn from_bits(bits: u8) -> (r: Self)
        ensures
            r@.len() == CELL_COUNT,
            forall|i: int| 0 <= i < CELL_COUNT ==> r@[i] == bits,
    {
        Self { cells: [bits; CELL_COUNT] }
    }

    /// The mask of one cell.
    pub fn get(&self, i: usize) -> (r: u8)
        requires
            i < CELL_COUNT,
        ensures
            r == self@[i as int],
    {
        self.cells[i]
    }

    /// Replaces the mask of one cell.
    pub fn set(&mut self, i: usize, bits: u8)
        requires
            i < CELL_COUNT,
        ensures
            final(self)@ == old(self)@.update(i as int, bits),
    {
        self.cells[i] = bits;
    }

    /// The masks of all cells, left to right.
    pub fn iter(&self) -> (r: Vec<u8>)
        ensures
            r@ == self@,
    {
        let mut v: Vec<u8> = Vec::new();
        let mut i: usize = 0;
        while i < CELL_COUNT
            invariant
                i <= CELL_COUNT,
                v@ =~= self@.subrange(0, i as int),
            decreases CELL_COUNT - i,
        {
            v.push(self.cells[i]);
            i += 1;
        }
        proof {
            assert(self@.subrange(0, CELL_COUNT as int) =~= self@);
        }
        v
    }

    /// ORs a mask into every cell; used for the all-points overflow indicator
    /// and for alert-style overlays. Idempotent and commutative per cell.
    pub fn overlay(&mut self, rhs: u8)
        ensures
            final(self)@ == overlay_spec(old(self)@, rhs),
    {
        let ghost s0 = self@;
        let mut i: usize = 0;
        while i < CELL_COUNT
            invariant
                i <= CELL_COUNT,
                self@.len() == CELL_COUNT,
                s0.len() == CELL_COUNT,
                forall|j: int| 0 <= j < i ==> self@[j] == (s0[j] | rhs),
                forall|j: int| i <= j < CELL_COUNT ==> self@[j] == s0[j],
            decreases CELL_COUNT - i,
        {
            let v = self.cells[i];
            self.cells[i] = v | rhs;
            i += 1;
        }
        proof {
            assert(self@ =~= overlay_spec(s0, rhs));
        }
    }

    /// Encodes a string left-aligned, one character per cell; unused trailing
    /// cells stay blank. A string longer than the display is truncated and
    /// every decimal point is lit as the overflow indicator.
    pub fn from_str(s: &str) -> (r: Self)
        ensures
            r@.len() == CELL_COUNT,
            s@.len() <= CELL_COUNT ==> {
                &&& forall|i: int| 0 <= i < s@.len() ==> r@[i] == char_mask(s@[i])
                &&& forall|i: int| s@.len() <= i < CELL_COUNT ==> r@[i] == 0
            },
            s@.len() > CELL_COUNT ==> forall|i: int|
                0 <= i < CELL_COUNT ==> r@[i] == (char_mask(s@[i]) | DECIMAL_POINT),
    {
        let len = s.unicode_len();
        let n = if len < CELL_COUNT {
            len
        } else {
            CELL_COUNT
        };
        let mut bm = Self::from_bits(0);
        let mut i: usize = 0;
        while i < n
            invariant
                i <= n,
                n <= len == s@.len(),
                n <= CELL_COUNT,
                len > n ==> n == CELL_COUNT,
                bm@.len() == CELL_COUNT,
                forall|j: int| 0 <= j < i ==> bm@[j] == char_mask(s@[j]),
                forall|j: int| i <= j < CELL_COUNT ==> bm@[j] == 0,
            decreases n - i,
        {
            let c = s.get_char(i);
            bm.set(i, mask_for_char(c));
            i += 1;
        }
        if len > CELL_COUNT {
            bm.overlay(DECIMAL_POINT);
        }
        bm
    }

    /// Encodes a fixed-size character array, one character per cell; exact
    /// fit, so no truncation can occur.
    pub fn from_chars(chars: &[char; CELL_COUNT]) -> (r: Self)
        ensures
            r@.len() == CELL_COUNT,
            forall|i: int| 0 <= i < CELL_COUNT ==> r@[i] == char_mask(chars@[i]),
    {
        let mut bm = Self::from_bits(0);
        let mut i: usize = 0;
        while i < CELL_COUNT
            invariant
                i <= CELL_COUNT,
                bm@.len() == CELL_COUNT,
                forall|j: int| 0 <= j < i ==> bm@[j] == char_mask(chars@[j]),
            decreases CELL_COUNT - i,
        {
            let c = chars[i];
            bm.set(i, mask_for_char(c));
            i += 1;
        }
        bm
    }

    /// Renders a number right-aligned, most significant digit leftmost,
    /// left-padding unused cells with the caller's mask. A number with more
    /// digits than cells keeps its lowest digits and lights every decimal
    /// point as the overflow indicator.
    pub fn from_number(number: u16, padding: u8) -> (r: Self)
        ensures
            r@.len() == CELL_COUNT,
            num_digits(number as nat) <= CELL_COUNT ==> {
                &&& forall|p: nat|
                    p < num_digits(number as nat) ==> r@[CELL_COUNT - 1 - p] == #[trigger] digit_mask(
                        digit_at(number as nat, p),
                    )
                &&& forall|i: int|
                    0 <= i < CELL_COUNT - num_digits(number as nat) ==> r@[i] == padding
            },
            num_digits(number as nat) > CELL_COUNT ==> forall|p: nat|
                p < CELL_COUNT ==> r@[CELL_COUNT - 1 - p] == (#[trigger] digit_mask(
                    digit_at(number as nat, p),
                ) | DECIMAL_POINT),
    {
        let mut bm = Self::from_bits(padding);
        let mut num: u16 = number;
        let mut j: usize = CELL_COUNT;
        while j > 0
            invariant_except_break
                j <= CELL_COUNT,
                num == strip_digits(number as nat, (CELL_COUNT - j) as nat),
                j < CELL_COUNT ==> num != 0,
                bm@.len() == CELL_COUNT,
                forall|p: nat|
                    p < CELL_COUNT - j ==> bm@[CELL_COUNT - 1 - p] == #[trigger] digit_mask(
                        digit_at(number as nat, p),
                    ),
                forall|i: int| 0 <= i < j ==> bm@[i] == padding,
                forall|t: nat|
                    1 <= t <= CELL_COUNT - j ==> strip_digits(number as nat, t) != 0,
            ensures
                bm@.len() == CELL_COUNT,
                1 <= CELL_COUNT - j,
                num == strip_digits(number as nat, (CELL_COUNT - j) as nat),
                forall|p: nat|
                    p < CELL_COUNT - j ==> bm@[CELL_COUNT - 1 - p] == #[trigger] digit_mask(
                        digit_at(number as nat, p),
                    ),
                forall|i: int| 0 <= i < j ==> bm@[i] == padding,
                forall|t: nat|
                    1 <= t < CELL_COUNT - j ==> strip_digits(number as nat, t) != 0,
                num != 0 ==> j == 0 && strip_digits(number as nat, CELL_COUNT as nat) != 0,
            decreases j,
        {
            let ghost steps = (CELL_COUNT - j) as nat;
            j -= 1;
            let d = num % 10;
            bm.set(j, mask_for_digit(d));
            proof {
                lemma_strip_digits_succ(number as nat, steps);
            }
            num = num / 10;
            if num == 0 {
                break ;
            }
        }
        if num > 0 {
            proof {
                lemma_num_digits_gt(number as nat, CELL_COUNT as nat);
            }
            bm.overlay(DECIMAL_POINT);
        } else {
            proof {
                lemma_num_digits_from_strip(number as nat, (CELL_COUNT - j) as nat);
            }
        }
        bm
    }
}

impl Default for BitMatrix {
    /// An all-blank display.
    fn default() -> (r: Self)
        ensures
            r@.len() == CELL_COUNT,
            forall|i: int| 0 <= i < CELL_COUNT ==> r@[i] == 0,
    {
        Self::from_bits(0)
    }
}

/// Stripping one more digit divides the stripped value by ten.
proof fn lemma_strip_digits_succ(n: nat, k: nat)
    ensures
        strip_digits(n, k) / 10 == strip_digits(n, (k + 1) as nat),
    decreases k,
{
    reveal_with_fuel(strip_digits, 3);
    if k == 0 {
    } else {
        lemma_strip_digits_succ(n / 10, (k - 1) as nat);
    }
}

/// Zero has no digits left to strip.
proof fn lemma_strip_digits_zero(k: nat)
    ensures
        strip_digits(0, k) == 0,
    decreases k,
{
    if k > 0 {
        lemma_strip_digits_zero((k - 1) as nat);
    }
}

/// If stripping `t` digits is the first strip that reaches zero, then `n`
/// has exactly `t` digits.
proof fn lemma_num_digits_from_strip(n: nat, t: nat)
    requires
        1 <= t,
        strip_digits(n, t) == 0,
        forall|j: nat| 1 <= j < t ==> strip_digits(n, j) != 0,
    ensures
        num_digits(n) == t,
    decreases t,
{
    reveal_with_fuel(strip_digits, 3);
    if t == 1 {
        assert(strip_digits(n, 1) == n / 10);
        assert(n / 10 == 0 ==> n < 10) by (nonlinear_arith);
    } else {
        assert(strip_digits(n, 1) == n / 10);
        assert(strip_digits(n, 1) != 0);
        assert(n >= 10) by {
            if n < 10 {
                assert(n / 10 == 0) by (nonlinear_arith)
                    requires
                        n < 10,
                ;
            }
        }
        assert forall|j: nat| 1 <= j < t - 1 implies #[trigger] strip_digits(n / 10, j) != 0 by {
            assert(strip_digits(n, (j + 1) as nat) == strip_digits(n / 10, j));
            assert(strip_digits(n, (j + 1) as nat) != 0);
        }
        assert(strip_digits(n / 10, (t - 1) as nat) == strip_digits(n, t));
        lemma_num_digits_from_strip(n / 10, (t - 1) as nat);
    }
}

/// If stripping `t` digits leaves something, `n` has more than `t` digits.
proof fn lemma_num_digits_gt(n: nat, t: nat)
    requires
        strip_digits(n, t) != 0,
    ensures
        num_digits(n) > t,
    decreases t,
{
    reveal_with_fuel(strip_digits, 3);
    if t > 0 {
        if n < 10 {
            assert(n / 10 == 0) by (nonlinear_arith)
                requires
                    n < 10,
            ;
            lemma_strip_digits_zero((t - 1) as nat);
            assert(false);
        }
        assert(strip_digits(n, t) == strip_digits(n / 10, (t - 1) as nat));
        lemma_num_digits_gt(n / 10, (t - 1) as nat);
    }
}

/// Reading back zero's digits gives zero.
proof fn lemma_digits_value_of_zero(k: nat)
    ensures
        digits_value(0, k) == 0,
    decreases k,
{
    if k > 0 {
        lemma_digits_value_of_zero((k - 1) as nat);
    }
}

/// Reading back at least `num_digits(n)` digits of `n` reconstructs `n`.
proof fn lemma_digits_value_round_trip(n: nat, k: nat)
    requires
        k >= num_digits(n),
    ensures
        digits_value(n, k) == n,
    decreases k,
{
    vstd::arithmetic::div_mod::lemma_fundamental_div_mod(n as int, 10);
    if n < 10 {
        assert(n / 10 == 0) by (nonlinear_arith)
            requires
                n < 10,
        ;
        assert(n % 10 == n) by (nonlinear_arith)
            requires
                n < 10,
        ;
        lemma_digits_value_of_zero((k - 1) as nat);
    } else {
        lemma_digits_value_round_trip(n / 10, (k - 1) as nat);
    }
}

/// Law: for every number, the digit sequence `from_number` renders — digit
/// `digit_at(n, p)` in cell `CELL_COUNT - 1 - p` — reads back to the number
/// itself, so a display wide enough for all its digits reproduces `n`
/// exactly.
pub proof fn lemma_number_round_trip(n: u16)
    ensures
        digits_value(n as nat, num_digits(n as nat)) == n,
{
    lemma_digits_value_round_trip(n as nat, num_digits(n as nat));
}

/// Law: a cell written on an overflow path — any mask with the decimal
/// point OR-ed in — has the decimal-point bit set, so truncation is always
/// visible on every cell.
pub proof fn lemma_decimal_point_set(x: u8)
    ensures
        (x | DECIMAL_POINT) & DECIMAL_POINT != 0,
{
    assert((x | 0x80u8) & 0x80u8 != 0) by (bit_vector);
}

/// Law: overlaying the same mask twice equals overlaying it once.
pub proof fn lemma_overlay_idempotent(s: Seq<u8>, m: u8)
    ensures
        overlay_spec(overlay_spec(s, m), m) == overlay_spec(s, m),
{
    let a = overlay_spec(overlay_spec(s, m), m);
    let b = overlay_spec(s, m);
    assert forall|i: int| 0 <= i < s.len() implies a[i] == b[i] by {
        let x = s[i];
        assert(((x | m) | m) == (x | m)) by (bit_vector);
    }
    assert(a =~= b);
}

/// Law: per-cell overlays commute: overlaying `m1` then `m2` equals
/// overlaying `m2` then `m1`.
pub proof fn lemma_overlay_commutative(s: Seq<u8>, m1: u8, m2: u8)
    ensures
        overlay_spec(overlay_spec(s, m1), m2) == overlay_spec(overlay_spec(s, m2), m1),
{
    let a = overlay_spec(overlay_spec(s, m1), m2);
    let b = overlay_spec(overlay_spec(s, m2), m1);
    assert forall|i: int| 0 <= i < s.len() implies a[i] == b[i] by {
        let x = s[i];
        assert(((x | m1) | m2) == ((x | m2) | m1)) by (bit_vector);
    }
    assert(a =~= b);
}

} // verus!
