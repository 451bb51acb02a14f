use vstd::arithmetic::div_mod::{lemma_mod_sub_multiples_vanish, lemma_small_mod};
use vstd::arithmetic::power2::{
    lemma2_to64, lemma2_to64_rest, lemma_pow2_adds, lemma_pow2_pos, lemma_pow2_strictly_increases,
    lemma_pow2_unfold, pow2,
};
use vstd::prelude::*;

verus! {

/// Largest order whose levels fit in 64 bits.
pub const MAX_ORDER: u32 = 31;

/// Side length of the matrix of a given order: `2^order`.
pub open spec fn bayer_side(order: nat) -> nat {
    pow2(order)
}

/// Number of levels of the matrix of a given order, which is also the
/// denominator that turns a level into a threshold: `4^order`.
pub open spec fn bayer_divisor(order: nat) -> nat {
    pow2(2 * order)
}

/// What a quadrant adds to four times the smaller matrix: 0 top left,
/// 2 top right, 3 bottom left, 1 bottom right.
pub open spec fn quadrant_offset(lower: bool, right: bool) -> nat {
    if lower {
        if right {
            1
        } else {
            3
        }
    } else {
        if right {
            2
        } else {
            0
        }
    }
}

/// The level at row `y`, column `x` of the matrix of a given order. Order 0
/// is the single level 0; each further order places four copies of the
/// previous matrix, scaled by four, and adds the quadrant's offset.
pub open spec fn bayer_level(order: nat, y: int, x: int) -> nat
    decreases order,
{
    if order == 0 {
        0
    } else {
        let half = bayer_side((order - 1) as nat) as int;
        4 * bayer_level((order - 1) as nat, y % half, x % half) + quadrant_offset(
            y >= half,
            x >= half,
        )
    }
}

/// The level that covers cell `(row, col)` of an unbounded plane on which the
/// matrix of a given order is repeated: the level at
/// `(row mod side, col mod side)`.
pub open spec fn tiled_level(order: nat, row: int, col: int) -> nat {
    bayer_level(order, row % bayer_side(order) as int, col % bayer_side(order) as int)
}

/// All levels of the matrix of a given order, row by row.
pub open spec fn bayer_levels(order: nat) -> Seq<Seq<nat>> {
    Seq::new(
        bayer_side(order),
        |y: int| Seq::new(bayer_side(order), |x: int| bayer_level(order, y, x)),
    )
}

/// Each order doubles the side and quadruples the number of levels.
pub proof fn lemma_bayer_step(order: nat)
    requires
        order > 0,
    ensures
        bayer_side(order) == 2 * bayer_side((order - 1) as nat),
        bayer_divisor(order) == 4 * bayer_divisor((order - 1) as nat),
        bayer_side(order) > 0,
{
    lemma_pow2_unfold(order);
    lemma_pow2_unfold(2 * order);
    lemma_pow2_unfold((2 * order - 1) as nat);
    lemma_pow2_pos(order);
}

/// The number of levels is the number of cells: side times side.
pub proof fn lemma_bayer_divisor_is_area(order: nat)
    ensures
        bayer_divisor(order) == bayer_side(order) * bayer_side(order),
{
    lemma_pow2_adds(order, order);
}

/// Every level lies below the divisor, so every threshold `level / divisor`
/// lies in `[0, 1)`.
pub proof fn lemma_bayer_level_below_divisor(order: nat, y: int, x: int)
    ensures
        bayer_level(order, y, x) < bayer_divisor(order),
    decreases order,
{
    if order == 0 {
        lemma2_to64();
    } else {
        let half = bayer_side((order - 1) as nat) as int;
        lemma_bayer_level_below_divisor((order - 1) as nat, y % half, x % half);
        lemma_bayer_step(order);
    }
}

/// No level occurs twice in a matrix: two cells with the same level are the
/// same cell. With `lemma_bayer_level_below_divisor` and
/// `lemma_bayer_divisor_is_area`, the levels of order `n` are therefore
/// exactly the numbers `0` up to `4^n - 1`, each once.
pub proof fn lemma_bayer_levels_distinct(order: nat, y1: int, x1: int, y2: int, x2: int)
    requires
        0 <= y1 < bayer_side(order),
        0 <= x1 < bayer_side(order),
        0 <= y2 < bayer_side(order),
        0 <= x2 < bayer_side(order),
        bayer_level(order, y1, x1) == bayer_level(order, y2, x2),
    ensures
        y1 == y2,
        x1 == x2,
    decreases order,
{
    if order == 0 {
        lemma2_to64();
    } else {
        let below = (order - 1) as nat;
        let half = bayer_side(below) as int;
        lemma_bayer_step(order);
        lemma_pow2_pos(below);
        assert(quadrant_offset(y1 >= half, x1 >= half) == quadrant_offset(y2 >= half, x2 >= half)
            && bayer_level(below, y1 % half, x1 % half) == bayer_level(
            below,
            y2 % half,
            x2 % half,
        ));
        lemma_bayer_levels_distinct(below, y1 % half, x1 % half, y2 % half, x2 % half);
        lemma_split_by_half(y1, half);
        lemma_split_by_half(y2, half);
        lemma_split_by_half(x1, half);
        lemma_split_by_half(x2, half);
    }
}

/// A coordinate below twice `half` is its remainder by `half`, plus `half`
/// when it lies in the upper range.
proof fn lemma_split_by_half(v: int, half: int)
    requires
        0 < half,
        0 <= v < 2 * half,
    ensures
        0 <= v % half < half,
        v == v % half + if v >= half {
            half
        } else {
            0
        },
{
    if v >= half {
        lemma_mod_sub_multiples_vanish(v, half);
        lemma_small_mod((v - half) as nat, half as nat);
    } else {
        lemma_small_mod(v as nat, half as nat);
    }
}

/// Sides and divisors up to `MAX_ORDER` fit the machine integers that hold
/// them.
pub proof fn lemma_bayer_sizes_fit(order: nat)
    requires
        order <= MAX_ORDER,
    ensures
        0 < bayer_side(order) <= 0x8000_0000,
        0 < bayer_divisor(order) <= 0x4000_0000_0000_0000,
{
    lemma2_to64();
    lemma2_to64_rest();
    lemma_pow2_pos(order);
    lemma_pow2_pos(2 * order);
    if order < 31 {
        lemma_pow2_strictly_increases(order, 31);
        lemma_pow2_strictly_increases(2 * order, 62);
    }
}

/// The threshold matrix of one order: a square of integer levels and the
/// divisor they share. The threshold of a cell is `level / divisor`.
pub struct BayerMatrix {
    order: u32,
    divisor: u64,
    levels: Vec<Vec<u64>>,
}

impl View for BayerMatrix {
    type V = Seq<Seq<nat>>;

    /// The levels, row by row.
    closed spec fn view(&self) -> Seq<Seq<nat>> {
        Seq::new(
            self.levels@.len(),
            |y: int| Seq::new(self.levels@[y]@.len(), |x: int| self.levels@[y]@[x] as nat),
        )
    }
}

impl BayerMatrix {
    #[verifier::type_invariant]
    closed spec fn well_formed(self) -> bool {
        &&& self.order <= MAX_ORDER
        &&& self.divisor == bayer_divisor(self.order as nat)
        &&& self.levels@.len() == bayer_side(self.order as nat)
        &&& forall|y: int|
            0 <= y < self.levels@.len() ==> (#[trigger] self.levels@[y])@.len() == bayer_side(
                self.order as nat,
            )
        &&& forall|y: int, x: int|
            0 <= y < self.levels@.len() && 0 <= x < self.levels@[y]@.len()
                ==> #[trigger] self.levels@[y]@[x] == bayer_level(self.order as nat, y, x)
    }

    /// The order the matrix was generated for.
    pub closed spec fn spec_order(&self) -> u32 {
        self.order
    }

    /// The divisor shared by all levels.
    pub closed spec fn spec_divisor(&self) -> u64 {
        self.divisor
    }

    /// The order the matrix was generated for.
    #[verifier::when_used_as_spec(spec_order)]
    pub fn order(&self) -> (order: u32)
        ensures
            order == self.spec_order(),
            order <= MAX_ORDER,
    {
        proof {
            use_type_invariant(self);
        }
        self.order
    }

    /// The divisor shared by all levels: `4^order`.
    #[verifier::when_used_as_spec(spec_divisor)]
    pub fn divisor(&self) -> (divisor: u64)
        ensures
            divisor == self.spec_divisor(),
            divisor == bayer_divisor(self.spec_order() as nat),
            divisor > 0,
    {
        proof {
            use_type_invariant(self);
            lemma_bayer_sizes_fit(self.order as nat);
        }
        self.divisor
    }

    /// The number of rows, which is also the number of columns: `2^order`.
    pub fn side(&self) -> (side: usize)
        ensures
            side == bayer_side(self.spec_order() as nat),
            side == self@.len(),
            side > 0,
    {
        proof {
            use_type_invariant(self);
            lemma_bayer_sizes_fit(self.order as nat);
        }
        self.levels.len()
    }

    /// The level at row `y`, column `x`, or `None` outside the matrix.
    pub fn level(&self, y: usize, x: usize) -> (found: Option<u64>)
        ensures
            found is Some <==> y < bayer_side(self.spec_order() as nat) && x < bayer_side(
                self.spec_order() as nat,
            ),
            found matches Some(level) ==> {
                &&& level == bayer_level(self.spec_order() as nat, y as int, x as int)
                &&& level == self@[y as int][x as int]
                &&& level < bayer_divisor(self.spec_order() as nat)
            },
    {
        proof {
            use_type_invariant(self);
            lemma_bayer_level_below_divisor(self.order as nat, y as int, x as int);
        }
        if y < self.levels.len() && x < self.levels[y].len() {
            Some(self.levels[y][x])
        } else {
            None
        }
    }

    /// The level that covers image row `row`, column `col` when the matrix
    /// is repeated across the plane: the level at `(row mod side, col mod side)`.
    pub fn tiled_level(&self, row: u32, col: u32) -> (level: u64)
        ensures
            level == tiled_level(self.spec_order() as nat, row as int, col as int),
            level < bayer_divisor(self.spec_order() as nat),
    {
        proof {
            use_type_invariant(self);
            lemma_bayer_sizes_fit(self.order as nat);
        }
        let side = self.levels.len();
        let y = row as usize % side;
        let x = col as usize % side;
        proof {
            lemma_bayer_level_below_divisor(self.order as nat, y as int, x as int);
        }
        self.levels[y][x]
    }
}

/// The offset of a quadrant, as a machine integer.
fn offset_of(lower: bool, right: bool) -> (offset: u64)
    ensures
        offset == quadrant_offset(lower, right),
{
    if lower {
        if right {
            1
        } else {
            3
        }
    } else {
        if right {
            2
        } else {
            0
        }
    }
}

/// One row of the matrix of order `smaller.order() + 1`.
fn next_order_row(smaller: &BayerMatrix, y: usize) -> (row: Vec<u64>)
    requires
        smaller.spec_order() < MAX_ORDER,
        y < 2 * bayer_side(smaller.spec_order() as nat),
    ensures
        row@.len() == bayer_side((smaller.spec_order() + 1) as nat),
        forall|x: int|
            0 <= x < row@.len() ==> #[trigger] row@[x] == bayer_level(
                (smaller.spec_order() + 1) as nat,
                y as int,
                x,
            ),
{
    let ghost order = (smaller.spec_order() + 1) as nat;
    let half = smaller.side();
    proof {
        lemma_bayer_step(order);
        lemma_bayer_sizes_fit(order);
    }
    let full = 2 * half;
    let mut row: Vec<u64> = Vec::new();
    let mut x: usize = 0;
    while x < full
        invariant
            order == smaller.spec_order() + 1,
            order <= MAX_ORDER,
            half == bayer_side(smaller.spec_order() as nat),
            half > 0,
            full == 2 * half,
            y < full,
            x <= full,
            row@.len() == x,
            forall|i: int| 0 <= i < x ==> #[trigger] row@[i] == bayer_level(order, y as int, i),
        decreases full - x,
    {
        let below = smaller.level(y % half, x % half).unwrap();
        proof {
            lemma_bayer_sizes_fit(smaller.spec_order() as nat);
        }
        row.push(4 * below + offset_of(y >= half, x >= half));
        x += 1;
    }
    row
}

/// Generates the threshold matrix of the given order.
///
/// Order 0 is the single level 0 with divisor 1. Order `n + 1` has twice the
/// side of order `n`: its four quadrants hold four times the levels of order
/// `n`, plus 0 (top left), 2 (top right), 3 (bottom left) and 1 (bottom
/// right), and its divisor is four times as large.
pub fn generate_bayer_matrix(order: u32) -> (matrix: BayerMatrix)
    requires
        order <= MAX_ORDER,
    ensures
        matrix.spec_order() == order,
        matrix.spec_divisor() == bayer_divisor(order as nat),
        matrix@ == bayer_levels(order as nat),
    decreases order,
{
    if order == 0 {
        let mut row: Vec<u64> = Vec::new();
        row.push(0);
        let mut levels: Vec<Vec<u64>> = Vec::new();
        levels.push(row);
        proof {
            lemma2_to64();
        }
        let matrix = BayerMatrix { order: 0, divisor: 1, levels };
        assert(matrix@ =~~= bayer_levels(0));
        return matrix;
    }
    let smaller = generate_bayer_matrix(order - 1);
    let half = smaller.side();
    proof {
        lemma_bayer_step(order as nat);
        lemma_bayer_sizes_fit(order as nat);
        lemma_bayer_sizes_fit((order - 1) as nat);
    }
    let full = 2 * half;
    let mut levels: Vec<Vec<u64>> = Vec::new();
    let mut y: usize = 0;
    while y < full
        invariant
            0 < order <= MAX_ORDER,
            smaller.spec_order() == order - 1,
            half == bayer_side((order - 1) as nat),
            full == 2 * half,
            full == bayer_side(order as nat),
            y <= full,
            levels@.len() == y,
            forall|j: int| 0 <= j < y ==> (#[trigger] levels@[j])@.len() == full,
            forall|j: int, i: int|
                0 <= j < y && 0 <= i < full ==> #[trigger] levels@[j]@[i] == bayer_level(
                    order as nat,
                    j,
                    i,
                ),
        decreases full - y,
    {
        let row = next_order_row(&smaller, y);
        levels.push(row);
        y += 1;
    }
    let matrix = BayerMatrix { order, divisor: 4 * smaller.divisor(), levels };
    assert(matrix@ =~~= bayer_levels(order as nat));
    matrix
}

} // verus!
