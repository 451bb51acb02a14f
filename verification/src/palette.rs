use crate::color::Color;
use vstd::prelude::*;

verus! {

/// Squared Euclidean distance between two colours: the sum over the three
/// channels of the squared difference.
pub open spec fn squared_distance(a: Color, b: Color) -> int {
    (a.r - b.r) * (a.r - b.r) + (a.g - b.g) * (a.g - b.g) + (a.b - b.b) * (a.b - b.b)
}

/// Largest distance between two colours: black to white.
pub const MAX_DISTANCE: u32 = 195075;

/// Whether `i` is the first position of `palette` whose colour is nearest to
/// `pixel`: no entry is nearer, and every earlier entry is farther.
pub open spec fn is_nearest_index(pixel: Color, palette: Seq<Color>, i: int) -> bool {
    &&& 0 <= i < palette.len()
    &&& forall|j: int|
        0 <= j < palette.len() ==> squared_distance(pixel, palette[i]) <= squared_distance(
            pixel,
            #[trigger] palette[j],
        )
    &&& forall|j: int|
        0 <= j < i ==> squared_distance(pixel, palette[i]) < squared_distance(
            pixel,
            #[trigger] palette[j],
        )
}

/// The first position of `palette` whose colour is nearest to `pixel`.
pub open spec fn nearest_index(pixel: Color, palette: Seq<Color>) -> int {
    choose|i: int| is_nearest_index(pixel, palette, i)
}

/// The colour of `palette` nearest to `pixel`; among equally near entries,
/// the one that comes first.
pub open spec fn nearest_color(pixel: Color, palette: Seq<Color>) -> Color {
    palette[nearest_index(pixel, palette)]
}

/// The eight fixed colours, in their fixed order: black, white, red, green,
/// blue, yellow, magenta, cyan.
pub open spec fn fixed_palette() -> Seq<Color> {
    seq![
        Color { r: 0, g: 0, b: 0 },
        Color { r: 255, g: 255, b: 255 },
        Color { r: 255, g: 0, b: 0 },
        Color { r: 0, g: 255, b: 0 },
        Color { r: 0, g: 0, b: 255 },
        Color { r: 255, g: 255, b: 0 },
        Color { r: 255, g: 0, b: 255 },
        Color { r: 0, g: 255, b: 255 },
    ]
}

/// A square of a channel difference is at most `255 * 255`.
proof fn lemma_square_bound(d: int)
    requires
        -255 <= d <= 255,
    ensures
        0 <= d * d <= 65025,
{
    assert(0 <= d * d <= 65025) by (nonlinear_arith)
        requires
            -255 <= d <= 255,
    ;
}

/// A distance is never negative and never above `MAX_DISTANCE`.
pub proof fn lemma_distance_bounds(a: Color, b: Color)
    ensures
        0 <= squared_distance(a, b) <= MAX_DISTANCE,
{
    lemma_square_bound(a.r - b.r);
    lemma_square_bound(a.g - b.g);
    lemma_square_bound(a.b - b.b);
}

/// The distance from `a` to `b` is the distance from `b` to `a`.
pub proof fn lemma_distance_symmetric(a: Color, b: Color)
    ensures
        squared_distance(a, b) == squared_distance(b, a),
{
    assert((a.r - b.r) * (a.r - b.r) == (b.r - a.r) * (b.r - a.r)) by (nonlinear_arith);
    assert((a.g - b.g) * (a.g - b.g) == (b.g - a.g) * (b.g - a.g)) by (nonlinear_arith);
    assert((a.b - b.b) * (a.b - b.b) == (b.b - a.b) * (b.b - a.b)) by (nonlinear_arith);
}

/// The distance is zero exactly between a colour and itself.
pub proof fn lemma_distance_zero_iff_equal(a: Color, b: Color)
    ensures
        squared_distance(a, b) == 0 <==> a == b,
{
    let dr = a.r - b.r;
    let dg = a.g - b.g;
    let db = a.b - b.b;
    lemma_square_bound(dr);
    lemma_square_bound(dg);
    lemma_square_bound(db);
    assert(dr * dr == 0 <==> dr == 0) by (nonlinear_arith);
    assert(dg * dg == 0 <==> dg == 0) by (nonlinear_arith);
    assert(db * db == 0 <==> db == 0) by (nonlinear_arith);
}

/// Squared distance between two colours.
pub fn color_distance(c1: Color, c2: Color) -> (distance: u32)
    ensures
        distance == squared_distance(c1, c2),
        distance <= MAX_DISTANCE,
{
    let dr: i32 = c1.r as i32 - c2.r as i32;
    let dg: i32 = c1.g as i32 - c2.g as i32;
    let db: i32 = c1.b as i32 - c2.b as i32;
    proof {
        lemma_square_bound(dr as int);
        lemma_square_bound(dg as int);
        lemma_square_bound(db as int);
    }
    (dr * dr + dg * dg + db * db) as u32
}

/// The colour of `palette` nearest to `pixel`. The palette is scanned in
/// order and an entry replaces the best one so far only when it is strictly
/// nearer, so among equally near entries the first wins.
pub fn find_closest_color(pixel: Color, palette: &[Color]) -> (closest: Color)
    requires
        palette@.len() > 0,
    ensures
        is_nearest_index(pixel, palette@, nearest_index(pixel, palette@)),
        closest == nearest_color(pixel, palette@),
{
    let mut closest_color = palette[0];
    let mut smallest_distance = u32::MAX;
    let ghost mut best: int = 0;
    let mut i: usize = 0;
    while i < palette.len()
        invariant
            i <= palette@.len(),
            palette@.len() > 0,
            i == 0 ==> smallest_distance == u32::MAX && best == 0,
            i > 0 ==> 0 <= best < i && smallest_distance == squared_distance(
                pixel,
                palette@[best],
            ),
            closest_color == palette@[best],
            forall|j: int|
                0 <= j < i ==> smallest_distance <= squared_distance(
                    pixel,
                    #[trigger] palette@[j],
                ),
            forall|j: int|
                0 <= j < best ==> smallest_distance < squared_distance(
                    pixel,
                    #[trigger] palette@[j],
                ),
        decreases palette@.len() - i,
    {
        let color = palette[i];
        let distance = color_distance(pixel, color);
        if distance < smallest_distance {
            smallest_distance = distance;
            closest_color = color;
            proof {
                best = i as int;
            }
        }
        i += 1;
    }
    proof {
        assert(is_nearest_index(pixel, palette@, best));
        lemma_nearest_index_unique(pixel, palette@, best, nearest_index(pixel, palette@));
    }
    closest_color
}

/// At most one position is the first nearest one.
pub proof fn lemma_nearest_index_unique(pixel: Color, palette: Seq<Color>, i: int, k: int)
    requires
        is_nearest_index(pixel, palette, i),
        is_nearest_index(pixel, palette, k),
    ensures
        i == k,
{
    if i < k {
        assert(squared_distance(pixel, palette[k]) < squared_distance(pixel, palette[i]));
        assert(squared_distance(pixel, palette[i]) <= squared_distance(pixel, palette[k]));
    } else if k < i {
        assert(squared_distance(pixel, palette[i]) < squared_distance(pixel, palette[k]));
        assert(squared_distance(pixel, palette[k]) <= squared_distance(pixel, palette[i]));
    }
}

/// The eight fixed colours, in their fixed order.
pub fn palette() -> (colors: Vec<Color>)
    ensures
        colors@ == fixed_palette(),
{
    let mut colors: Vec<Color> = Vec::new();
    colors.push(Color { r: 0, g: 0, b: 0 });
    colors.push(Color { r: 255, g: 255, b: 255 });
    colors.push(Color { r: 255, g: 0, b: 0 });
    colors.push(Color { r: 0, g: 255, b: 0 });
    colors.push(Color { r: 0, g: 0, b: 255 });
    colors.push(Color { r: 255, g: 255, b: 0 });
    colors.push(Color { r: 255, g: 0, b: 255 });
    colors.push(Color { r: 0, g: 255, b: 255 });
    assert(colors@ =~= fixed_palette());
    colors
}

/// The first nearest position among the first `n` entries.
proof fn lemma_first_nearest_of_prefix(pixel: Color, palette: Seq<Color>, n: int) -> (k: int)
    requires
        0 < n <= palette.len(),
    ensures
        is_nearest_index(pixel, palette.take(n), k),
    decreases n,
{
    if n == 1 {
        0
    } else {
        let before = lemma_first_nearest_of_prefix(pixel, palette, n - 1);
        let shorter = palette.take(n - 1);
        let longer = palette.take(n);
        assert forall|j: int| 0 <= j < n - 1 implies #[trigger] longer[j] == shorter[j] by {}
        if squared_distance(pixel, longer[n - 1]) < squared_distance(pixel, shorter[before]) {
            assert forall|j: int| 0 <= j < n - 1 implies squared_distance(pixel, longer[n - 1])
                < squared_distance(pixel, #[trigger] longer[j]) by {
                assert(squared_distance(pixel, shorter[before]) <= squared_distance(
                    pixel,
                    shorter[j],
                ));
            }
            n - 1
        } else {
            assert forall|j: int| 0 <= j < n implies squared_distance(pixel, longer[before])
                <= squared_distance(pixel, #[trigger] longer[j]) by {
                if j < n - 1 {
                    assert(squared_distance(pixel, shorter[before]) <= squared_distance(
                        pixel,
                        shorter[j],
                    ));
                }
            }
            assert forall|j: int| 0 <= j < before implies squared_distance(pixel, longer[before])
                < squared_distance(pixel, #[trigger] longer[j]) by {
                assert(squared_distance(pixel, shorter[before]) < squared_distance(
                    pixel,
                    shorter[j],
                ));
            }
            before
        }
    }
}

/// Every palette with at least one entry has a first nearest position, and
/// `nearest_index` is that position.
pub proof fn lemma_nearest_index_exists(pixel: Color, palette: Seq<Color>)
    requires
        palette.len() > 0,
    ensures
        is_nearest_index(pixel, palette, nearest_index(pixel, palette)),
{
    let k = lemma_first_nearest_of_prefix(pixel, palette, palette.len() as int);
    assert(palette.take(palette.len() as int) =~= palette);
    assert(is_nearest_index(pixel, palette, k));
}

/// The nearest colour is always one of the palette's entries.
pub proof fn lemma_nearest_color_in_palette(pixel: Color, palette: Seq<Color>)
    requires
        palette.len() > 0,
    ensures
        palette.contains(nearest_color(pixel, palette)),
{
    lemma_nearest_index_exists(pixel, palette);
    let i = nearest_index(pixel, palette);
    assert(palette[i] == nearest_color(pixel, palette));
}

/// Among two entries at the same distance from the pixel, the later one is
/// never the one chosen.
pub proof fn lemma_nearest_prefers_earlier(pixel: Color, palette: Seq<Color>, i: int, j: int)
    requires
        0 <= i < j < palette.len(),
        squared_distance(pixel, palette[i]) == squared_distance(pixel, palette[j]),
    ensures
        nearest_index(pixel, palette) != j,
{
    lemma_nearest_index_exists(pixel, palette);
    if nearest_index(pixel, palette) == j {
        assert(squared_distance(pixel, palette[j]) < squared_distance(pixel, palette[i]));
    }
}

/// A colour of the palette is its own nearest colour.
pub proof fn lemma_nearest_of_entry(palette: Seq<Color>, i: int)
    requires
        0 <= i < palette.len(),
    ensures
        nearest_color(palette[i], palette) == palette[i],
{
    let entry = palette[i];
    lemma_nearest_index_exists(entry, palette);
    let k = nearest_index(entry, palette);
    lemma_distance_zero_iff_equal(entry, entry);
    lemma_distance_bounds(entry, palette[k]);
    assert(squared_distance(entry, palette[k]) <= squared_distance(entry, palette[i]));
    lemma_distance_zero_iff_equal(entry, palette[k]);
}

/// Mapping a colour to the palette twice gives what mapping it once gives.
pub proof fn lemma_nearest_color_idempotent(pixel: Color, palette: Seq<Color>)
    requires
        palette.len() > 0,
    ensures
        nearest_color(nearest_color(pixel, palette), palette) == nearest_color(pixel, palette),
{
    lemma_nearest_index_exists(pixel, palette);
    lemma_nearest_of_entry(palette, nearest_index(pixel, palette));
}

} // verus!
