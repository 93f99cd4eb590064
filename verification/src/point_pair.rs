//! Spots on the imaging detector and the charge they stand for.
//!
//! Fragment ions of charge 1 to 5 land, after the analyser, in five discs of
//! radius 80 pixels centred at `x = 180` and `y = 833, 623, 414, 204, -6`. A spot
//! is given the charge of the disc it lies in, and charge 0 (invalid) outside
//! them all. The angle computed from a pair of spots is floating-point and is
//! computed outside this library; the integer quantities it starts from are
//! computed here.

use crate::numeral::{decimal_text, push_decimal};
use vstd::prelude::*;

verus! {

/// Width of the detector image in pixels (`x` runs over `0..DETECTOR_WIDTH`).
pub const DETECTOR_WIDTH: i16 = 400;

/// Height of the detector image in pixels (`y` runs over `0..DETECTOR_HEIGHT`).
pub const DETECTOR_HEIGHT: i16 = 1024;

/// Number of charge discs.
pub const CHARGE_REGIONS: usize = 5;

/// Square of the discs' radius.
pub const CHARGE_RADIUS_SQ: i64 = 6400;

/// Vertical offset, in pixels, between the images of successive charges.
pub const CHARGE_SHIFT: i16 = 210;

/// Centre `(x, y)` and charge of disc `i`.
pub open spec fn charge_disc(i: int) -> (int, int, int) {
    if i == 0 {
        (180, 833, 1)
    } else if i == 1 {
        (180, 623, 2)
    } else if i == 2 {
        (180, 414, 3)
    } else if i == 3 {
        (180, 204, 4)
    } else {
        (180, -6, 5)
    }
}

/// Whether the pixel `(x, y)` lies in disc `i` (border included).
pub open spec fn in_charge_disc(i: int, x: int, y: int) -> bool {
    let (cx, cy, _q) = charge_disc(i);
    (x - cx) * (x - cx) + (y - cy) * (y - cy) <= 6400
}

/// The charge given to `(x, y)` by the first `k` discs taken in order, a later
/// disc overriding an earlier one; 0 where none contains the pixel.
pub open spec fn charge_among(k: int, x: int, y: int) -> u8
    decreases k,
{
    if k <= 0 {
        0
    } else if in_charge_disc(k - 1, x, y) {
        charge_disc(k - 1).2 as u8
    } else {
        charge_among(k - 1, x, y)
    }
}

/// The charge of the pixel `(x, y)`.
pub open spec fn charge_at(x: int, y: int) -> u8 {
    charge_among(5, x, y)
}

fn disc(i: usize) -> (r: (i64, i64, u8))
    requires
        i < 5,
    ensures
        r.0 == charge_disc(i as int).0,
        r.1 == charge_disc(i as int).1,
        r.2 == charge_disc(i as int).2,
{
    if i == 0 {
        (180, 833, 1)
    } else if i == 1 {
        (180, 623, 2)
    } else if i == 2 {
        (180, 414, 3)
    } else if i == 3 {
        (180, 204, 4)
    } else {
        (180, -6, 5)
    }
}

/// A spot on the detector and its charge (0 where it lies in no disc).
pub struct Point {
    x: i16,
    y: i16,
    q: u8,
}

impl Point {
    #[verifier::type_invariant]
    spec fn well_formed(self) -> bool {
        &&& 0 <= self.x < 400
        &&& 0 <= self.y < 1024
        &&& self.q == charge_at(self.x as int, self.y as int)
    }

    /// The spot's column.
    pub closed spec fn spec_x(self) -> i16 {
        self.x
    }

    /// The spot's row.
    pub closed spec fn spec_y(self) -> i16 {
        self.y
    }

    /// The spot's charge.
    pub closed spec fn spec_q(self) -> u8 {
        self.q
    }

    /// The spot at `(x, y)` with the charge of the disc it lies in.
    pub fn new(x: i16, y: i16) -> (r: Point)
        requires
            0 <= x < 400,
            0 <= y < 1024,
        ensures
            r.spec_x() == x,
            r.spec_y() == y,
            r.spec_q() == charge_at(x as int, y as int),
    {
        let mut q: u8 = 0;
        let mut i: usize = 0;
        while i < 5
            invariant
                i <= 5,
                0 <= x < 400,
                0 <= y < 1024,
                q == charge_among(i as int, x as int, y as int),
            decreases 5 - i,
        {
            let (cx, cy, cq) = disc(i);
            let dx: i64 = x as i64 - cx;
            let dy: i64 = y as i64 - cy;
            assert(0 <= dx * dx <= 1_000_000 && 0 <= dy * dy <= 2_000_000) by (nonlinear_arith)
                requires
                    -1000 <= dx <= 1000,
                    -1100 <= dy <= 1100,
            ;
            if dx * dx + dy * dy <= CHARGE_RADIUS_SQ {
                q = cq;
            }
            i = i + 1;
        }
        Point { x, y, q }
    }

    /// Whether the spot lies in a charge disc.
    pub fn valid(&self) -> (r: bool)
        ensures
            r == (self.spec_q() != 0),
    {
        self.q != 0
    }

    /// The spot's column.
    pub fn x(&self) -> (r: i16)
        ensures
            r == self.spec_x(),
    {
        self.x
    }

    /// The spot's row.
    pub fn y(&self) -> (r: i16)
        ensures
            r == self.spec_y(),
    {
        self.y
    }

    /// The spot's charge.
    pub fn charge(&self) -> (r: u8)
        ensures
            r == self.spec_q(),
    {
        self.q
    }

    /// The row of the spot moved back by `210` pixels per unit of charge, so
    /// that the images of all charges share one frame.
    pub fn shifted_y(&self) -> (r: i16)
        ensures
            r == self.spec_y() + self.spec_q() * 210,
    {
        proof {
            use_type_invariant(self);
            lemma_charge_at_most_five(self.x as int, self.y as int);
        }
        self.y + (self.q as i16) * CHARGE_SHIFT
    }

    /// The squared distance between two spots in the common frame: the
    /// quantity whose square root the angle of the pair is computed from.
    pub fn separation_sq(&self, other: &Point) -> (r: i64)
        ensures
            r == (self.spec_x() - other.spec_x()) * (self.spec_x() - other.spec_x()) + (
            (self.spec_y() + self.spec_q() * 210) - (other.spec_y() + other.spec_q() * 210)) * (
            (self.spec_y() + self.spec_q() * 210) - (other.spec_y() + other.spec_q() * 210)),
    {
        proof {
            use_type_invariant(self);
            use_type_invariant(other);
            lemma_charge_at_most_five(self.x as int, self.y as int);
            lemma_charge_at_most_five(other.x as int, other.y as int);
        }
        let sy = self.shifted_y();
        let oy = other.shifted_y();
        let dx: i64 = self.x as i64 - other.x as i64;
        let dy: i64 = sy as i64 - oy as i64;
        assert(0 <= dx * dx <= 1_000_000 && 0 <= dy * dy <= 10_000_000) by (nonlinear_arith)
            requires
                -1000 <= dx <= 1000,
                -3100 <= dy <= 3100,
        ;
        dx * dx + dy * dy
    }
}

/// `width - len(s)` spaces and then `s`; `s` alone when it is that long
/// already (right alignment, as `{: >width}` writes it).
pub open spec fn right_aligned(s: Seq<char>, width: int) -> Seq<char> {
    if s.len() < width {
        Seq::new((width - s.len()) as nat, |i: int| ' ') + s
    } else {
        s
    }
}

/// The text of a spot: `(x, y) q=charge`, the column right-aligned in three
/// characters and the row in four.
pub open spec fn point_text(x: int, y: int, q: int) -> Seq<char> {
    seq!['('] + right_aligned(decimal_text(x as nat), 3) + seq![',', ' '] + right_aligned(
        decimal_text(y as nat),
        4,
    ) + seq![')', ' ', 'q', '='] + decimal_text(q as nat)
}

/// Appends `s` right-aligned in `width` characters to `out`.
fn push_right_aligned(out: &mut String, s: &str, width: usize)
    ensures
        final(out)@ == old(out)@ + right_aligned(s@, width as int),
{
    let n = crate::numeral::chars_of(s).len();
    let mut k: usize = n;
    let ghost start = out@;
    assert(out@ =~= start + Seq::new(0, |i: int| ' '));
    while k < width
        invariant
            n == s@.len(),
            n <= k,
            k <= width || k == n,
            out@ == start + Seq::new((k - n) as nat, |i: int| ' '),
        decreases width - k,
    {
        proof {
            reveal_strlit(" ");
        }
        out.append(" ");
        k = k + 1;
        assert(out@ =~= start + Seq::new((k - n) as nat, |i: int| ' '));
    }
    out.append(s);
    assert(out@ =~= start + right_aligned(s@, width as int));
}

impl Point {
    /// The spot as text, e.g. `(180,  833) q=1`.
    pub fn to_text(&self) -> (r: String)
        ensures
            r@ == point_text(self.spec_x() as int, self.spec_y() as int, self.spec_q() as int),
    {
        proof {
            use_type_invariant(self);
            reveal_strlit("(");
            reveal_strlit(", ");
            reveal_strlit(") q=");
        }
        let mut xs = String::new();
        push_decimal(&mut xs, self.x as u64);
        let mut ys = String::new();
        push_decimal(&mut ys, self.y as u64);
        let mut out = String::new();
        out.append("(");
        push_right_aligned(&mut out, xs.as_str(), 3);
        out.append(", ");
        push_right_aligned(&mut out, ys.as_str(), 4);
        out.append(") q=");
        push_decimal(&mut out, self.q as u64);
        out
    }
}

/// A charge is between 0 and 5.
proof fn lemma_charge_at_most_five(x: int, y: int)
    ensures
        charge_at(x, y) <= 5,
{
    reveal_with_fuel(charge_among, 6);
}

/// A square no larger than the discs' squared radius bounds its root by the radius.
proof fn lemma_square_within_radius(a: int)
    requires
        a * a <= 6400,
    ensures
        -80 <= a <= 80,
{
    if a > 80 {
        assert(a * a > 6400) by (nonlinear_arith)
            requires
                a > 80,
        ;
    }
    if a < -80 {
        assert(a * a > 6400) by (nonlinear_arith)
            requires
                a < -80,
        ;
    }
}

/// No pixel lies in two charge discs.
pub proof fn lemma_charge_discs_disjoint(i: int, j: int, x: int, y: int)
    requires
        0 <= i < j < 5,
    ensures
        !(in_charge_disc(i, x, y) && in_charge_disc(j, x, y)),
{
    if in_charge_disc(i, x, y) && in_charge_disc(j, x, y) {
        let (cxi, cyi, _qi) = charge_disc(i);
        let (cxj, cyj, _qj) = charge_disc(j);
        assert(0 <= (x - cxi) * (x - cxi)) by (nonlinear_arith);
        assert(0 <= (x - cxj) * (x - cxj)) by (nonlinear_arith);
        lemma_square_within_radius(y - cyi);
        lemma_square_within_radius(y - cyj);
    }
}

/// A pixel has charge `k + 1` exactly when it lies in disc `k`, and charge 0
/// (an invalid spot) exactly when it lies in no disc.
pub proof fn lemma_charge_is_disc(x: int, y: int)
    ensures
        forall|k: int| 0 <= k < 5 ==> (charge_at(x, y) == k + 1 <==> #[trigger] in_charge_disc(k, x, y)),
        charge_at(x, y) == 0 <==> (forall|k: int| 0 <= k < 5 ==> !#[trigger] in_charge_disc(k, x, y)),
{
    reveal_with_fuel(charge_among, 6);
    assert forall|k: int| 0 <= k < 5 implies (charge_at(x, y) == k + 1 <==> #[trigger] in_charge_disc(k, x, y)) by {
        lemma_charge_discs_disjoint(0, 1, x, y);
        lemma_charge_discs_disjoint(0, 2, x, y);
        lemma_charge_discs_disjoint(0, 3, x, y);
        lemma_charge_discs_disjoint(0, 4, x, y);
        lemma_charge_discs_disjoint(1, 2, x, y);
        lemma_charge_discs_disjoint(1, 3, x, y);
        lemma_charge_discs_disjoint(1, 4, x, y);
        lemma_charge_discs_disjoint(2, 3, x, y);
        lemma_charge_discs_disjoint(2, 4, x, y);
        lemma_charge_discs_disjoint(3, 4, x, y);
    }
    if charge_at(x, y) == 0 {
        assert forall|k: int| 0 <= k < 5 implies !#[trigger] in_charge_disc(k, x, y) by {
            assert(charge_at(x, y) != k + 1);
        }
    }
}

/// The charge of a pixel: `k` when the pixel lies within 80 pixels of the
/// centre `(180, 833)`, `(180, 623)`, `(180, 414)`, `(180, 204)` or `(180, -6)`
/// of disc `k = 1..=5`, and 0 when it lies within none of them.
pub proof fn lemma_charge_of_pixel(x: int, y: int)
    ensures
        charge_at(x, y) == 1 <==> (x - 180) * (x - 180) + (y - 833) * (y - 833) <= 6400,
        charge_at(x, y) == 2 <==> (x - 180) * (x - 180) + (y - 623) * (y - 623) <= 6400,
        charge_at(x, y) == 3 <==> (x - 180) * (x - 180) + (y - 414) * (y - 414) <= 6400,
        charge_at(x, y) == 4 <==> (x - 180) * (x - 180) + (y - 204) * (y - 204) <= 6400,
        charge_at(x, y) == 5 <==> (x - 180) * (x - 180) + (y + 6) * (y + 6) <= 6400,
        charge_at(x, y) == 0 <==> {
            &&& (x - 180) * (x - 180) + (y - 833) * (y - 833) > 6400
            &&& (x - 180) * (x - 180) + (y - 623) * (y - 623) > 6400
            &&& (x - 180) * (x - 180) + (y - 414) * (y - 414) > 6400
            &&& (x - 180) * (x - 180) + (y - 204) * (y - 204) > 6400
            &&& (x - 180) * (x - 180) + (y + 6) * (y + 6) > 6400
        },
{
    lemma_charge_is_disc(x, y);
    assert(in_charge_disc(0, x, y) == ((x - 180) * (x - 180) + (y - 833) * (y - 833) <= 6400));
    assert(in_charge_disc(1, x, y) == ((x - 180) * (x - 180) + (y - 623) * (y - 623) <= 6400));
    assert(in_charge_disc(2, x, y) == ((x - 180) * (x - 180) + (y - 414) * (y - 414) <= 6400));
    assert(in_charge_disc(3, x, y) == ((x - 180) * (x - 180) + (y - 204) * (y - 204) <= 6400));
    assert(in_charge_disc(4, x, y) == ((x - 180) * (x - 180) + (y + 6) * (y + 6) <= 6400));
}

/// Right alignment pads with spaces in front to the width and keeps the text
/// as the end of the result.
pub proof fn lemma_right_aligned(s: Seq<char>, width: int)
    ensures
        right_aligned(s, width).len() == if s.len() < width { width } else { s.len() as int },
        right_aligned(s, width).subrange(right_aligned(s, width).len() - s.len(), right_aligned(s, width).len() as int) == s,
        forall|i: int| 0 <= i < right_aligned(s, width).len() - s.len() ==> #[trigger] right_aligned(s, width)[i] == ' ',
{
    let r = right_aligned(s, width);
    assert(r.subrange(r.len() - s.len(), r.len() as int) =~= s);
}

} // verus!
