//! Affine transformations as 4x4 matrices.

use vstd::prelude::*;
use vstd::std_specs::cmp::PartialEqSpecImpl;
use crate::scalar::{Scalar, ZERO, ONE};
use crate::tuples::{Tuple, dot};

verus! {

/// A 4x4 matrix, held as its four rows.
#[derive(Clone, Copy, Debug)]
pub struct Transformation {
    pub r0: Tuple,
    pub r1: Tuple,
    pub r2: Tuple,
    pub r3: Tuple,
}

/// The error of `inverse`: the determinant is zero.
#[derive(Clone, Copy, Debug, PartialEq, Eq)]
pub struct SingularMatrix;

impl PartialEq for Transformation {
    /// Equality of the sixteen entries as numbers.
    fn eq(&self, other: &Transformation) -> (r: bool) {
        self.r0 == other.r0 && self.r1 == other.r1 && self.r2 == other.r2 && self.r3 == other.r3
    }
}

impl PartialEqSpecImpl for Transformation {
    open spec fn obeys_eq_spec() -> bool {
        true
    }

    open spec fn eq_spec(&self, other: &Transformation) -> bool {
        self.equals(*other)
    }
}

/// The row `(a, b, c, d)`.
pub open spec fn row_of(a: Scalar, b: Scalar, c: Scalar, d: Scalar) -> Tuple {
    Tuple { x: a, y: b, z: c, w: d }
}

/// The index of what is left at place `k` when the index `gone` is struck
/// out.
pub open spec fn skip(k: int, gone: int) -> int {
    if k < gone {
        k
    } else {
        k + 1
    }
}

/// The matrix that changes nothing.
pub open spec fn identity_matrix() -> Transformation {
    let o = Scalar { bits: ZERO };
    let i = Scalar { bits: ONE };
    Transformation {
        r0: row_of(i, o, o, o),
        r1: row_of(o, i, o, o),
        r2: row_of(o, o, i, o),
        r3: row_of(o, o, o, i),
    }
}

/// The identity with `(x, y, z)` in the last column.
pub open spec fn translation_matrix(x: Scalar, y: Scalar, z: Scalar) -> Transformation {
    let o = Scalar { bits: ZERO };
    let i = Scalar { bits: ONE };
    Transformation {
        r0: row_of(i, o, o, x),
        r1: row_of(o, i, o, y),
        r2: row_of(o, o, i, z),
        r3: row_of(o, o, o, i),
    }
}

/// The diagonal `(x, y, z, 1)`.
pub open spec fn scale_matrix(x: Scalar, y: Scalar, z: Scalar) -> Transformation {
    let o = Scalar { bits: ZERO };
    let i = Scalar { bits: ONE };
    Transformation {
        r0: row_of(x, o, o, o),
        r1: row_of(o, y, o, o),
        r2: row_of(o, o, z, o),
        r3: row_of(o, o, o, i),
    }
}

/// The rotation about the x axis by the angle with the given cosine and
/// sine.
pub open spec fn rotate_x_matrix(cosine: Scalar, sine: Scalar) -> Transformation {
    let o = Scalar { bits: ZERO };
    let i = Scalar { bits: ONE };
    Transformation {
        r0: row_of(i, o, o, o),
        r1: row_of(o, cosine, sine.negated(), o),
        r2: row_of(o, sine, cosine, o),
        r3: row_of(o, o, o, i),
    }
}

/// The rotation about the y axis by the angle with the given cosine and
/// sine.
pub open spec fn rotate_y_matrix(cosine: Scalar, sine: Scalar) -> Transformation {
    let o = Scalar { bits: ZERO };
    let i = Scalar { bits: ONE };
    Transformation {
        r0: row_of(cosine, o, sine, o),
        r1: row_of(o, i, o, o),
        r2: row_of(sine.negated(), o, cosine, o),
        r3: row_of(o, o, o, i),
    }
}

/// The rotation about the z axis by the angle with the given cosine and
/// sine.
pub open spec fn rotate_z_matrix(cosine: Scalar, sine: Scalar) -> Transformation {
    let o = Scalar { bits: ZERO };
    let i = Scalar { bits: ONE };
    Transformation {
        r0: row_of(cosine, sine.negated(), o, o),
        r1: row_of(sine, cosine, o, o),
        r2: row_of(o, o, i, o),
        r3: row_of(o, o, o, i),
    }
}

/// The shear that moves each coordinate in proportion to the two others.
pub open spec fn shearing_matrix(
    xy: Scalar,
    xz: Scalar,
    yx: Scalar,
    yz: Scalar,
    zx: Scalar,
    zy: Scalar,
) -> Transformation {
    let o = Scalar { bits: ZERO };
    let i = Scalar { bits: ONE };
    Transformation {
        r0: row_of(i, xy, xz, o),
        r1: row_of(yx, i, yz, o),
        r2: row_of(zx, zy, i, o),
        r3: row_of(o, o, o, i),
    }
}

/// `a * d - b * c`.
pub open spec fn det2(a: Scalar, b: Scalar, c: Scalar, d: Scalar) -> Scalar {
    a.times(d).minus(b.times(c))
}

impl Transformation {
    /// The sixteen entries are equal as numbers.
    pub open spec fn equals(self, other: Transformation) -> bool {
        self.r0.equals(other.r0) && self.r1.equals(other.r1) && self.r2.equals(other.r2)
            && self.r3.equals(other.r3)
    }

    /// The row with the given index, the last for 3 and beyond.
    pub open spec fn row(self, i: int) -> Tuple {
        if i == 0 {
            self.r0
        } else if i == 1 {
            self.r1
        } else if i == 2 {
            self.r2
        } else {
            self.r3
        }
    }

    /// The entry in row `i` and column `j`.
    pub open spec fn entry(self, i: int, j: int) -> Scalar {
        self.row(i).component(j)
    }

    /// The column with the given index, the last for 3 and beyond.
    pub open spec fn column(self, j: int) -> Tuple {
        row_of(self.entry(0, j), self.entry(1, j), self.entry(2, j), self.entry(3, j))
    }

    /// Rows and columns exchanged.
    pub open spec fn transposed(self) -> Transformation {
        Transformation {
            r0: self.column(0),
            r1: self.column(1),
            r2: self.column(2),
            r3: self.column(3),
        }
    }

    /// A row of the matrix product: the row times each column of `other`.
    pub open spec fn row_times(self, i: int, other: Transformation) -> Tuple {
        row_of(
            self.row(i).dot(other.column(0)),
            self.row(i).dot(other.column(1)),
            self.row(i).dot(other.column(2)),
            self.row(i).dot(other.column(3)),
        )
    }

    /// The matrix product `self * other`: the transformation that applies
    /// `other` first.
    pub open spec fn composed(self, other: Transformation) -> Transformation {
        Transformation {
            r0: self.row_times(0, other),
            r1: self.row_times(1, other),
            r2: self.row_times(2, other),
            r3: self.row_times(3, other),
        }
    }

    /// The entry at `(r, c)` of what is left when row `i` and column `j`
    /// are struck out.
    pub open spec fn rest(self, i: int, j: int, r: int, c: int) -> Scalar {
        self.entry(skip(r, i), skip(c, j))
    }

    /// The determinant of what is left when row `i` and column `j` are
    /// struck out, expanded along its first row.
    pub open spec fn minor(self, i: int, j: int) -> Scalar {
        self.rest(i, j, 0, 0).times(
            det2(
                self.rest(i, j, 1, 1),
                self.rest(i, j, 1, 2),
                self.rest(i, j, 2, 1),
                self.rest(i, j, 2, 2),
            ),
        ).minus(
            self.rest(i, j, 0, 1).times(
                det2(
                    self.rest(i, j, 1, 0),
                    self.rest(i, j, 1, 2),
                    self.rest(i, j, 2, 0),
                    self.rest(i, j, 2, 2),
                ),
            ),
        ).plus(
            self.rest(i, j, 0, 2).times(
                det2(
                    self.rest(i, j, 1, 0),
                    self.rest(i, j, 1, 1),
                    self.rest(i, j, 2, 0),
                    self.rest(i, j, 2, 1),
                ),
            ),
        )
    }

    /// The minor with the sign of its place.
    pub open spec fn cofactor(self, i: int, j: int) -> Scalar {
        if (i + j) % 2 == 0 {
            self.minor(i, j)
        } else {
            self.minor(i, j).negated()
        }
    }

    /// The determinant, expanded along the first row.
    pub open spec fn determinant_value(self) -> Scalar {
        self.entry(0, 0).times(self.cofactor(0, 0)).plus(
            self.entry(0, 1).times(self.cofactor(0, 1)),
        ).plus(self.entry(0, 2).times(self.cofactor(0, 2))).plus(
            self.entry(0, 3).times(self.cofactor(0, 3)),
        )
    }

    /// The determinant is zero: there is no inverse.
    pub open spec fn is_singular(self) -> bool {
        self.determinant_value().equals(Scalar { bits: ZERO })
    }

    /// A row of the inverse: the cofactors of column `i` over the
    /// determinant.
    pub open spec fn inverted_row(self, i: int) -> Tuple {
        let d = self.determinant_value();
        row_of(
            self.cofactor(0, i).over(d),
            self.cofactor(1, i).over(d),
            self.cofactor(2, i).over(d),
            self.cofactor(3, i).over(d),
        )
    }

    /// The inverse by cofactors: the entry at `(i, j)` is the cofactor at
    /// `(j, i)` over the determinant.
    pub open spec fn inverted(self) -> Transformation {
        Transformation {
            r0: self.inverted_row(0),
            r1: self.inverted_row(1),
            r2: self.inverted_row(2),
            r3: self.inverted_row(3),
        }
    }

    /// The entry in row `i` and column `j`.
    pub fn get(&self, i: usize, j: usize) -> (r: Scalar)
        requires
            i < 4,
            j < 4,
        ensures
            r == self.entry(i as int, j as int),
    {
        let row = if i == 0 {
            &self.r0
        } else if i == 1 {
            &self.r1
        } else if i == 2 {
            &self.r2
        } else {
            &self.r3
        };
        if j == 0 {
            row.x
        } else if j == 1 {
            row.y
        } else if j == 2 {
            row.z
        } else {
            row.w
        }
    }

    fn get_column(&self, j: usize) -> (r: Tuple)
        requires
            j < 4,
        ensures
            r == self.column(j as int),
    {
        Tuple { x: self.get(0, j), y: self.get(1, j), z: self.get(2, j), w: self.get(3, j) }
    }

    /// The matrix with rows and columns exchanged.
    pub fn transpose(&self) -> (r: Transformation)
        ensures
            r == self.transposed(),
    {
        Transformation {
            r0: self.get_column(0),
            r1: self.get_column(1),
            r2: self.get_column(2),
            r3: self.get_column(3),
        }
    }

    /// The matrix product `self * other`.
    pub fn compose(&self, other: &Transformation) -> (r: Transformation)
        ensures
            r == self.composed(*other),
    {
        let c0 = other.get_column(0);
        let c1 = other.get_column(1);
        let c2 = other.get_column(2);
        let c3 = other.get_column(3);
        Transformation {
            r0: Tuple {
                x: dot(&self.r0, &c0),
                y: dot(&self.r0, &c1),
                z: dot(&self.r0, &c2),
                w: dot(&self.r0, &c3),
            },
            r1: Tuple {
                x: dot(&self.r1, &c0),
                y: dot(&self.r1, &c1),
                z: dot(&self.r1, &c2),
                w: dot(&self.r1, &c3),
            },
            r2: Tuple {
                x: dot(&self.r2, &c0),
                y: dot(&self.r2, &c1),
                z: dot(&self.r2, &c2),
                w: dot(&self.r2, &c3),
            },
            r3: Tuple {
                x: dot(&self.r3, &c0),
                y: dot(&self.r3, &c1),
                z: dot(&self.r3, &c2),
                w: dot(&self.r3, &c3),
            },
        }
    }

    fn get_rest(&self, i: usize, j: usize, r: usize, c: usize) -> (e: Scalar)
        requires
            i < 4,
            j < 4,
            r < 3,
            c < 3,
        ensures
            e == self.rest(i as int, j as int, r as int, c as int),
    {
        let row = if r < i {
            r
        } else {
            r + 1
        };
        let column = if c < j {
            c
        } else {
            c + 1
        };
        self.get(row, column)
    }

    fn get_minor(&self, i: usize, j: usize) -> (r: Scalar)
        requires
            i < 4,
            j < 4,
        ensures
            r == self.minor(i as int, j as int),
    {
        let a = self.get_rest(i, j, 0, 0);
        let b = self.get_rest(i, j, 0, 1);
        let c = self.get_rest(i, j, 0, 2);
        let d = self.get_rest(i, j, 1, 0);
        let e = self.get_rest(i, j, 1, 1);
        let f = self.get_rest(i, j, 1, 2);
        let g = self.get_rest(i, j, 2, 0);
        let h = self.get_rest(i, j, 2, 1);
        let k = self.get_rest(i, j, 2, 2);
        let first = a.mul(e.mul(k).sub(f.mul(h)));
        let second = b.mul(d.mul(k).sub(f.mul(g)));
        let third = c.mul(d.mul(h).sub(e.mul(g)));
        first.sub(second).add(third)
    }

    fn get_cofactor(&self, i: usize, j: usize) -> (r: Scalar)
        requires
            i < 4,
            j < 4,
        ensures
            r == self.cofactor(i as int, j as int),
    {
        let m = self.get_minor(i, j);
        if (i + j) % 2 == 0 {
            m
        } else {
            m.neg()
        }
    }

    /// The determinant, expanded along the first row.
    pub fn determinant(&self) -> (r: Scalar)
        ensures
            r == self.determinant_value(),
    {
        self.r0.x.mul(self.get_cofactor(0, 0)).add(self.r0.y.mul(self.get_cofactor(0, 1))).add(
            self.r0.z.mul(self.get_cofactor(0, 2)),
        ).add(self.r0.w.mul(self.get_cofactor(0, 3)))
    }

    fn get_inverted_row(&self, i: usize, d: Scalar) -> (r: Tuple)
        requires
            i < 4,
            d == self.determinant_value(),
        ensures
            r == self.inverted_row(i as int),
    {
        Tuple {
            x: self.get_cofactor(0, i).div(d),
            y: self.get_cofactor(1, i).div(d),
            z: self.get_cofactor(2, i).div(d),
            w: self.get_cofactor(3, i).div(d),
        }
    }

    /// The inverse, or `SingularMatrix` where the determinant is zero.
    pub fn inverse(&self) -> (r: Result<Transformation, SingularMatrix>)
        ensures
            self.is_singular() <==> r is Err,
            r is Ok ==> r->Ok_0 == self.inverted(),
    {
        let d = self.determinant();
        if d == (Scalar { bits: ZERO }) {
            return Err(SingularMatrix);
        }
        Ok(
            Transformation {
                r0: self.get_inverted_row(0, d),
                r1: self.get_inverted_row(1, d),
                r2: self.get_inverted_row(2, d),
                r3: self.get_inverted_row(3, d),
            },
        )
    }
}

/// The matrix that changes nothing.
pub fn identity() -> (r: Transformation)
    ensures
        r == identity_matrix(),
{
    let o = Scalar { bits: ZERO };
    let i = Scalar { bits: ONE };
    Transformation {
        r0: Tuple { x: i, y: o, z: o, w: o },
        r1: Tuple { x: o, y: i, z: o, w: o },
        r2: Tuple { x: o, y: o, z: i, w: o },
        r3: Tuple { x: o, y: o, z: o, w: i },
    }
}

/// The move by `(x, y, z)`.
pub fn translation(x: Scalar, y: Scalar, z: Scalar) -> (r: Transformation)
    ensures
        r == translation_matrix(x, y, z),
{
    let o = Scalar { bits: ZERO };
    let i = Scalar { bits: ONE };
    Transformation {
        r0: Tuple { x: i, y: o, z: o, w: x },
        r1: Tuple { x: o, y: i, z: o, w: y },
        r2: Tuple { x: o, y: o, z: i, w: z },
        r3: Tuple { x: o, y: o, z: o, w: i },
    }
}

/// The scaling by `x`, `y` and `z` along the three axes.
pub fn scale(x: Scalar, y: Scalar, z: Scalar) -> (r: Transformation)
    ensures
        r == scale_matrix(x, y, z),
{
    let o = Scalar { bits: ZERO };
    let i = Scalar { bits: ONE };
    Transformation {
        r0: Tuple { x: x, y: o, z: o, w: o },
        r1: Tuple { x: o, y: y, z: o, w: o },
        r2: Tuple { x: o, y: o, z: z, w: o },
        r3: Tuple { x: o, y: o, z: o, w: i },
    }
}

/// The rotation about the x axis by an angle, given by its cosine and sine.
pub fn rotate_x(cosine: Scalar, sine: Scalar) -> (r: Transformation)
    ensures
        r == rotate_x_matrix(cosine, sine),
{
    let o = Scalar { bits: ZERO };
    let i = Scalar { bits: ONE };
    Transformation {
        r0: Tuple { x: i, y: o, z: o, w: o },
        r1: Tuple { x: o, y: cosine, z: sine.neg(), w: o },
        r2: Tuple { x: o, y: sine, z: cosine, w: o },
        r3: Tuple { x: o, y: o, z: o, w: i },
    }
}

/// The rotation about the y axis by an angle, given by its cosine and sine.
pub fn rotate_y(cosine: Scalar, sine: Scalar) -> (r: Transformation)
    ensures
        r == rotate_y_matrix(cosine, sine),
{
    let o = Scalar { bits: ZERO };
    let i = Scalar { bits: ONE };
    Transformation {
        r0: Tuple { x: cosine, y: o, z: sine, w: o },
        r1: Tuple { x: o, y: i, z: o, w: o },
        r2: Tuple { x: sine.neg(), y: o, z: cosine, w: o },
        r3: Tuple { x: o, y: o, z: o, w: i },
    }
}

/// The rotation about the z axis by an angle, given by its cosine and sine.
pub fn rotate_z(cosine: Scalar, sine: Scalar) -> (r: Transformation)
    ensures
        r == rotate_z_matrix(cosine, sine),
{
    let o = Scalar { bits: ZERO };
    let i = Scalar { bits: ONE };
    Transformation {
        r0: Tuple { x: cosine, y: sine.neg(), z: o, w: o },
        r1: Tuple { x: sine, y: cosine, z: o, w: o },
        r2: Tuple { x: o, y: o, z: i, w: o },
        r3: Tuple { x: o, y: o, z: o, w: i },
    }
}

/// The shear: `xy` moves x in proportion to y, `xz` x in proportion to z,
/// and so on.
pub fn shearing(xy: Scalar, xz: Scalar, yx: Scalar, yz: Scalar, zx: Scalar, zy: Scalar) -> (r:
    Transformation)
    ensures
        r == shearing_matrix(xy, xz, yx, yz, zx, zy),
{
    let o = Scalar { bits: ZERO };
    let i = Scalar { bits: ONE };
    Transformation {
        r0: Tuple { x: i, y: xy, z: xz, w: o },
        r1: Tuple { x: yx, y: i, z: yz, w: o },
        r2: Tuple { x: zx, y: zy, z: i, w: o },
        r3: Tuple { x: o, y: o, z: o, w: i },
    }
}

} // verus!
