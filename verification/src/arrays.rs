//! Arrays of the `ndarray` crate that the renderer fills: the pixel position
//! table of a camera and the RGBA image of a render. Each is held in a struct
//! with a private array field that the specifications do not open; what it
//! holds is named by an uninterpreted function, its row-major contents, and by
//! a second one, its shape.
use vstd::prelude::*;

verus! {

/// Product of the non-zero lengths of an array shape: `ndarray` refuses a
/// shape where it exceeds `isize::MAX`.
pub open spec fn nonzero_product(dims: Seq<usize>) -> int
    decreases dims.len(),
{
    if dims.len() == 0 {
        1
    } else {
        let d = dims.last();
        nonzero_product(dims.drop_last()) * (if d == 0 {
            1int
        } else {
            d as int
        })
    }
}

/// A length of an array shape as `ndarray` counts it in its size check.
pub open spec fn nonzero(d: usize) -> int {
    if d == 0 {
        1
    } else {
        d as int
    }
}

/// The size check of a two-dimensional shape.
pub proof fn lemma_nonzero_product_2(a: usize, b: usize)
    ensures
        nonzero_product(seq![a, b]) == nonzero(a) * nonzero(b),
{
    assert(seq![a, b].drop_last() =~= seq![a]);
    assert(seq![a].drop_last() =~= Seq::<usize>::empty());
    reveal_with_fuel(nonzero_product, 3);
}

/// The size check of a three-dimensional shape.
pub proof fn lemma_nonzero_product_3(a: usize, b: usize, c: usize)
    ensures
        nonzero_product(seq![a, b, c]) == nonzero(a) * nonzero(b) * nonzero(c),
{
    assert(seq![a, b, c].drop_last() =~= seq![a, b]);
    lemma_nonzero_product_2(a, b);
}

/// Table of the pixel of each ray: row `k` holds the image row and the image
/// column of ray `k`. An `ndarray::Array2<usize>` with two columns.
#[derive(Debug)]
#[verifier::external_body]
pub struct PixelPositions {
    inner: ndarray::Array2<usize>,
}

/// The entries of a pixel position table, row after row.
pub uninterp spec fn positions_contents(p: PixelPositions) -> Seq<usize>;

/// The shape (rows, columns) of a pixel position table.
pub uninterp spec fn positions_shape(p: PixelPositions) -> (usize, usize);

impl PixelPositions {
    /// `ndarray::Array2::<usize>::zeros((rows, cols))`: a table of `rows` rows
    /// of `cols` zeros. The allocation check of `ndarray` panics when the
    /// product of the non-zero lengths exceeds `isize::MAX`; `requires` leaves
    /// that out.
    #[verifier::external_body]
    pub(crate) fn zeros(rows: usize, cols: usize) -> (p: PixelPositions)
        requires
            nonzero_product(seq![rows, cols]) <= isize::MAX,
        ensures
            positions_shape(p) == (rows, cols),
            positions_contents(p) == Seq::new((rows * cols) as nat, |i: int| 0usize),
    {
        PixelPositions { inner: ndarray::Array2::<usize>::zeros((rows, cols)) }
    }

    /// `IndexMut` of `ndarray` at `[row, col]`: overwrites that entry, which is
    /// entry `row * columns + col` in row-major order. It panics out of bounds.
    #[verifier::external_body]
    pub(crate) fn set(&mut self, row: usize, col: usize, value: usize)
        requires
            row < positions_shape(*old(self)).0,
            col < positions_shape(*old(self)).1,
        ensures
            positions_shape(*final(self)) == positions_shape(*old(self)),
            positions_contents(*final(self)) == positions_contents(*old(self)).update(
                row * positions_shape(*old(self)).1 + col,
                value,
            ),
    {
        self.inner[[row, col]] = value;
    }

    /// `Index` of `ndarray` at `[row, col]`: entry `row * columns + col` in
    /// row-major order. It panics out of bounds.
    #[verifier::external_body]
    pub(crate) fn get(&self, row: usize, col: usize) -> (v: usize)
        requires
            row < positions_shape(*self).0,
            col < positions_shape(*self).1,
        ensures
            v == positions_contents(*self)[row * positions_shape(*self).1 + col],
    {
        self.inner[[row, col]]
    }

    /// `ndarray::ArrayBase::dim`: the shape. An array holds as many entries as
    /// the product of its lengths.
    #[verifier::external_body]
    pub(crate) fn shape(&self) -> (s: (usize, usize))
        ensures
            s == positions_shape(*self),
            positions_contents(*self).len() == s.0 * s.1,
    {
        self.inner.dim()
    }
}

/// An RGBA image of `height` rows and `width` columns: an
/// `ndarray::Array3<u8>` of shape (height, width, 4).
#[derive(Debug)]
#[verifier::external_body]
pub struct Image {
    inner: ndarray::Array3<u8>,
}

/// The bytes of an image, row-major: pixel (v, u) has its channel c at
/// `(v * width + u) * 4 + c`.
pub uninterp spec fn image_contents(i: Image) -> Seq<u8>;

/// The shape (rows, columns, channels) of an image.
pub uninterp spec fn image_shape(i: Image) -> (usize, usize, usize);

impl Image {
    /// `ndarray::Array3::<u8>::default((height, width, channels))`: an image
    /// of zeros. The allocation check of `ndarray` panics when the product of
    /// the non-zero lengths exceeds `isize::MAX`; `requires` leaves that out.
    #[verifier::external_body]
    pub(crate) fn zeroed(height: usize, width: usize, channels: usize) -> (i: Image)
        requires
            nonzero_product(seq![height, width, channels]) <= isize::MAX,
        ensures
            image_shape(i) == (height, width, channels),
            image_contents(i) == Seq::new((height * width * channels) as nat, |k: int| 0u8),
    {
        Image { inner: ndarray::Array3::<u8>::default((height, width, channels)) }
    }

    /// `IndexMut` of `ndarray` at `[v, u, c]`: overwrites one byte. It panics
    /// out of bounds.
    #[verifier::external_body]
    pub(crate) fn set(&mut self, v: usize, u: usize, c: usize, value: u8)
        requires
            v < image_shape(*old(self)).0,
            u < image_shape(*old(self)).1,
            c < image_shape(*old(self)).2,
        ensures
            image_shape(*final(self)) == image_shape(*old(self)),
            image_contents(*final(self)) == image_contents(*old(self)).update(
                (v * image_shape(*old(self)).1 + u) * image_shape(*old(self)).2 + c,
                value,
            ),
    {
        self.inner[[v, u, c]] = value;
    }

    /// `Index` of `ndarray` at `[v, u, c]`. It panics out of bounds.
    #[verifier::external_body]
    pub(crate) fn get(&self, v: usize, u: usize, c: usize) -> (b: u8)
        requires
            v < image_shape(*self).0,
            u < image_shape(*self).1,
            c < image_shape(*self).2,
        ensures
            b == image_contents(*self)[(v * image_shape(*self).1 + u) * image_shape(*self).2 + c],
    {
        self.inner[[v, u, c]]
    }

    /// `ndarray::ArrayBase::dim`: the shape. An array holds as many entries as
    /// the product of its lengths.
    #[verifier::external_body]
    pub(crate) fn shape(&self) -> (s: (usize, usize, usize))
        ensures
            s == image_shape(*self),
            image_contents(*self).len() == s.0 * s.1 * s.2,
    {
        self.inner.dim()
    }
}



impl PixelPositions {
    /// The shape (rows, columns) of the table.
    pub fn dimensions(&self) -> (s: (usize, usize))
        ensures
            s == positions_shape(*self),
            positions_contents(*self).len() == s.0 * s.1,
    {
        self.shape()
    }

    /// Row `k` of the table as (image row, image column), or `None` when the
    /// table has no row `k` or fewer than two columns.
    pub fn row(&self, k: usize) -> (r: Option<(usize, usize)>)
        ensures
            r is Some <==> k < positions_shape(*self).0 && positions_shape(*self).1 >= 2,
            r matches Some(pair) ==> {
                &&& pair.0 == positions_contents(*self)[k * positions_shape(*self).1]
                &&& pair.1 == positions_contents(*self)[k * positions_shape(*self).1 + 1]
            },
    {
        let (rows, cols) = self.shape();
        if k < rows && cols >= 2 {
            Some((self.get(k, 0), self.get(k, 1)))
        } else {
            None
        }
    }
}

impl Image {
    /// An image of `height` rows and `width` columns with every byte zero.
    pub fn blank(height: usize, width: usize) -> (i: Image)
        requires
            nonzero_product(seq![height, width, 4usize]) <= isize::MAX,
        ensures
            image_shape(i) == (height, width, 4usize),
            image_contents(i) == Seq::new((height * width * 4) as nat, |k: int| 0u8),
    {
        Image::zeroed(height, width, 4)
    }

    /// The shape (rows, columns, channels) of the image.
    pub fn dimensions(&self) -> (s: (usize, usize, usize))
        ensures
            s == image_shape(*self),
            image_contents(*self).len() == s.0 * s.1 * s.2,
    {
        self.shape()
    }

    /// The bytes of the image, row by row, pixel by pixel, channel by channel.
    pub fn rgba_bytes(&self) -> (bytes: Vec<u8>)
        ensures
            bytes@ == image_contents(*self),
    {
        let (rows, cols, channels) = self.shape();
        let ghost contents = image_contents(*self);
        let mut bytes: Vec<u8> = Vec::new();
        if cols == 0 || channels == 0 {
            assert(contents.len() == 0) by (nonlinear_arith)
                requires
                    contents.len() == rows * cols * channels,
                    cols == 0 || channels == 0,
            ;
            assert(bytes@ =~= contents);
            return bytes;
        }
        let mut v: usize = 0;
        assert(0 * cols * channels == 0) by (nonlinear_arith);
        assert(contents.take(0) =~= bytes@);
        while v < rows
            invariant
                (rows, cols, channels) == image_shape(*self),
                contents == image_contents(*self),
                contents.len() == rows * cols * channels,
                cols > 0,
                channels > 0,
                v <= rows,
                bytes@ == contents.take(v * cols * channels),
            decreases rows - v,
        {
            let mut u: usize = 0;
            assert((v * cols + 0) * channels == v * cols * channels) by (nonlinear_arith);
            while u < cols
                invariant
                    (rows, cols, channels) == image_shape(*self),
                    contents == image_contents(*self),
                    contents.len() == rows * cols * channels,
                    v < rows,
                    u <= cols,
                    bytes@ == contents.take((v * cols + u) * channels),
                decreases cols - u,
            {
                let mut c: usize = 0;
                while c < channels
                    invariant
                        (rows, cols, channels) == image_shape(*self),
                        contents == image_contents(*self),
                        contents.len() == rows * cols * channels,
                        v < rows,
                        u < cols,
                        c <= channels,
                        bytes@ == contents.take((v * cols + u) * channels + c),
                    decreases channels - c,
                {
                    assert((v * cols + u) * channels + c < rows * cols * channels) by (nonlinear_arith)
                        requires
                            v < rows,
                            u < cols,
                            c < channels,
                    ;
                    let b = self.get(v, u, c);
                    bytes.push(b);
                    assert(bytes@ =~= contents.take((v * cols + u) * channels + c + 1));
                    c = c + 1;
                }
                assert((v * cols + u) * channels + channels == (v * cols + u + 1) * channels)
                    by (nonlinear_arith);
                u = u + 1;
            }
            assert((v * cols + cols) * channels == (v + 1) * cols * channels) by (nonlinear_arith);
            v = v + 1;
        }
        assert(bytes@ =~= contents);
        bytes
    }
}

} // verus!
