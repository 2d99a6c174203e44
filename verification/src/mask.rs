//! Images as plain pixel data, and the pixel counts behind the mean intersection
//! over union of two alpha masks.
use vstd::prelude::*;

verus! {

/// An 8-bit image: `rows` x `cols` pixels of `channels` interleaved samples each,
/// stored row by row.
#[derive(Debug)]
pub struct Image {
    pub rows: usize,
    pub cols: usize,
    pub channels: usize,
    pub data: Vec<u8>,
}

impl Image {
    /// The data holds exactly one sample per pixel and channel.
    pub open spec fn wf(&self) -> bool {
        self.data@.len() == self.rows * self.cols * self.channels
    }

}

/// The sample at row `r`, column `c` of single-channel pixel data with `cols` columns.
pub open spec fn pixel_at(data: Seq<u8>, cols: int, r: int, c: int) -> u8 {
    data[r * cols + c]
}

/// A pixel counts as set when its value is above 127.
pub open spec fn is_set(v: u8) -> bool {
    v > 127
}

/// The number of set pixels in row `row` among columns `1..hi`.
pub open spec fn set_in_row(data: Seq<u8>, cols: int, row: int, hi: int) -> nat
    decreases hi,
{
    if hi <= 1 {
        0
    } else {
        set_in_row(data, cols, row, hi - 1) + if is_set(pixel_at(data, cols, row, hi - 1)) {
            1nat
        } else {
            0nat
        }
    }
}

/// What `count_pixels` counts: the set pixels of the last row, leaving out column 0.
/// Its scan walks rows and columns from the bottom-right corner down to index 1,
/// but never resets the column, so only the last row is ever read.
pub open spec fn count_set(data: Seq<u8>, rows: int, cols: int) -> nat {
    if rows >= 2 {
        set_in_row(data, cols, rows - 1, cols)
    } else {
        0
    }
}

pub open spec fn spec_count_pixels(img: Image) -> nat {
    count_set(img.data@, img.rows as int, img.cols as int)
}

/// The row count is the number of columns `1..hi` of `row` whose sample is above 127.
proof fn lemma_set_in_row_counts_columns(data: Seq<u8>, cols: int, row: int, hi: int)
    ensures
        Set::new(|c: int| 1 <= c < hi && data[row * cols + c] > 127).finite(),
        Set::new(|c: int| 1 <= c < hi && data[row * cols + c] > 127).len() == set_in_row(
            data,
            cols,
            row,
            hi,
        ),
    decreases hi,
{
    let s = Set::new(|c: int| 1 <= c < hi && data[row * cols + c] > 127);
    if hi <= 1 {
        assert(s =~= Set::<int>::empty());
    } else {
        lemma_set_in_row_counts_columns(data, cols, row, hi - 1);
        let t = Set::new(|c: int| 1 <= c < hi - 1 && data[row * cols + c] > 127);
        if data[row * cols + (hi - 1)] > 127 {
            assert(s =~= t.insert(hi - 1));
            assert(!t.contains(hi - 1));
        } else {
            assert(s =~= t);
        }
    }
}

/// `count_pixels` counts, in a mask of at least two rows, exactly the columns `c`
/// with `1 <= c < cols` whose sample in the last row is above 127, whatever the
/// mask's shape; a mask of fewer than two rows counts nothing.
pub proof fn lemma_count_pixels_reads_last_row(img: Image)
    ensures
        img.rows >= 2 ==> spec_count_pixels(img) == Set::new(
            |c: int| 1 <= c < img.cols && img.data@[(img.rows - 1) * img.cols + c] > 127,
        ).len(),
        img.rows < 2 ==> spec_count_pixels(img) == 0,
{
    lemma_set_in_row_counts_columns(img.data@, img.cols as int, img.rows - 1, img.cols as int);
}

proof fn lemma_set_in_row_bound(data: Seq<u8>, cols: int, row: int, hi: int)
    ensures
        set_in_row(data, cols, row, hi) <= if hi <= 1 {
            0
        } else {
            hi - 1
        },
    decreases hi,
{
    if hi > 1 {
        lemma_set_in_row_bound(data, cols, row, hi - 1);
    }
}

proof fn lemma_index_in_bounds(rows: int, cols: int, r: int, c: int)
    requires
        0 <= r < rows,
        0 <= c < cols,
    ensures
        0 <= r * cols + c < rows * cols,
        r * cols + c <= (rows - 1) * cols + (cols - 1),
{
    assert(r * cols <= (rows - 1) * cols) by (nonlinear_arith)
        requires
            0 <= r <= rows - 1,
            0 <= cols,
    ;
    assert((rows - 1) * cols + cols == rows * cols) by (nonlinear_arith);
    assert(0 <= r * cols) by (nonlinear_arith)
        requires
            0 <= r,
            0 <= cols,
    ;
}

/// Counts the set pixels (value above 127) that the scan of a single-channel mask
/// reaches: those of its last row, column 0 excepted.
pub fn count_pixels(alpha: &Image) -> (n: usize)
    requires
        alpha.wf(),
        alpha.channels == 1 || alpha.rows < 2 || alpha.cols < 2,
    ensures
        n == spec_count_pixels(*alpha),
        alpha.rows >= 2 ==> n == Set::new(
            |c: int| 1 <= c < alpha.cols && alpha.data@[(alpha.rows - 1) * alpha.cols + c] > 127,
        ).len(),
        alpha.rows < 2 ==> n == 0,
{
    proof {
        lemma_count_pixels_reads_last_row(*alpha);
    }
    let rows = alpha.rows;
    let cols = alpha.cols;
    let len = alpha.data.len();
    let mut row: usize = rows;
    let mut col: usize = cols;
    let mut result: usize = 0;
    while row > 1
        invariant
            rows == alpha.rows,
            cols == alpha.cols,
            len == alpha.data@.len(),
            alpha.wf(),
            alpha.channels == 1 || rows < 2 || cols < 2,
            row <= rows,
            col <= cols,
            row == rows ==> col == cols && result == 0,
            row < rows ==> col <= 1 && result == spec_count_pixels(*alpha),
        decreases row,
    {
        while col > 1
            invariant
                rows == alpha.rows,
                cols == alpha.cols,
                len == alpha.data@.len(),
                alpha.wf(),
                alpha.channels == 1 || rows < 2 || cols < 2,
                2 <= row <= rows,
                col <= cols,
                row == rows ==> result + set_in_row(alpha.data@, cols as int, rows - 1, col as int)
                    == set_in_row(alpha.data@, cols as int, rows - 1, cols as int),
                row < rows ==> col <= 1 && result == spec_count_pixels(*alpha),
            decreases col,
        {
            proof {
                lemma_index_in_bounds(rows as int, cols as int, row - 1, col - 1);
                lemma_set_in_row_bound(alpha.data@, cols as int, rows - 1, col - 1);
                lemma_set_in_row_bound(alpha.data@, cols as int, rows - 1, cols as int);
                assert(alpha.channels == 1);
                assert(rows * cols * 1 == rows * cols);
                assert((row - 1) * cols + (col - 1) < len);
                assert(0 <= (row - 1) * cols);
            }
            let index = (row - 1) * cols + (col - 1);
            let p = alpha.data[index];
            if p > 127 {
                result = result + 1;
            }
            col = col - 1;
        }
        row = row - 1;
    }
    result
}

/// The sample-wise AND of two byte sequences.
pub open spec fn and_bytes(a: Seq<u8>, b: Seq<u8>) -> Seq<u8> {
    Seq::new(a.len(), |i: int| a[i] & b[i])
}

/// The pixel-wise AND of two images of the same shape.
pub open spec fn and_image(a: Image, b: Image) -> Seq<u8> {
    and_bytes(a.data@, b.data@)
}

/// The pixel-wise AND of two images of the same shape, which is what OpenCV's
/// `bitwise_and` computes under a mask that selects every pixel.
pub fn bitwise_and(a: &Image, b: &Image) -> (r: Image)
    requires
        a.wf(),
        b.wf(),
        a.rows == b.rows,
        a.cols == b.cols,
        a.channels == b.channels,
    ensures
        r.wf(),
        r.rows == a.rows,
        r.cols == a.cols,
        r.channels == a.channels,
        r.data@ == and_image(*a, *b),
{
    let n = a.data.len();
    let mut data: Vec<u8> = Vec::new();
    let mut i: usize = 0;
    while i < n
        invariant
            n == a.data@.len(),
            n == b.data@.len(),
            i <= n,
            data@.len() == i,
            forall|j: int| 0 <= j < i ==> #[trigger] data@[j] == a.data@[j] & b.data@[j],
        decreases n - i,
    {
        data.push(a.data[i] & b.data[i]);
        i = i + 1;
    }
    assert(data@ =~= and_image(*a, *b));
    Image { rows: a.rows, cols: a.cols, channels: a.channels, data }
}

/// Why two masks cannot be compared.
#[derive(Debug, Clone, Copy, PartialEq, Eq, Structural)]
pub enum MiouError {
    /// One of the masks has more than one channel.
    TooManyChannels,
    /// The masks differ in size.
    SizeMismatch,
}

/// An AND of two samples is set only where both samples are set.
proof fn lemma_and_set(x: u8, y: u8)
    ensures
        is_set(x & y) ==> is_set(x) && is_set(y),
{
    assert((x & y) > 127 ==> x > 127 && y > 127) by (bit_vector);
}

proof fn lemma_and_count_row(a: Seq<u8>, b: Seq<u8>, cols: int, row: int, hi: int)
    requires
        a.len() == b.len(),
        0 <= row * cols,
        hi <= 1 || row * cols + hi - 1 < a.len(),
    ensures
        set_in_row(and_bytes(a, b), cols, row, hi) <= set_in_row(a, cols, row, hi),
        set_in_row(and_bytes(a, b), cols, row, hi) <= set_in_row(b, cols, row, hi),
    decreases hi,
{
    if hi > 1 {
        lemma_and_count_row(a, b, cols, row, hi - 1);
        let c = hi - 1;
        assert(pixel_at(and_bytes(a, b), cols, row, c) == pixel_at(a, cols, row, c) & pixel_at(
            b,
            cols,
            row,
            c,
        ));
        lemma_and_set(pixel_at(a, cols, row, c), pixel_at(b, cols, row, c));
    }
}

/// The set pixels that `count_pixels` finds in the intersection of two masks are
/// never more than it finds in either mask, so the intersection over union of two
/// masks lies between 0 and 1.
pub proof fn lemma_intersection_count_bounded(a: Image, b: Image)
    requires
        a.wf(),
        b.wf(),
        a.rows == b.rows,
        a.cols == b.cols,
        a.channels == 1,
        b.channels == 1,
    ensures
        count_set(and_image(a, b), a.rows as int, a.cols as int) <= spec_count_pixels(a),
        count_set(and_image(a, b), a.rows as int, a.cols as int) <= spec_count_pixels(b),
{
    if a.rows >= 2 && a.cols >= 1 {
        let row = a.rows - 1;
        lemma_index_in_bounds(a.rows as int, a.cols as int, row, a.cols - 1);
        assert(a.rows * a.cols * 1 == a.rows * a.cols);
        lemma_and_count_row(a.data@, b.data@, a.cols as int, row, a.cols as int);
    }
}

/// Each mask count is at most half the number of pixels, so two of them add up
/// without overflow.
proof fn lemma_count_fits(img: Image)
    requires
        img.wf(),
        img.channels == 1,
    ensures
        2 * spec_count_pixels(img) <= img.data@.len(),
{
    lemma_set_in_row_bound(img.data@, img.cols as int, img.rows - 1, img.cols as int);
    if img.rows >= 2 {
        assert(2 * img.cols <= img.rows * img.cols) by (nonlinear_arith)
            requires
                img.rows >= 2,
        ;
        assert(img.rows * img.cols * 1 == img.rows * img.cols);
    }
}

/// What comparing two masks gives: an error when either has more than one channel,
/// else an error when their sizes differ, else the count of their AND and the union
/// count (both masks' counts minus the AND's).
pub open spec fn spec_miou_counts(a: Image, b: Image) -> Result<(int, int), MiouError> {
    if a.channels != 1 || b.channels != 1 {
        Err(MiouError::TooManyChannels)
    } else if a.rows != b.rows || a.cols != b.cols {
        Err(MiouError::SizeMismatch)
    } else {
        let inter = count_set(and_image(a, b), a.rows as int, a.cols as int) as int;
        Ok((inter, spec_count_pixels(a) + spec_count_pixels(b) - inter))
    }
}

/// Comparing two masks does not depend on their order: the same error, or the same
/// intersection and union counts (so the same ratio).
pub proof fn lemma_miou_counts_symmetric(a: Image, b: Image)
    requires
        a.wf(),
        b.wf(),
    ensures
        spec_miou_counts(a, b) == spec_miou_counts(b, a),
{
    if a.channels == 1 && b.channels == 1 && a.rows == b.rows && a.cols == b.cols {
        assert(a.data@.len() == b.data@.len());
        assert forall|i: int| 0 <= i < a.data@.len() implies #[trigger] and_image(a, b)[i]
            == and_image(b, a)[i] by {
            let x = a.data@[i];
            let y = b.data@[i];
            assert(x & y == y & x) by (bit_vector);
        }
        assert(and_image(a, b) =~= and_image(b, a));
    }
}

/// The pixel counts behind the intersection over union of two single-channel masks
/// of equal size: the count of their AND, and the counts of both masks minus it.
/// The ratio itself is a floating-point number and is formed by the caller.
pub fn miou_counts(alpha1: &Image, alpha2: &Image) -> (r: Result<(usize, usize), MiouError>)
    requires
        alpha1.wf(),
        alpha2.wf(),
    ensures
        r is Ok <==> spec_miou_counts(*alpha1, *alpha2) is Ok,
        r matches Err(e) ==> spec_miou_counts(*alpha1, *alpha2) == Err::<(int, int), MiouError>(e),
        r matches Ok((inter, union)) ==> spec_miou_counts(*alpha1, *alpha2) == Ok::<
            (int, int),
            MiouError,
        >((inter as int, union as int)),
        alpha1.channels == 1 && alpha2.channels == 1 && alpha1.rows == alpha2.rows && alpha1.cols
            == alpha2.cols ==> r is Ok,
        alpha1.channels != 1 || alpha2.channels != 1 ==> r == Err::<(usize, usize), MiouError>(
            MiouError::TooManyChannels,
        ),
        alpha1.channels == 1 && alpha2.channels == 1 && (alpha1.rows != alpha2.rows || alpha1.cols
            != alpha2.cols) ==> r == Err::<(usize, usize), MiouError>(MiouError::SizeMismatch),
        r matches Ok((inter, union)) ==> {
            &&& alpha1.channels == 1 && alpha2.channels == 1
            &&& alpha1.rows == alpha2.rows && alpha1.cols == alpha2.cols
            &&& inter == count_set(and_image(*alpha1, *alpha2), alpha1.rows as int, alpha1.cols as int)
            &&& inter <= spec_count_pixels(*alpha1)
            &&& inter <= spec_count_pixels(*alpha2)
            &&& union == spec_count_pixels(*alpha1) + spec_count_pixels(*alpha2) - inter
        },
{
    if alpha1.channels != 1 || alpha2.channels != 1 {
        return Err(MiouError::TooManyChannels);
    }
    if alpha1.rows != alpha2.rows || alpha1.cols != alpha2.cols {
        return Err(MiouError::SizeMismatch);
    }
    let intersection = bitwise_and(alpha1, alpha2);
    let i_count = count_pixels(&intersection);
    let c1 = count_pixels(alpha1);
    let c2 = count_pixels(alpha2);
    proof {
        lemma_intersection_count_bounded(*alpha1, *alpha2);
        lemma_count_fits(*alpha1);
        lemma_count_fits(*alpha2);
    }
    Ok((i_count, c1 - i_count + c2))
}

} // verus!
