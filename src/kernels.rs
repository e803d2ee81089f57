//! The fixed catalog of correlation kernels. A kernel's weights are exact
//! fractions: integer numerators over one common positive `scale`.
use vstd::prelude::*;

verus! {

/// Mathematical content of a kernel: `width` columns, row-major weights,
/// each weight standing for `weights[i] / scale`.
pub struct KernelView {
    pub width: nat,
    pub weights: Seq<i64>,
    pub scale: int,
}

impl KernelView {
    /// Number of kernel rows.
    pub open spec fn height(self) -> nat {
        self.weights.len() / self.width
    }

    /// Odd, non-empty dimensions of at most 63, weights of magnitude at most
    /// 2^40 and a scale in `1..=2^40`.
    pub open spec fn wf(self) -> bool {
        &&& 1 <= self.width <= 63
        &&& self.width % 2 == 1
        &&& self.weights.len() % self.width == 0
        &&& 1 <= self.height() <= 63
        &&& self.height() % 2 == 1
        &&& 1 <= self.scale <= 0x100_0000_0000
        &&& forall|i: int|
            0 <= i < self.weights.len() ==> -0x100_0000_0000 <= #[trigger] self.weights[i]
                <= 0x100_0000_0000
    }
}

/// A correlation kernel.
pub struct Kernel {
    pub width: u32,
    pub weights: Vec<i64>,
    pub scale: i64,
}

impl View for Kernel {
    type V = KernelView;

    open spec fn view(&self) -> KernelView {
        KernelView { width: self.width as nat, weights: self.weights@, scale: self.scale as int }
    }
}

/// 1x1 identity: `{1}`.
pub open spec fn identity1_spec() -> KernelView {
    KernelView { width: 1, weights: seq![1], scale: 1 }
}

/// 3x3 identity: a centre weight of 1 among zeros.
pub open spec fn identity2_spec() -> KernelView {
    KernelView { width: 3, weights: seq![0, 0, 0, 0, 1, 0, 0, 0, 0], scale: 1 }
}

/// 3x1 identity: `{0, 1, 0}` as one row.
pub open spec fn identity3_spec() -> KernelView {
    KernelView { width: 3, weights: seq![0, 1, 0], scale: 1 }
}

/// 3x3 gaussian: `{1,3,1, 3,16,3, 1,3,1} / 32`.
pub open spec fn gaussian_simple_spec() -> KernelView {
    KernelView { width: 3, weights: seq![1, 3, 1, 3, 16, 3, 1, 3, 1], scale: 32 }
}

/// Weights of the 7-tap gaussian, in units of 10^-12.
pub open spec fn gaussian_taps() -> Seq<i64> {
    seq![
        817212785,
        28041521350,
        233926427200,
        474429677300,
        233926427200,
        28041521350,
        817212785,
    ]
}

/// The 7-tap gaussian laid out as one row.
pub open spec fn gaussian_x_spec() -> KernelView {
    KernelView { width: 7, weights: gaussian_taps(), scale: 1_000_000_000_000 }
}

/// The 7-tap gaussian laid out as one column.
pub open spec fn gaussian_y_spec() -> KernelView {
    KernelView { width: 1, weights: gaussian_taps(), scale: 1_000_000_000_000 }
}

/// 3x3 laplacian: `{0,1,0, 1,-4,1, 0,1,0}`.
pub open spec fn laplacian_spec() -> KernelView {
    KernelView { width: 3, weights: seq![0i64, 1, 0, 1, -4i64, 1, 0, 1, 0], scale: 1 }
}

/// 1x1 kernel that leaves every pixel as it is.
pub fn identity1() -> (r: Kernel)
    ensures
        r@ == identity1_spec(),
        r@.wf(),
{
    let r = Kernel { width: 1, weights: vec![1], scale: 1 };
    assert(r@.weights =~= identity1_spec().weights);
    r
}

/// 3x3 kernel with a single centre weight of 1.
pub fn identity2() -> (r: Kernel)
    ensures
        r@ == identity2_spec(),
        r@.wf(),
{
    let r = Kernel { width: 3, weights: vec![0, 0, 0, 0, 1, 0, 0, 0, 0], scale: 1 };
    assert(r@.weights =~= identity2_spec().weights);
    r
}

/// 3x1 row kernel with a centre weight of 1.
pub fn identity3() -> (r: Kernel)
    ensures
        r@ == identity3_spec(),
        r@.wf(),
{
    let r = Kernel { width: 3, weights: vec![0, 1, 0], scale: 1 };
    assert(r@.weights =~= identity3_spec().weights);
    r
}

/// The 3x3 gaussian, applied as a single 2-D pass.
pub fn gaussian_simple() -> (r: Kernel)
    ensures
        r@ == gaussian_simple_spec(),
        r@.wf(),
{
    let r = Kernel { width: 3, weights: vec![1, 3, 1, 3, 16, 3, 1, 3, 1], scale: 32 };
    assert(r@.weights =~= gaussian_simple_spec().weights);
    r
}

/// The seven gaussian taps, in units of 10^-12.
fn gaussian_tap_vec() -> (r: Vec<i64>)
    ensures
        r@ == gaussian_taps(),
{
    let r: Vec<i64> = vec![
        817212785,
        28041521350,
        233926427200,
        474429677300,
        233926427200,
        28041521350,
        817212785,
    ];
    assert(r@ =~= gaussian_taps());
    r
}

/// The 7-tap gaussian along rows.
pub fn gaussian_x() -> (r: Kernel)
    ensures
        r@ == gaussian_x_spec(),
        r@.wf(),
{
    Kernel { width: 7, weights: gaussian_tap_vec(), scale: 1_000_000_000_000 }
}

/// The 7-tap gaussian along columns.
pub fn gaussian_y() -> (r: Kernel)
    ensures
        r@ == gaussian_y_spec(),
        r@.wf(),
{
    Kernel { width: 1, weights: gaussian_tap_vec(), scale: 1_000_000_000_000 }
}

/// The 3x3 laplacian, which extracts edges and detail.
pub fn laplacian() -> (r: Kernel)
    ensures
        r@ == laplacian_spec(),
        r@.wf(),
{
    let r = Kernel { width: 3, weights: vec![0, 1, 0, 1, -4, 1, 0, 1, 0], scale: 1 };
    assert(r@.weights =~= laplacian_spec().weights);
    r
}

} // verus!
