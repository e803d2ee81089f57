//! Images as ordered lists of single-channel byte planes.
use vstd::prelude::*;
use vstd::arithmetic::div_mod::lemma_fundamental_div_mod_converse;

verus! {

/// Mathematical content of a plane: its extents and its row-major bytes.
pub struct PlaneView {
    pub width: nat,
    pub height: nat,
    pub bytes: Seq<u8>,
}

impl PlaneView {
    /// The buffer holds exactly `width * height` bytes.
    pub open spec fn wf(self) -> bool {
        self.bytes.len() == self.width * self.height
    }

    /// The byte at column `x`, row `y`.
    pub open spec fn at(self, x: int, y: int) -> u8 {
        self.bytes[y * self.width + x]
    }
}

/// A single-channel 2-D byte grid, addressed as `bytes[y * width + x]`.
#[derive(Clone, Debug)]
pub struct ImageChannel {
    pub width: u32,
    pub height: u32,
    pub bytes: Vec<u8>,
}

impl View for ImageChannel {
    type V = PlaneView;

    open spec fn view(&self) -> PlaneView {
        PlaneView { width: self.width as nat, height: self.height as nat, bytes: self.bytes@ }
    }
}

impl ImageChannel {
    /// A plane of the given extents over `bytes`.
    pub fn new(width: u32, height: u32, bytes: Vec<u8>) -> (r: Self)
        ensures
            r.width == width,
            r.height == height,
            r.bytes@ == bytes@,
    {
        ImageChannel { width, height, bytes }
    }
}

/// Colour layouts the library handles; each names its channels in order.
#[derive(Clone, Copy, Debug, PartialEq, Eq, Structural)]
pub enum ColorType {
    /// Red, green, blue.
    Rgb,
    /// Red, green, blue, alpha.
    Rgba,
}

/// Number of channels of a colour layout.
pub open spec fn channel_count(color_type: ColorType) -> nat {
    match color_type {
        ColorType::Rgb => 3,
        ColorType::Rgba => 4,
    }
}

impl ColorType {
    /// Number of channels of this layout.
    pub fn channel_count(&self) -> (r: usize)
        ensures
            r == channel_count(*self),
    {
        match self {
            ColorType::Rgb => 3,
            ColorType::Rgba => 4,
        }
    }
}

/// Number of positions `c, c + n, c + 2n, ...` below `len`.
pub open spec fn stride_len(len: nat, n: nat, c: nat) -> nat {
    if c < len {
        ((len - c - 1) as int / n as int + 1) as nat
    } else {
        0
    }
}

/// Channel `c` of an interleaved buffer with `n` channels: the bytes at
/// `c, c + n, c + 2n, ...`.
pub open spec fn channel_of(data: Seq<u8>, n: nat, c: nat) -> Seq<u8> {
    Seq::new(stride_len(data.len(), n, c), |j: int| data[j * n + c])
}

/// The interleaving of equally long planes: byte `i` of each plane in plane
/// order, for each `i` in turn.
pub open spec fn interleave(planes: Seq<Seq<u8>>) -> Seq<u8> {
    Seq::new(
        planes[0].len() * planes.len(),
        |t: int| planes[t % (planes.len() as int)][t / (planes.len() as int)],
    )
}

/// All `n` channels of an interleaved buffer, in order.
pub open spec fn split_all(data: Seq<u8>, n: nat) -> Seq<Seq<u8>> {
    Seq::new(n, |c: int| channel_of(data, n, c as nat))
}

/// The byte buffers of a list of channels, in order.
pub open spec fn channel_bytes(chans: Seq<ImageChannel>) -> Seq<Seq<u8>> {
    chans.map_values(|ch: ImageChannel| ch.bytes@)
}

/// Position `j * n + c` lies in column `c` of row `j` of an `n`-wide layout.
pub proof fn lemma_stride_index(j: int, n: int, c: int)
    requires
        0 <= c < n,
    ensures
        (j * n + c) % n == c,
        (j * n + c) / n == j,
{
    lemma_fundamental_div_mod_converse(j * n + c, n, j, c);
}

/// A buffer of `count * n` bytes holds `count` bytes of each of its `n`
/// channels.
pub proof fn lemma_stride_len(count: nat, n: nat, c: nat)
    requires
        c < n,
    ensures
        stride_len(count * n, n, c) == count,
{
    if count > 0 {
        assert(count * n == (count - 1) * n + n) by (nonlinear_arith);
        lemma_fundamental_div_mod_converse(
            count * n - c - 1,
            n as int,
            count - 1,
            n - c - 1,
        );
    } else {
        assert(count * n == 0) by (nonlinear_arith)
            requires
                count == 0,
        ;
    }
}

/// An image: extents, colour layout and one plane per channel.
#[derive(Clone, Debug)]
pub struct Image {
    pub width: u32,
    pub height: u32,
    pub color_type: ColorType,
    pub channels: Vec<ImageChannel>,
}

impl Image {
    /// One well-formed plane per channel of the colour layout, each with the
    /// image's extents.
    pub open spec fn wf(&self) -> bool {
        &&& self.channels.len() == channel_count(self.color_type)
        &&& forall|c: int|
            0 <= c < self.channels.len() ==> {
                &&& (#[trigger] self.channels[c]).width == self.width
                &&& self.channels[c].height == self.height
                &&& self.channels[c]@.wf()
            }
    }

    /// Splits an interleaved buffer into one plane per channel of
    /// `color_type`: plane `c` takes the bytes at `c, c + n, c + 2n, ...`.
    /// The image is well formed when `data` holds `width * height` pixels.
    pub fn new(width: u32, height: u32, color_type: ColorType, data: &[u8]) -> (r: Image)
        ensures
            r.width == width,
            r.height == height,
            r.color_type == color_type,
            r.channels.len() == channel_count(color_type),
            forall|c: int|
                0 <= c < r.channels.len() ==> {
                    &&& (#[trigger] r.channels[c]).width == width
                    &&& r.channels[c].height == height
                    &&& r.channels[c].bytes@ == channel_of(
                        data@,
                        channel_count(color_type),
                        c as nat,
                    )
                },
            channel_bytes(r.channels@) == split_all(data@, channel_count(color_type)),
            data@.len() == width * height * channel_count(color_type) ==> r.wf(),
    {
        let n: usize = color_type.channel_count();
        let len: usize = data.len();
        let ghost d = data@;
        let mut chans: Vec<ImageChannel> = Vec::new();
        let mut c: usize = 0;
        while c < n
            invariant
                n == channel_count(color_type),
                len == d.len(),
                d == data@,
                c <= n,
                chans.len() == c,
                forall|k: int|
                    0 <= k < c ==> {
                        &&& (#[trigger] chans[k]).width == width
                        &&& chans[k].height == height
                        &&& chans[k].bytes@ == channel_of(d, n as nat, k as nat)
                    },
            decreases n - c,
        {
            let mut bytes: Vec<u8> = Vec::new();
            if c < len {
                let mut idx: usize = c;
                loop
                    invariant_except_break
                        idx < len,
                        idx == bytes.len() * n + c,
                    invariant
                        n == channel_count(color_type),
                        len == d.len(),
                        d == data@,
                        c < n,
                        forall|j: int| 0 <= j < bytes.len() ==> #[trigger] bytes@[j] == d[j * n + c],
                    ensures
                        bytes.len() >= 1,
                        (bytes.len() - 1) * n + c < len,
                        bytes.len() * n + c >= len,
                        forall|j: int| 0 <= j < bytes.len() ==> #[trigger] bytes@[j] == d[j * n + c],
                    decreases len - idx,
                {
                    bytes.push(data[idx]);
                    proof {
                        assert(bytes.len() * n == (bytes.len() - 1) * n + n) by (nonlinear_arith);
                    }
                    if len - idx <= n {
                        break;
                    }
                    idx = idx + n;
                }
                proof {
                    let b = bytes.len() as int;
                    lemma_fundamental_div_mod_converse(
                        len - c - 1,
                        n as int,
                        b - 1,
                        len - c - 1 - (b - 1) * n,
                    );
                }
            }
            assert(bytes@ =~= channel_of(d, n as nat, c as nat));
            chans.push(ImageChannel { width, height, bytes });
            c += 1;
        }
        let r = Image { width, height, color_type, channels: chans };
        proof {
            assert(channel_bytes(r.channels@) =~= split_all(d, n as nat));
            if d.len() == width * height * n {
                assert forall|k: int| 0 <= k < n implies (#[trigger] r.channels[k])@.wf() by {
                    lemma_stride_len((width * height) as nat, n as nat, k as nat);
                }
            }
        }
        r
    }

    /// An image assembled from planes that are already split.
    pub fn new_from_channels(
        width: u32,
        height: u32,
        color_type: ColorType,
        chans: Vec<ImageChannel>,
    ) -> (r: Image)
        ensures
            r.width == width,
            r.height == height,
            r.color_type == color_type,
            r.channels@ == chans@,
    {
        Image { width, height, color_type, channels: chans }
    }

    /// Applies `apply_func` to every channel plane, in channel order, and
    /// gathers the results into a new image with the same colour layout,
    /// whose extents are those of the first resulting plane.
    pub fn apply_to_channels<F: Fn(&ImageChannel) -> ImageChannel>(&self, apply_func: F) -> (r:
        Image)
        requires
            forall|c: int|
                0 <= c < self.channels.len() ==> apply_func.requires((&self.channels[c],)),
        ensures
            r.color_type == self.color_type,
            r.channels.len() == self.channels.len(),
            forall|c: int|
                0 <= c < self.channels.len() ==> apply_func.ensures(
                    (&self.channels[c],),
                    #[trigger] r.channels[c],
                ),
            r.channels.len() > 0 ==> r.width == r.channels[0].width && r.height
                == r.channels[0].height,
            r.channels.len() == 0 ==> r.width == self.width && r.height == self.height,
    {
        let mut out_channels: Vec<ImageChannel> = Vec::new();
        let mut c: usize = 0;
        while c < self.channels.len()
            invariant
                c <= self.channels.len(),
                out_channels.len() == c,
                forall|k: int|
                    0 <= k < self.channels.len() ==> apply_func.requires((&self.channels[k],)),
                forall|k: int|
                    0 <= k < c ==> apply_func.ensures(
                        (&self.channels[k],),
                        #[trigger] out_channels[k],
                    ),
            decreases self.channels.len() - c,
        {
            out_channels.push(apply_func(&self.channels[c]));
            c += 1;
        }
        let (width, height) = if out_channels.len() > 0 {
            (out_channels[0].width, out_channels[0].height)
        } else {
            (self.width, self.height)
        };
        Image::new_from_channels(width, height, self.color_type, out_channels)
    }

    /// Interleaves the channel planes into one buffer: byte `i` of each plane
    /// in channel order, for each `i` in turn.
    pub fn to_bytes(&self) -> (r: Vec<u8>)
        requires
            self.channels.len() > 0,
            forall|c: int|
                0 <= c < self.channels.len() ==> (#[trigger] self.channels[c]).bytes.len()
                    == self.channels[0].bytes.len(),
        ensures
            r@ == interleave(channel_bytes(self.channels@)),
    {
        let ghost planes = channel_bytes(self.channels@);
        let n: usize = self.channels.len();
        let channel_size: usize = self.channels[0].bytes.len();
        let mut out_bytes: Vec<u8> = Vec::new();
        let mut i: usize = 0;
        while i < channel_size
            invariant
                planes == channel_bytes(self.channels@),
                n == self.channels.len(),
                n > 0,
                channel_size == self.channels[0].bytes.len(),
                forall|c: int|
                    0 <= c < self.channels.len() ==> (#[trigger] self.channels[c]).bytes.len()
                        == channel_size,
                i <= channel_size,
                out_bytes.len() == i * n,
                forall|t: int|
                    0 <= t < out_bytes.len() ==> #[trigger] out_bytes@[t] == planes[t % (n as int)][t
                        / (n as int)],
            decreases channel_size - i,
        {
            let mut c: usize = 0;
            while c < n
                invariant
                    planes == channel_bytes(self.channels@),
                    n == self.channels.len(),
                    n > 0,
                    forall|k: int|
                        0 <= k < self.channels.len() ==> (#[trigger] self.channels[k]).bytes.len()
                            == channel_size,
                    i < channel_size,
                    c <= n,
                    out_bytes.len() == i * n + c,
                    forall|t: int|
                        0 <= t < out_bytes.len() ==> #[trigger] out_bytes@[t] == planes[t % (
                        n as int)][t / (n as int)],
                decreases n - c,
            {
                proof {
                    lemma_stride_index(i as int, n as int, c as int);
                }
                out_bytes.push(self.channels[c].bytes[i]);
                c += 1;
            }
            assert((i + 1) * n == i * n + n) by (nonlinear_arith);
            i += 1;
        }
        assert(out_bytes@ =~= interleave(planes));
        out_bytes
    }
}

} // verus!

