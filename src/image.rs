use vstd::prelude::*;

use crate::error::FpError;

verus! {

/// The resolution assumed for an image whose device declares none.
pub const DEFAULT_PPI: u32 = 500;

/// A fingerprint image: its size, its resolution in points per inch, its
/// greyscale pixels (row-major, one byte per pixel) and the binarized form of
/// those pixels (same dimensions, one byte per pixel). It does not change once
/// made.
#[derive(Debug)]
pub struct FpImage {
    width: u32,
    height: u32,
    ppi: u32,
    data: Vec<u8>,
    binarized: Vec<u8>,
}

/// The number of pixels of a `width` by `height` image.
pub open spec fn pixel_count(width: u32, height: u32) -> nat {
    (width as nat) * (height as nat)
}

impl FpImage {
    /// Both buffers hold one byte per pixel.
    pub closed spec fn wf(&self) -> bool {
        &&& self.data@.len() == pixel_count(self.width, self.height)
        &&& self.binarized@.len() == pixel_count(self.width, self.height)
    }

    pub closed spec fn spec_width(&self) -> u32 {
        self.width
    }

    pub closed spec fn spec_height(&self) -> u32 {
        self.height
    }

    pub closed spec fn spec_ppi(&self) -> u32 {
        self.ppi
    }

    pub closed spec fn spec_data(&self) -> Seq<u8> {
        self.data@
    }

    pub closed spec fn spec_binarized(&self) -> Seq<u8> {
        self.binarized@
    }

    /// A blank `width` by `height` image at the default resolution: every
    /// greyscale and binarized pixel is 0.
    pub fn new(width: u32, height: u32) -> (r: FpImage)
        requires
            pixel_count(width, height) <= usize::MAX,
        ensures
            r.wf(),
            r.spec_width() == width,
            r.spec_height() == height,
            r.spec_ppi() == DEFAULT_PPI,
            r.spec_data() == Seq::new(pixel_count(width, height), |i: int| 0u8),
            r.spec_binarized() == Seq::new(pixel_count(width, height), |i: int| 0u8),
    {
        let n: usize = (width as usize) * (height as usize);
        let mut data: Vec<u8> = Vec::new();
        let mut binarized: Vec<u8> = Vec::new();
        let mut i: usize = 0;
        while i < n
            invariant
                i <= n,
                n == pixel_count(width, height),
                data@ == Seq::new(i as nat, |k: int| 0u8),
                binarized@ == Seq::new(i as nat, |k: int| 0u8),
            decreases n - i,
        {
            data.push(0u8);
            binarized.push(0u8);
            i = i + 1;
            assert(data@ =~= Seq::new(i as nat, |k: int| 0u8));
            assert(binarized@ =~= Seq::new(i as nat, |k: int| 0u8));
        }
        FpImage { width, height, ppi: DEFAULT_PPI, data, binarized }
    }

    /// An image from what the hardware delivered. A missing resolution is
    /// taken as the default; buffers that do not hold one byte per pixel are
    /// malformed data.
    pub fn from_parts(
        width: u32,
        height: u32,
        ppi: Option<u32>,
        data: Vec<u8>,
        binarized: Vec<u8>,
    ) -> (r: Result<FpImage, FpError>)
        ensures
            (data@.len() == pixel_count(width, height) && binarized@.len() == pixel_count(
                width,
                height,
            )) <==> r.is_ok(),
            r.is_err() ==> r == Err::<FpImage, FpError>(FpError::ProtocolError),
            r.is_ok() ==> {
                let img = r.unwrap();
                &&& img.wf()
                &&& img.spec_width() == width
                &&& img.spec_height() == height
                &&& img.spec_ppi() == match ppi {
                    Some(p) => p,
                    None => DEFAULT_PPI,
                }
                &&& img.spec_data() == data@
                &&& img.spec_binarized() == binarized@
            },
    {
        assert((width as nat) * (height as nat) <= 0xffff_ffffnat * 0xffff_ffffnat) by (nonlinear_arith)
            requires
                width <= 0xffff_ffff,
                height <= 0xffff_ffff,
        ;
        let n: u64 = (width as u64) * (height as u64);
        if data.len() as u64 != n || binarized.len() as u64 != n {
            return Err(FpError::ProtocolError);
        }
        let ppi = match ppi {
            Some(p) => p,
            None => DEFAULT_PPI,
        };
        Ok(FpImage { width, height, ppi, data, binarized })
    }

    /// The pixel width of the image.
    pub fn width(&self) -> (r: u32)
        ensures
            r == self.spec_width(),
    {
        self.width
    }

    /// The pixel height of the image.
    pub fn height(&self) -> (r: u32)
        ensures
            r == self.spec_height(),
    {
        self.height
    }

    /// The resolution of the image in points per inch.
    pub fn ppi(&self) -> (r: u32)
        ensures
            r == self.spec_ppi(),
    {
        self.ppi
    }

    /// A copy of the greyscale pixels.
    pub fn data(&self) -> (r: Vec<u8>)
        ensures
            r@ == self.spec_data(),
    {
        let r = self.data.clone();
        assert(r@ =~= self.data@);
        r
    }

    /// A copy of the binarized pixels.
    pub fn binarized(&self) -> (r: Vec<u8>)
        ensures
            r@ == self.spec_binarized(),
    {
        let r = self.binarized.clone();
        assert(r@ =~= self.binarized@);
        r
    }
}

} // verus!
