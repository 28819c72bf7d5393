//! What the cache and the decode backend say to each other.

use vstd::prelude::*;

verus! {

/// A modification time, as a distance from the Unix epoch.
#[derive(Debug, Clone, Copy, PartialEq, Eq, Structural)]
pub struct ModTime {
    pub secs: i64,
    pub nanos: u32,
}

/// How a decoded frame has to be turned and mirrored to be shown upright.
#[derive(Debug, Clone, Copy, PartialEq, Eq, Structural)]
pub enum Orientation {
    Deg0,
    Deg0HorFlip,
    Deg90,
    Deg90VerFlip,
    Deg180,
    Deg180HorFlip,
    Deg270,
    Deg270VerFlip,
}

/// The mathematical content of a [`DecodedImage`].
pub struct ImageView {
    pub width: u32,
    pub height: u32,
    pub pixels: Seq<u8>,
}

impl ImageView {
    /// An image has at least one pixel, and four bytes for each pixel.
    pub open spec fn wf(self) -> bool {
        &&& self.width >= 1
        &&& self.height >= 1
        &&& self.pixels.len() == 4 * self.width * self.height
    }
}

/// A decoded RGBA8 pixel buffer, rows from top to bottom.
#[derive(Debug)]
pub struct DecodedImage {
    width: u32,
    height: u32,
    pixels: Vec<u8>,
}

impl View for DecodedImage {
    type V = ImageView;

    closed spec fn view(&self) -> ImageView {
        ImageView { width: self.width, height: self.height, pixels: self.pixels@ }
    }
}

impl DecodedImage {
    #[verifier::type_invariant]
    spec fn inv(&self) -> bool {
        self@.wf()
    }

    /// Takes the buffer if it holds exactly `width * height` RGBA pixels and
    /// the image is not empty.
    pub fn new(width: u32, height: u32, pixels: Vec<u8>) -> (image: Option<DecodedImage>)
        ensures
            image is Some <==> (ImageView { width, height, pixels: pixels@ }).wf(),
            image matches Some(i) ==> i@ == (ImageView { width, height, pixels: pixels@ }),
    {
        if width == 0 || height == 0 {
            return None;
        }
        proof {
            crate::image_cache::lemma_area_bound(width, height);
        }
        let area: u64 = (width as u64) * (height as u64);
        let expected: u128 = 4 * (area as u128);
        assert(expected == 4 * width * height) by (nonlinear_arith)
            requires
                expected == 4 * ((width as int) * (height as int)),
        ;
        if pixels.len() as u128 != expected {
            return None;
        }
        Some(DecodedImage { width, height, pixels })
    }

    pub fn dimensions(&self) -> (size: (u32, u32))
        ensures
            size.0 == self@.width,
            size.1 == self@.height,
            self@.wf(),
    {
        proof {
            use_type_invariant(self);
        }
        (self.width, self.height)
    }

    pub fn width(&self) -> (width: u32)
        ensures
            width == self@.width,
            self@.wf(),
    {
        proof {
            use_type_invariant(self);
        }
        self.width
    }

    pub fn height(&self) -> (height: u32)
        ensures
            height == self@.height,
            self@.wf(),
    {
        proof {
            use_type_invariant(self);
        }
        self.height
    }

    pub fn as_raw(&self) -> (pixels: &Vec<u8>)
        ensures
            pixels@ == self@.pixels,
            self@.wf(),
    {
        proof {
            use_type_invariant(self);
        }
        &self.pixels
    }

    pub fn into_raw(self) -> (pixels: Vec<u8>)
        ensures
            pixels@ == self@.pixels,
            self@.wf(),
    {
        proof {
            use_type_invariant(&self);
        }
        self.pixels
    }
}

/// The mathematical content of a [`LoadRequest`].
pub struct RequestView {
    pub req_id: u32,
    pub path: Seq<char>,
}

/// A request to decode the file at `path`, known to both sides as `req_id`.
#[derive(Debug, PartialEq, Eq)]
pub struct LoadRequest {
    pub req_id: u32,
    pub path: String,
}

impl View for LoadRequest {
    type V = RequestView;

    open spec fn view(&self) -> RequestView {
        RequestView { req_id: self.req_id, path: self.path@ }
    }
}

impl Clone for LoadRequest {
    fn clone(&self) -> (request: Self)
        ensures
            request@ == self@,
    {
        LoadRequest { req_id: self.req_id, path: self.path.clone() }
    }
}

/// The views of some requests, in their order.
pub open spec fn requests_view(requests: Seq<LoadRequest>) -> Seq<RequestView> {
    Seq::new(requests.len(), |i: int| requests[i]@)
}

/// One step of the decode backend's answer to a [`LoadRequest`].
///
/// For one request the backend sends `Start`, then one `Frame` for each
/// frame of the file, then either `Done` or `Failed`.
#[derive(Debug)]
pub enum LoadResult {
    /// Decoding begins. `mod_time` is the file's modification time, if the
    /// backend could read it.
    Start { req_id: u32, mod_time: Option<ModTime> },
    Frame { req_id: u32, image: DecodedImage, delay_nano: u64, orientation: Orientation },
    Done { req_id: u32 },
    Failed { req_id: u32 },
}

impl LoadResult {
    pub open spec fn spec_req_id(&self) -> u32 {
        match self {
            LoadResult::Start { req_id, .. } => *req_id,
            LoadResult::Frame { req_id, .. } => *req_id,
            LoadResult::Done { req_id } => *req_id,
            LoadResult::Failed { req_id } => *req_id,
        }
    }

    /// The request that this result answers.
    pub fn req_id(&self) -> (id: u32)
        ensures
            id == self.spec_req_id(),
    {
        match self {
            LoadResult::Start { req_id, .. } => *req_id,
            LoadResult::Frame { req_id, .. } => *req_id,
            LoadResult::Done { req_id } => *req_id,
            LoadResult::Failed { req_id } => *req_id,
        }
    }
}

} // verus!
