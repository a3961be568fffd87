//! Choice of the embedded image of a page that is extracted directly instead
//! of rendering the whole page.
use vstd::prelude::*;

use crate::error::ConversionError;

verus! {

/// Coverage threshold for direct extraction, as the fraction
/// `MIN_COVERAGE_NUMERATOR / MIN_COVERAGE_DENOMINATOR` (0.5%).
pub const MIN_COVERAGE_NUMERATOR: i128 = 5;

pub const MIN_COVERAGE_DENOMINATOR: i128 = 1000;

/// An axis-aligned box in page space (left, bottom, right, top), in a fixed
/// sub-point unit chosen by the caller and used for every box of one page.
#[derive(Debug, Clone, Copy, PartialEq, Eq, Structural)]
pub struct Rect {
    pub left: i32,
    pub bottom: i32,
    pub right: i32,
    pub top: i32,
}

impl Rect {
    pub open spec fn area_spec(&self) -> int {
        (self.right - self.left) * (self.top - self.bottom)
    }

    /// Signed area of the box: width times height.
    pub fn area(&self) -> (r: i128)
        ensures
            r == self.area_spec(),
            -0x1_0000_0000_0000_0000 < r < 0x1_0000_0000_0000_0000,
    {
        let w: i128 = self.right as i128 - self.left as i128;
        let h: i128 = self.top as i128 - self.bottom as i128;
        assert(-0x1_0000_0000 < w < 0x1_0000_0000);
        assert(-0x1_0000_0000 < h < 0x1_0000_0000);
        assert(-0x1_0000_0000_0000_0000 < w * h < 0x1_0000_0000_0000_0000) by (nonlinear_arith)
            requires
                -0x1_0000_0000 < w < 0x1_0000_0000,
                -0x1_0000_0000 < h < 0x1_0000_0000,
        ;
        w * h
    }
}

/// The variants of a page object; only images are extraction candidates.
#[derive(Debug, Clone, Copy, PartialEq, Eq, Structural)]
pub enum PageObjectKind {
    Image,
    Text,
    Path,
    Form,
    Other,
}

/// One top-level object of a page, as the rendering engine enumerates it.
#[derive(Debug, Clone, Copy, PartialEq, Eq, Structural)]
pub struct PageObject {
    pub kind: PageObjectKind,
    /// The object's bounds, when the engine could resolve them.
    pub bounds: Option<Rect>,
    /// Whether the raw bitmap of an image object can be retrieved.
    pub raw_bitmap_available: bool,
}

/// What the candidate selector reads of a page: its boxes and its objects in
/// enumeration order.
#[derive(Debug, Clone)]
pub struct PageLayout {
    pub crop_box: Option<Rect>,
    pub media_box: Option<Rect>,
    pub objects: Vec<PageObject>,
}

/// An embedded image that may be extracted directly.
#[derive(Debug, Clone, Copy, PartialEq, Eq, Structural)]
pub struct ImageCandidate {
    /// Position in the page's object enumeration.
    pub object_index: usize,
    pub bounds: Rect,
    /// Area of `bounds`; the coverage is `area / page_area`.
    pub area: i128,
    /// Area of the page's effective box.
    pub page_area: i128,
    pub can_extract_raw: bool,
}

/// The coverage denominator: the crop box if present, else the media box.
pub open spec fn effective_box(page: PageLayout) -> Option<Rect> {
    if page.crop_box is Some {
        page.crop_box
    } else {
        page.media_box
    }
}

/// An image object whose bounds the engine resolved.
pub open spec fn is_candidate_object(o: PageObject) -> bool {
    o.kind is Image && o.bounds is Some
}

pub open spec fn object_area(o: PageObject) -> int {
    o.bounds->Some_0.area_spec()
}

/// `area / page_area >= 0.5%`, for a positive page area.
pub open spec fn meets_coverage(area: int, page_area: int) -> bool {
    MIN_COVERAGE_DENOMINATOR * area >= MIN_COVERAGE_NUMERATOR * page_area
}

/// The object at `i` has the greatest coverage among the candidates, and no
/// later candidate has as much (the last of equal maxima is chosen).
pub open spec fn is_best_candidate(objects: Seq<PageObject>, i: int) -> bool {
    &&& 0 <= i < objects.len()
    &&& is_candidate_object(objects[i])
    &&& forall|j: int|
        0 <= j < objects.len() && is_candidate_object(objects[j]) ==> object_area(objects[j])
            <= object_area(objects[i])
    &&& forall|j: int|
        i < j < objects.len() && is_candidate_object(objects[j]) ==> object_area(objects[j])
            < object_area(objects[i])
}

/// Finds the embedded image with the greatest coverage of the page's
/// effective box, and accepts it when its coverage is at least 0.5%.
/// Returns the effective box beside it; `None` sends the page to rendering.
/// A page whose effective box has no positive area offers no candidate.
pub fn find_best_image_candidate(page: &PageLayout) -> (r: Result<
    (Option<ImageCandidate>, Rect),
    ConversionError,
>)
    ensures
        effective_box(*page) is None <==> r is Err,
        r is Err ==> r->Err_0 == ConversionError::PageAccessFailed,
        r matches Ok((best, crop)) ==> {
            &&& Some(crop) == effective_box(*page)
            &&& best matches Some(c) ==> {
                &&& crop.area_spec() > 0
                &&& is_best_candidate(page.objects@, c.object_index as int)
                &&& c.bounds == page.objects@[c.object_index as int].bounds->Some_0
                &&& c.can_extract_raw == page.objects@[c.object_index as int].raw_bitmap_available
                &&& c.area == c.bounds.area_spec()
                &&& c.page_area == crop.area_spec()
                &&& meets_coverage(c.area as int, c.page_area as int)
            }
            &&& best is None ==> (crop.area_spec() <= 0 || forall|j: int|
                0 <= j < page.objects@.len() && is_candidate_object(page.objects@[j])
                    ==> !meets_coverage(object_area(page.objects@[j]), crop.area_spec()))
        },
{
    let crop = match page.crop_box {
        Some(b) => b,
        None => match page.media_box {
            Some(b) => b,
            None => {
                return Err(ConversionError::PageAccessFailed);
            },
        },
    };
    let page_area = crop.area();
    if page_area <= 0 {
        return Ok((None, crop));
    }
    let mut best: Option<ImageCandidate> = None;
    let n = page.objects.len();
    let mut i: usize = 0;
    while i < n
        invariant
            n == page.objects@.len(),
            0 <= i <= n,
            page_area == crop.area_spec(),
            best is None ==> forall|j: int|
                0 <= j < i ==> !is_candidate_object(#[trigger] page.objects@[j]),
            best matches Some(c) ==> {
                &&& c.object_index < i
                &&& is_candidate_object(page.objects@[c.object_index as int])
                &&& c.bounds == page.objects@[c.object_index as int].bounds->Some_0
                &&& c.can_extract_raw == page.objects@[c.object_index as int].raw_bitmap_available
                &&& c.area == c.bounds.area_spec()
                &&& -0x1_0000_0000_0000_0000 < c.area < 0x1_0000_0000_0000_0000
                &&& c.page_area == page_area
                &&& forall|j: int|
                    0 <= j < i && is_candidate_object(#[trigger] page.objects@[j])
                        ==> object_area(page.objects@[j]) <= c.area
                &&& forall|j: int|
                    c.object_index < j < i && is_candidate_object(#[trigger] page.objects@[j])
                        ==> object_area(page.objects@[j]) < c.area
            },
        decreases n - i,
    {
        let o = page.objects[i];
        if let PageObjectKind::Image = o.kind {
            if let Some(b) = o.bounds {
                let area = b.area();
                let better = match best {
                    None => true,
                    Some(c) => area >= c.area,
                };
                if better {
                    best = Some(
                        ImageCandidate {
                            object_index: i,
                            bounds: b,
                            area,
                            page_area,
                            can_extract_raw: o.raw_bitmap_available,
                        },
                    );
                }
            }
        }
        i = i + 1;
    }
    match best {
        Some(c) => {
            if MIN_COVERAGE_DENOMINATOR * c.area >= MIN_COVERAGE_NUMERATOR * page_area {
                Ok((Some(c), crop))
            } else {
                Ok((None, crop))
            }
        },
        None => Ok((None, crop)),
    }
}

} // verus!
