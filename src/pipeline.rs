//! The page pipeline of a PDF-to-images conversion.
//!
//! Pages are visited in order; each is either extracted directly from an
//! embedded image or queued for rendering. Rendered pages are encoded apart
//! (possibly in parallel), and both populations are then recombined by page
//! number.
use vstd::prelude::*;

use crate::error::ConversionError;
use crate::naming::{page_filename, page_filename_spec, ImageFormat};

verus! {

/// DPI used when the caller passes 0.
pub const DEFAULT_DPI: u32 = 300;

/// The rendering engine's native resolution: one pixel per point.
pub const NATIVE_DPI: u32 = 72;

/// One output page image, tagged with its source page number.
#[derive(Debug)]
pub struct PageImage {
    pub page_number: u32,
    pub filename: String,
    pub bytes: Vec<u8>,
}

/// A page that must be rendered; sizes in thousandths of a point.
#[derive(Debug, Clone, Copy, PartialEq, Eq, Structural)]
pub struct PendingPage {
    pub page_number: u32,
    pub width_millipoints: u32,
    pub height_millipoints: u32,
}

pub open spec fn effective_dpi_spec(dpi: u32) -> u32 {
    if dpi == 0 {
        DEFAULT_DPI
    } else {
        dpi
    }
}

/// The DPI of a conversion: 0 stands for the default of 300.
pub fn effective_dpi(dpi: u32) -> (r: u32)
    ensures
        r == effective_dpi_spec(dpi),
        r > 0,
{
    if dpi == 0 {
        DEFAULT_DPI
    } else {
        dpi
    }
}

pub open spec fn pages_to_process_spec(max_pages: u32, page_count: u32) -> u32 {
    if max_pages > 0 && max_pages < page_count {
        max_pages
    } else {
        page_count
    }
}

/// How many pages a conversion visits: `max_pages` when it is non-zero and
/// below the page count, else all of them.
pub fn pages_to_process(max_pages: u32, page_count: u32) -> (r: u32)
    ensures
        r == pages_to_process_spec(max_pages, page_count),
        r <= page_count,
        page_count > 0 ==> r > 0,
{
    if max_pages > 0 && max_pages < page_count {
        max_pages
    } else {
        page_count
    }
}

/// `millipoints / 1000 * dpi / 72`, rounded to the nearest integer (halves up).
pub open spec fn scaled_pixels_spec(millipoints: int, dpi: int) -> int {
    (2 * (millipoints * dpi) + 72000) / 144000
}

/// Pixel count of a length in thousandths of a point at a given DPI.
pub fn scaled_pixels(millipoints: u32, dpi: u32) -> (r: u64)
    ensures
        r == scaled_pixels_spec(millipoints as int, dpi as int),
{
    assert(millipoints as int * dpi as int <= 0xffff_ffff * 0xffff_ffff) by (nonlinear_arith)
        requires
            millipoints <= 0xffff_ffff,
            dpi <= 0xffff_ffff,
    ;
    let p: u128 = millipoints as u128 * dpi as u128;
    let q: u128 = 2 * p + 72000;
    assert(q / 144000 <= 0xffff_ffff_ffff_ffff) by (nonlinear_arith)
        requires
            q <= 2 * (0xffff_ffff * 0xffff_ffff) + 72000,
    ;
    (q / 144000) as u64
}

/// Sizes of the render of a pending page: the engine renders it at
/// `render_*` pixels; when `resize` holds, the bitmap is then scaled to
/// `output_*` pixels.
#[derive(Debug, Clone, Copy, PartialEq, Eq, Structural)]
pub struct RenderPlan {
    pub render_width: u64,
    pub render_height: u64,
    pub resize: bool,
    pub output_width: u64,
    pub output_height: u64,
}

pub open spec fn at_least_one(n: int) -> int {
    if n < 1 {
        1
    } else {
        n
    }
}

pub open spec fn render_plan_spec(page: PendingPage, dpi: u32, lossless: bool) -> RenderPlan {
    let d = effective_dpi_spec(dpi) as int;
    if lossless {
        RenderPlan {
            render_width: at_least_one(scaled_pixels_spec(page.width_millipoints as int, d)) as u64,
            render_height: at_least_one(
                scaled_pixels_spec(page.height_millipoints as int, d),
            ) as u64,
            resize: false,
            output_width: at_least_one(scaled_pixels_spec(page.width_millipoints as int, d)) as u64,
            output_height: at_least_one(
                scaled_pixels_spec(page.height_millipoints as int, d),
            ) as u64,
        }
    } else {
        RenderPlan {
            render_width: scaled_pixels_spec(page.width_millipoints as int, 72) as u64,
            render_height: scaled_pixels_spec(page.height_millipoints as int, 72) as u64,
            resize: d != 72,
            output_width: scaled_pixels_spec(page.width_millipoints as int, d) as u64,
            output_height: scaled_pixels_spec(page.height_millipoints as int, d) as u64,
        }
    }
}

/// How a pending page is rendered. Lossy mode renders at the native 72 DPI
/// and rescales to the target DPI unless it is 72; lossless mode renders
/// at the target DPI directly, at least one pixel each way.
pub fn render_plan(page: PendingPage, dpi: u32, lossless: bool) -> (r: RenderPlan)
    ensures
        r == render_plan_spec(page, dpi, lossless),
{
    let d = effective_dpi(dpi);
    if lossless {
        let w = scaled_pixels(page.width_millipoints, d);
        let h = scaled_pixels(page.height_millipoints, d);
        let w1 = if w < 1 {
            1
        } else {
            w
        };
        let h1 = if h < 1 {
            1
        } else {
            h
        };
        RenderPlan {
            render_width: w1,
            render_height: h1,
            resize: false,
            output_width: w1,
            output_height: h1,
        }
    } else {
        RenderPlan {
            render_width: scaled_pixels(page.width_millipoints, NATIVE_DPI),
            render_height: scaled_pixels(page.height_millipoints, NATIVE_DPI),
            resize: d != NATIVE_DPI,
            output_width: scaled_pixels(page.width_millipoints, d),
            output_height: scaled_pixels(page.height_millipoints, d),
        }
    }
}

pub open spec fn strictly_increasing_pages(s: Seq<PageImage>) -> bool {
    forall|i: int, j: int| 0 <= i < j < s.len() ==> s[i].page_number < s[j].page_number
}

pub open spec fn distinct_pages(s: Seq<PageImage>) -> bool {
    forall|i: int, j: int|
        0 <= i < s.len() && 0 <= j < s.len() && i != j ==> s[i].page_number != s[j].page_number
}

pub open spec fn strictly_increasing_pending(s: Seq<PendingPage>) -> bool {
    forall|i: int, j: int| 0 <= i < j < s.len() ==> s[i].page_number < s[j].page_number
}

/// Orders entries by ascending page number.
fn sort_by_page(entries: Vec<PageImage>) -> (r: Vec<PageImage>)
    requires
        distinct_pages(entries@),
    ensures
        strictly_increasing_pages(r@),
        r@.len() == entries@.len(),
        forall|x: PageImage| r@.contains(x) <==> entries@.contains(x),
{
    let ghost input = entries@;
    let mut rest = entries;
    let mut out: Vec<PageImage> = Vec::new();
    while rest.len() > 0
        invariant
            distinct_pages(rest@),
            strictly_increasing_pages(out@),
            forall|i: int, j: int|
                0 <= i < out@.len() && 0 <= j < rest@.len() ==> out@[i].page_number
                    < rest@[j].page_number,
            out@.len() + rest@.len() == input.len(),
            forall|x: PageImage| input.contains(x) <==> (out@.contains(x) || rest@.contains(x)),
        decreases rest@.len(),
    {
        let n = rest.len();
        let mut m: usize = 0;
        let mut k: usize = 1;
        while k < n
            invariant
                n == rest@.len(),
                0 <= m < n,
                1 <= k <= n,
                forall|j: int| 0 <= j < k ==> rest@[m as int].page_number <= rest@[j].page_number,
            decreases n - k,
        {
            if rest[k].page_number < rest[m].page_number {
                m = k;
            }
            k = k + 1;
        }
        let ghost old_rest = rest@;
        let ghost old_out = out@;
        let x = rest.remove(m);
        out.push(x);
        proof {
            assert(rest@ =~= old_rest.remove(m as int));
            assert forall|j: int| 0 <= j < rest@.len() implies x.page_number
                < #[trigger] rest@[j].page_number by {
                let jj = if j < m {
                    j
                } else {
                    j + 1
                };
                assert(rest@[j] == old_rest[jj]);
                assert(jj != m);
            }
            assert forall|i: int, j: int|
                0 <= i < out@.len() && 0 <= j < rest@.len() implies out@[i].page_number
                < rest@[j].page_number by {
                let jj = if j < m {
                    j
                } else {
                    j + 1
                };
                assert(rest@[j] == old_rest[jj]);
                if i < old_out.len() {
                    assert(out@[i] == old_out[i]);
                }
            }
            assert forall|i: int, j: int|
                0 <= i < rest@.len() && 0 <= j < rest@.len() && i != j implies rest@[i].page_number
                != rest@[j].page_number by {
                let ii = if i < m {
                    i
                } else {
                    i + 1
                };
                let jj = if j < m {
                    j
                } else {
                    j + 1
                };
                assert(rest@[i] == old_rest[ii]);
                assert(rest@[j] == old_rest[jj]);
            }
            assert forall|i: int, j: int| 0 <= i < j < out@.len() implies out@[i].page_number
                < out@[j].page_number by {
                if j < old_out.len() {
                    assert(out@[i] == old_out[i]);
                    assert(out@[j] == old_out[j]);
                } else {
                    assert(out@[i] == old_out[i]);
                    assert(out@[j] == old_rest[m as int]);
                }
            }
            assert forall|y: PageImage| input.contains(y) <==> (out@.contains(y) || rest@.contains(
                y,
            )) by {
                if old_out.contains(y) {
                    let i = choose|i: int| 0 <= i < old_out.len() && old_out[i] == y;
                    assert(out@[i] == y);
                }
                if old_rest.contains(y) {
                    let i = choose|i: int| 0 <= i < old_rest.len() && old_rest[i] == y;
                    if i == m {
                        assert(out@[old_out.len() as int] == y);
                    } else if i < m {
                        assert(rest@[i] == y);
                    } else {
                        assert(rest@[i - 1] == y);
                    }
                }
                if out@.contains(y) {
                    let i = choose|i: int| 0 <= i < out@.len() && out@[i] == y;
                    if i < old_out.len() {
                        assert(old_out[i] == y);
                    } else {
                        assert(old_rest[m as int] == y);
                    }
                }
                if rest@.contains(y) {
                    let i = choose|i: int| 0 <= i < rest@.len() && rest@[i] == y;
                    if i < m {
                        assert(old_rest[i] == y);
                    } else {
                        assert(old_rest[i + 1] == y);
                    }
                }
            }
        }
    }
    out
}

pub open spec fn has_page(s: Seq<PageImage>, p: int) -> bool {
    exists|i: int| 0 <= i < s.len() && #[trigger] s[i].page_number == p
}

/// A strictly increasing sequence of page numbers in `1..=n` that holds
/// every page of `1..=n` is exactly `1, 2, ..., n`.
proof fn lemma_consecutive_pages(s: Seq<PageImage>, n: int)
    requires
        n >= 0,
        strictly_increasing_pages(s),
        forall|i: int| 0 <= i < s.len() ==> 1 <= #[trigger] s[i].page_number <= n,
        forall|p: int| 1 <= p <= n ==> #[trigger] has_page(s, p),
    ensures
        s.len() == n,
        forall|k: int| 0 <= k < s.len() ==> #[trigger] s[k].page_number == k + 1,
{
    assert forall|k: int| 0 <= k < s.len() implies s[k].page_number >= k + 1 by {
        lemma_pages_lower_bound(s, k);
    }
    assert forall|k: int| 0 <= k < s.len() implies #[trigger] s[k].page_number == k + 1 by {
        lemma_page_at(s, n, k);
    }
    if s.len() > n {
        lemma_pages_lower_bound(s, n);
    }
    if s.len() < n {
        assert(has_page(s, n));
        let m = choose|i: int| 0 <= i < s.len() && #[trigger] s[i].page_number == n;
        lemma_page_at(s, n, m);
    }
}

proof fn lemma_page_at(s: Seq<PageImage>, n: int, k: int)
    requires
        strictly_increasing_pages(s),
        forall|i: int| 0 <= i < s.len() ==> 1 <= #[trigger] s[i].page_number <= n,
        forall|p: int| 1 <= p <= n ==> #[trigger] has_page(s, p),
        0 <= k < s.len(),
    ensures
        s[k].page_number == k + 1,
    decreases k,
{
    lemma_pages_lower_bound(s, k);
    let p = k + 1;
    assert(has_page(s, p));
    let m = choose|i: int| 0 <= i < s.len() && #[trigger] s[i].page_number == p;
    if m < k {
        lemma_page_at(s, n, k - 1);
        if m < k - 1 {
            assert(s[m].page_number < s[k - 1].page_number);
        }
    } else if m > k {
        assert(s[k].page_number < s[m].page_number);
    }
}

proof fn lemma_pages_lower_bound(s: Seq<PageImage>, k: int)
    requires
        strictly_increasing_pages(s),
        forall|i: int| 0 <= i < s.len() ==> 1 <= #[trigger] s[i].page_number,
        0 <= k < s.len(),
    ensures
        s[k].page_number >= k + 1,
    decreases k,
{
    if k > 0 {
        lemma_pages_lower_bound(s, k - 1);
        assert(s[k - 1].page_number < s[k].page_number);
    }
}

pub open spec fn has_pending(s: Seq<PendingPage>, p: int) -> bool {
    exists|i: int| 0 <= i < s.len() && #[trigger] s[i].page_number == p
}

/// The state of a PDF-to-images conversion between its two phases: pages
/// `1..=processed` have been visited, each either extracted (with its
/// encoded bytes) or queued for rendering.
#[derive(Debug)]
pub struct PageJob {
    pub pages_to_process: u32,
    pub processed: u32,
    pub format: ImageFormat,
    pub extracted: Vec<PageImage>,
    pub pending: Vec<PendingPage>,
}

/// `bytes` is the output of page `page`: its directly extracted image, or
/// the encoding of its render.
pub open spec fn produced_from(
    job: PageJob,
    encoded: Seq<Result<Vec<u8>, ConversionError>>,
    page: int,
    bytes: Vec<u8>,
) -> bool {
    ||| exists|a: int|
        0 <= a < job.extracted@.len() && #[trigger] job.extracted@[a].page_number == page
            && job.extracted@[a].bytes == bytes
    ||| exists|b: int|
        0 <= b < job.pending@.len() && #[trigger] job.pending@[b].page_number == page && encoded[b]
            == Ok::<Vec<u8>, ConversionError>(bytes)
}

/// `e` is the first failure among the encodings, in pending order.
pub open spec fn is_first_error(encoded: Seq<Result<Vec<u8>, ConversionError>>, e: ConversionError) -> bool {
    exists|b: int|
        0 <= b < encoded.len() && encoded[b] == Err::<Vec<u8>, ConversionError>(e) && forall|c: int|
            0 <= c < b ==> (#[trigger] encoded[c]) is Ok
}

impl PageJob {
    pub open spec fn wf(&self) -> bool {
        &&& 1 <= self.pages_to_process
        &&& self.processed <= self.pages_to_process
        &&& strictly_increasing_pages(self.extracted@)
        &&& strictly_increasing_pending(self.pending@)
        &&& forall|a: int|
            0 <= a < self.extracted@.len() ==> 1 <= #[trigger] self.extracted@[a].page_number
                <= self.processed && self.extracted@[a].filename@ == page_filename_spec(
                self.extracted@[a].page_number as nat,
                self.format,
            )
        &&& forall|b: int|
            0 <= b < self.pending@.len() ==> 1 <= #[trigger] self.pending@[b].page_number
                <= self.processed
        &&& forall|p: int|
            1 <= p <= self.processed ==> has_page(self.extracted@, p) || has_pending(
                self.pending@,
                p,
            )
        &&& forall|a: int, b: int|
            0 <= a < self.extracted@.len() && 0 <= b < self.pending@.len()
                ==> #[trigger] self.extracted@[a].page_number != #[trigger] self.pending@[b].page_number
    }

    pub open spec fn is_done(&self) -> bool {
        self.processed == self.pages_to_process
    }

    /// Starts a conversion of a document of `page_count` pages, visiting at
    /// most `max_pages` of them (0: all). A document without pages is refused.
    pub fn new(page_count: u32, max_pages: u32, format: ImageFormat) -> (r: Result<
        PageJob,
        ConversionError,
    >)
        ensures
            page_count == 0 <==> r is Err,
            r is Err ==> r->Err_0 == ConversionError::NoPages,
            r matches Ok(job) ==> {
                &&& job.wf()
                &&& job.pages_to_process == pages_to_process_spec(max_pages, page_count)
                &&& job.processed == 0
                &&& job.format == format
                &&& job.extracted@.len() == 0
                &&& job.pending@.len() == 0
            },
    {
        if page_count == 0 {
            return Err(ConversionError::NoPages);
        }
        Ok(
            PageJob {
                pages_to_process: pages_to_process(max_pages, page_count),
                processed: 0,
                format,
                extracted: Vec::new(),
                pending: Vec::new(),
            },
        )
    }

    /// The number of the page to visit next, or `None` once all are visited.
    pub fn next_page_number(&self) -> (r: Option<u32>)
        requires
            self.wf(),
        ensures
            self.is_done() <==> r is None,
            r matches Some(p) ==> p == self.processed + 1,
    {
        if self.processed < self.pages_to_process {
            Some(self.processed + 1)
        } else {
            None
        }
    }

    /// Records the outcome of the next page: `Some(bytes)` when its embedded
    /// image was extracted, `None` when it had no candidate or the extraction
    /// failed; such a page is queued for rendering.
    pub fn record_page(
        &mut self,
        width_millipoints: u32,
        height_millipoints: u32,
        extraction: Option<Vec<u8>>,
    )
        requires
            old(self).wf(),
            !old(self).is_done(),
        ensures
            final(self).wf(),
            final(self).processed == old(self).processed + 1,
            final(self).pages_to_process == old(self).pages_to_process,
            final(self).format == old(self).format,
            extraction matches Some(bytes) ==> {
                &&& final(self).extracted@.len() == old(self).extracted@.len() + 1
                &&& final(self).extracted@.drop_last() == old(self).extracted@
                &&& final(self).extracted@.last().page_number == final(self).processed
                &&& final(self).extracted@.last().filename@ == page_filename_spec(
                    final(self).processed as nat,
                    final(self).format,
                )
                &&& final(self).extracted@.last().bytes == bytes
                &&& final(self).pending@ == old(self).pending@
            },
            extraction is None ==> {
                &&& final(self).pending@ == old(self).pending@.push(
                    PendingPage {
                        page_number: final(self).processed,
                        width_millipoints,
                        height_millipoints,
                    },
                )
                &&& final(self).extracted@ == old(self).extracted@
            },
    {
        let page = self.processed + 1;
        let ghost old_ext = self.extracted@;
        let ghost old_pen = self.pending@;
        match extraction {
            Some(bytes) => {
                let filename = page_filename(page, self.format);
                self.extracted.push(PageImage { page_number: page, filename, bytes });
            },
            None => {
                self.pending.push(
                    PendingPage { page_number: page, width_millipoints, height_millipoints },
                );
            },
        }
        self.processed = page;
        proof {
            assert(self.extracted@.len() > old_ext.len() ==> self.extracted@.drop_last() =~= old_ext);
            assert forall|p: int| 1 <= p <= self.processed implies has_page(self.extracted@, p)
                || has_pending(self.pending@, p) by {
                if p < page {
                    if has_page(old_ext, p) {
                        let i = choose|i: int| 0 <= i < old_ext.len() && #[trigger] old_ext[i].page_number == p;
                        assert(self.extracted@[i] == old_ext[i]);
                    } else {
                        let i = choose|i: int| 0 <= i < old_pen.len() && #[trigger] old_pen[i].page_number == p;
                        assert(self.pending@[i] == old_pen[i]);
                    }
                } else {
                    if self.extracted@.len() > old_ext.len() {
                        assert(self.extracted@[old_ext.len() as int].page_number == p);
                    } else {
                        assert(self.pending@[old_pen.len() as int].page_number == p);
                    }
                }
            }
        }
    }

    /// Recombines the extracted pages with the encodings of the rendered
    /// ones (`encoded[b]` belongs to `pending[b]`), ordered by ascending page
    /// number, as (file name, bytes) pairs. The first failed encoding, in
    /// pending order, fails the whole conversion.
    pub fn finish(self, encoded: Vec<Result<Vec<u8>, ConversionError>>) -> (r: Result<
        Vec<(String, Vec<u8>)>,
        ConversionError,
    >)
        requires
            self.wf(),
            self.is_done(),
            encoded@.len() == self.pending@.len(),
        ensures
            (forall|b: int| 0 <= b < encoded@.len() ==> (#[trigger] encoded@[b]) is Ok) <==> r is Ok,
            r matches Err(e) ==> is_first_error(encoded@, e),
            r matches Ok(out) ==> {
                &&& out@.len() == self.pages_to_process
                &&& forall|i: int|
                    0 <= i < out@.len() ==> (#[trigger] out@[i]).0@ == page_filename_spec(
                        (i + 1) as nat,
                        self.format,
                    ) && produced_from(self, encoded@, i + 1, out@[i].1)
            },
    {
        let ghost job = self;
        let ghost enc0 = encoded@;
        let PageJob { pages_to_process, processed, format, extracted, pending } = self;
        let ghost ext = extracted@;
        let ne = extracted.len();
        let mut all = extracted;
        let mut enc = encoded;
        let np = pending.len();
        let mut b: usize = 0;
        while b < np
            invariant
                job.wf(),
                ext == job.extracted@,
                pending@ == job.pending@,
                format == job.format,
                np == pending@.len(),
                ne == ext.len(),
                enc0.len() == np,
                enc0 == encoded@,
                0 <= b <= np,
                enc@ == enc0.subrange(b as int, np as int),
                all@.len() == ne + b,
                forall|i: int| 0 <= i < ne ==> #[trigger] all@[i] == ext[i],
                forall|c: int| 0 <= c < b ==> (#[trigger] enc0[c]) is Ok,
                forall|c: int|
                    0 <= c < b ==> {
                        &&& (#[trigger] all@[ne + c]).page_number == pending@[c].page_number
                        &&& all@[ne + c].filename@ == page_filename_spec(
                            pending@[c].page_number as nat,
                            format,
                        )
                        &&& enc0[c] == Ok::<Vec<u8>, ConversionError>(all@[ne + c].bytes)
                    },
            decreases np - b,
        {
            let ghost before = enc@;
            let item = enc.remove(0);
            assert(item == enc0[b as int]);
            assert(enc@ =~= enc0.subrange(b + 1, np as int));
            match item {
                Err(e) => {
                    assert(enc0[b as int] == Err::<Vec<u8>, ConversionError>(e));
                    assert(!(enc0[b as int] is Ok));
                    assert(is_first_error(enc0, e));
                    return Err(e);
                },
                Ok(bytes) => {
                    let p = pending[b].page_number;
                    let filename = page_filename(p, format);
                    all.push(PageImage { page_number: p, filename, bytes });
                    assert(all@[ne + b] == PageImage { page_number: p, filename, bytes });
                },
            }
            b = b + 1;
        }
        let ghost all0 = all@;
        proof {
            assert forall|i: int, j: int|
                0 <= i < all0.len() && 0 <= j < all0.len() && i != j implies all0[i].page_number
                != all0[j].page_number by {
                if i < ne && j < ne {
                } else if i >= ne && j >= ne {
                    let ci = i - ne;
                    let cj = j - ne;
                    assert(all0[ne + ci].page_number == job.pending@[ci].page_number);
                    assert(all0[ne + cj].page_number == job.pending@[cj].page_number);
                } else if i < ne {
                    let cj = j - ne;
                    assert(all0[ne + cj].page_number == job.pending@[cj].page_number);
                    assert(all0[i] == ext[i]);
                    assert(ext[i].page_number != job.pending@[cj].page_number);
                } else {
                    let ci = i - ne;
                    assert(all0[ne + ci].page_number == job.pending@[ci].page_number);
                    assert(all0[j] == ext[j]);
                    assert(ext[j].page_number != job.pending@[ci].page_number);
                }
            }
        }
        let sorted = sort_by_page(all);
        let ghost s0 = sorted@;
        proof {
            let n = pages_to_process as int;
            assert forall|i: int| 0 <= i < s0.len() implies 1 <= #[trigger] s0[i].page_number
                <= n by {
                assert(all0.contains(s0[i]));
                let k = choose|k: int| 0 <= k < all0.len() && all0[k] == s0[i];
                if k < ne {
                    assert(all0[k] == ext[k]);
                } else {
                    let c = k - ne;
                    assert(all0[ne + c].page_number == job.pending@[c].page_number);
                }
            }
            assert forall|p: int| 1 <= p <= n implies #[trigger] has_page(s0, p) by {
                if has_page(ext, p) {
                    let a = choose|a: int| 0 <= a < ext.len() && #[trigger] ext[a].page_number == p;
                    assert(all0[a] == ext[a]);
                    assert(all0.contains(all0[a]));
                    assert(s0.contains(all0[a]));
                    let k = choose|k: int| 0 <= k < s0.len() && s0[k] == all0[a];
                    assert(s0[k].page_number == p);
                } else {
                    assert(has_pending(job.pending@, p));
                    let c = choose|c: int|
                        0 <= c < job.pending@.len() && #[trigger] job.pending@[c].page_number == p;
                    assert(all0[ne + c].page_number == p);
                    assert(all0.contains(all0[ne + c]));
                    assert(s0.contains(all0[ne + c]));
                    let k = choose|k: int| 0 <= k < s0.len() && s0[k] == all0[ne + c];
                    assert(s0[k].page_number == p);
                }
            }
            lemma_consecutive_pages(s0, n);
        }
        let mut rest = sorted;
        let mut out: Vec<(String, Vec<u8>)> = Vec::new();
        let total = rest.len();
        let mut i: usize = 0;
        while i < total
            invariant
                total == s0.len(),
                0 <= i <= total,
                rest@ == s0.subrange(i as int, total as int),
                out@.len() == i,
                forall|k: int|
                    0 <= k < i ==> (#[trigger] out@[k]).0 == s0[k].filename && out@[k].1
                        == s0[k].bytes,
            decreases total - i,
        {
            let x = rest.remove(0);
            assert(x == s0[i as int]);
            assert(rest@ =~= s0.subrange(i + 1, total as int));
            out.push((x.filename, x.bytes));
            i = i + 1;
        }
        proof {
            assert forall|k: int| 0 <= k < out@.len() implies (#[trigger] out@[k]).0@
                == page_filename_spec((k + 1) as nat, job.format) && produced_from(
                job,
                enc0,
                k + 1,
                out@[k].1,
            ) by {
                assert(s0[k].page_number == k + 1);
                assert(s0.contains(s0[k]));
                assert(all0.contains(s0[k]));
                let m = choose|m: int| 0 <= m < all0.len() && all0[m] == s0[k];
                if m < ne {
                    assert(all0[m] == ext[m]);
                    assert(job.extracted@[m].page_number == k + 1);
                } else {
                    let c = m - ne;
                    assert(all0[ne + c] == s0[k]);
                    assert(job.pending@[c].page_number == k + 1);
                }
            }
        }
        Ok(out)
    }
}
/// A page queued for rendering (it had no candidate, or its extraction
/// failed) takes its output from its render: the bytes that stand for it
/// in the recombined result are the encoding of its bitmap.
pub proof fn lemma_rendered_page_output(
    job: PageJob,
    encoded: Seq<Result<Vec<u8>, ConversionError>>,
    b: int,
    bytes: Vec<u8>,
)
    requires
        job.wf(),
        0 <= b < job.pending@.len(),
        encoded.len() == job.pending@.len(),
        produced_from(job, encoded, job.pending@[b].page_number as int, bytes),
    ensures
        encoded[b] == Ok::<Vec<u8>, ConversionError>(bytes),
{
    let page = job.pending@[b].page_number as int;
    if exists|a: int|
        0 <= a < job.extracted@.len() && #[trigger] job.extracted@[a].page_number == page
            && job.extracted@[a].bytes == bytes {
        let a = choose|a: int|
            0 <= a < job.extracted@.len() && #[trigger] job.extracted@[a].page_number == page
                && job.extracted@[a].bytes == bytes;
        assert(job.extracted@[a].page_number != job.pending@[b].page_number);
    } else {
        let c = choose|c: int|
            0 <= c < job.pending@.len() && #[trigger] job.pending@[c].page_number == page
                && encoded[c] == Ok::<Vec<u8>, ConversionError>(bytes);
        if c < b {
            assert(job.pending@[c].page_number < job.pending@[b].page_number);
        } else if c > b {
            assert(job.pending@[b].page_number < job.pending@[c].page_number);
        }
    }
}

} // verus!
