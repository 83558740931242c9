//! Turning rendered PDF pages into PNG images for the preview: the
//! renderer hands over each page as a BGRA bitmap, which is reordered to
//! RGBA and encoded as PNG.

use vstd::prelude::*;

use crate::collab::{prefixed, str_to_string};
use crate::compiler::digits;
use crate::compiler::{joined_path, path_join};
use crate::editor::count_text;
use crate::outline::views;

verus! {

/// One page of the preview: a PNG image and its size in pixels.
pub struct RenderedPage {
    pub png: Vec<u8>,
    pub width: u32,
    pub height: u32,
}

/// The byte at position `k` once every complete four-byte pixel of `s` has
/// its first and third bytes (blue and red) exchanged; bytes after the
/// last complete pixel stay as they are.
pub open spec fn swapped_at(s: Seq<u8>, k: int) -> u8 {
    let start = k - k % 4;
    if start + 4 <= s.len() && k % 4 == 0 {
        s[k + 2]
    } else if start + 4 <= s.len() && k % 4 == 2 {
        s[k - 2]
    } else {
        s[k]
    }
}

/// `s` with blue and red exchanged in every complete pixel.
pub open spec fn bgra_swapped(s: Seq<u8>) -> Seq<u8> {
    Seq::new(s.len(), |k: int| swapped_at(s, k))
}

/// Reorders a BGRA bitmap into RGBA in place: in every complete four-byte
/// pixel the first and third bytes change places.
pub fn bgra_to_rgba(bytes: &mut Vec<u8>)
    ensures
        final(bytes)@ == bgra_swapped(old(bytes)@),
{
    let n = bytes.len();
    let mut i: usize = 0;
    while 4 <= n - i
        invariant
            n == bytes@.len() == old(bytes)@.len(),
            i % 4 == 0,
            i <= n,
            forall|k: int| 0 <= k < i ==> bytes@[k] == swapped_at(old(bytes)@, k),
            forall|k: int| i <= k < n ==> bytes@[k] == old(bytes)@[k],
        decreases n - i,
    {
        let b = bytes[i];
        let r = bytes[i + 2];
        bytes.set(i, r);
        bytes.set(i + 2, b);
        proof {
            assert forall|k: int| i <= k < i + 4 implies bytes@[k] == swapped_at(old(bytes)@, k) by {
                assert(k - k % 4 == i);
            }
        }
        i += 4;
    }
    proof {
        assert forall|k: int| i <= k < n implies bytes@[k] == swapped_at(old(bytes)@, k) by {
            assert(k - k % 4 + 4 > n);
        }
        assert(bytes@ =~= bgra_swapped(old(bytes)@));
    }
}

/// Exchanging blue and red twice gives the bitmap back.
pub proof fn lemma_swap_involution(s: Seq<u8>)
    ensures
        bgra_swapped(bgra_swapped(s)) == s,
{
    let t = bgra_swapped(s);
    assert forall|k: int| 0 <= k < s.len() implies bgra_swapped(t)[k] == s[k] by {
        let start = k - k % 4;
        if start + 4 <= s.len() && k % 4 == 0 {
            assert((k + 2) % 4 == 2 && (k + 2) - (k + 2) % 4 == start);
        } else if start + 4 <= s.len() && k % 4 == 2 {
            assert((k - 2) % 4 == 0 && (k - 2) - (k - 2) % 4 == start);
        }
    }
    assert(bgra_swapped(t) =~= s);
}

/// What the `image` crate's PNG encoder gives for an RGBA bitmap of the
/// given size that holds enough bytes: the PNG file, or the text of its
/// error.
pub uninterp spec fn png_outcome(width: u32, height: u32, rgba: Seq<u8>) -> Result<
    Seq<u8>,
    Seq<char>,
>;

/// What encoding a bitmap as PNG gave.
pub enum PngOutcome {
    Png(Vec<u8>),
    /// The bitmap holds fewer bytes than its size asks for.
    BufferTooSmall,
    /// The encoder failed, with its message.
    EncodeFailed(String),
}

/// `image::ImageBuffer::from_raw` on an RGBA bitmap, then
/// `write_to(.., ImageFormat::Png)`. `from_raw` refuses a bitmap shorter
/// than four bytes per pixel and keeps any other; what the encoder then
/// gives (the PNG, or its error's text) depends on the size and the bytes
/// alone and is named `png_outcome`.
#[verifier::external_body]
fn encode_png(width: u32, height: u32, rgba: Vec<u8>) -> (r: PngOutcome)
    ensures
        (r is BufferTooSmall) <==> 4 * width * height > rgba@.len(),
        4 * width * height <= rgba@.len() ==> match png_outcome(width, height, rgba@) {
            Ok(png) => r matches PngOutcome::Png(p) && p@ == png,
            Err(e) => r matches PngOutcome::EncodeFailed(m) && m@ == e,
        },
{
    let image: image::RgbaImage = match image::ImageBuffer::from_raw(width, height, rgba) {
        Some(image) => image,
        None => return PngOutcome::BufferTooSmall,
    };
    let mut buf = std::io::Cursor::new(Vec::new());
    match image.write_to(&mut buf, image::ImageFormat::Png) {
        Ok(()) => PngOutcome::Png(buf.into_inner()),
        Err(e) => PngOutcome::EncodeFailed(e.to_string()),
    }
}

/// The error for a page whose step `action` failed: `Failed to <action>
/// page <index>: <detail>`.
pub fn page_error(action: &str, index: usize, detail: &str) -> (r: String)
    ensures
        r@ == "Failed to "@ + action@ + " page "@ + digits(index as nat) + ": "@ + detail@,
{
    let mut r = prefixed("Failed to ", action);
    r.append(" page ");
    let n = count_text(index);
    r.append(n.as_str());
    r.append(": ");
    r.append(detail);
    r
}

/// The error for a document without pages.
pub const NO_PAGES_ERROR: &'static str = "PDF has no pages";

/// A document with `pages` pages can be previewed when it has one.
pub fn check_page_count(pages: usize) -> (r: Result<(), String>)
    ensures
        pages == 0 <==> r is Err,
        r matches Err(e) ==> e@ == NO_PAGES_ERROR@,
{
    if pages == 0 {
        Err(str_to_string(NO_PAGES_ERROR))
    } else {
        Ok(())
    }
}

/// What the `index`-th rendered bitmap becomes: its PNG once reordered
/// to RGBA, or the error naming the page (too few bytes for its size, or
/// the encoder's error).
pub open spec fn page_outcome(index: nat, width: u32, height: u32, bgra: Seq<u8>) -> Result<
    Seq<u8>,
    Seq<char>,
> {
    if 4 * width * height > bgra.len() {
        Err("Failed to create ImageBuffer for page "@ + digits(index))
    } else {
        match png_outcome(width, height, bgra_swapped(bgra)) {
            Ok(png) => Ok(png),
            Err(detail) => Err("Failed to encode PNG for page "@ + digits(index) + ": "@ + detail),
        }
    }
}

/// The preview page for the `index`-th rendered bitmap: reordered from
/// BGRA to RGBA and encoded as PNG.
pub fn page_from_bitmap(index: usize, width: u32, height: u32, bgra: Vec<u8>) -> (r: Result<
    RenderedPage,
    String,
>)
    ensures
        match page_outcome(index as nat, width, height, bgra@) {
            Ok(png) => r matches Ok(page) && page.png@ == png && page.width == width
                && page.height == height,
            Err(e) => r matches Err(m) && m@ == e,
        },
{
    let mut bytes = bgra;
    bgra_to_rgba(&mut bytes);
    match encode_png(width, height, bytes) {
        PngOutcome::Png(png) => Ok(RenderedPage { png, width, height }),
        PngOutcome::BufferTooSmall => {
            let mut e = str_to_string("Failed to create ImageBuffer for page ");
            let n = count_text(index);
            e.append(n.as_str());
            Err(e)
        },
        PngOutcome::EncodeFailed(detail) => {
            let mut e = str_to_string("Failed to encode PNG for page ");
            let n = count_text(index);
            e.append(n.as_str());
            e.append(": ");
            e.append(detail.as_str());
            Err(e)
        },
    }
}

/// A page as the renderer gives it: its size and its BGRA pixels.
pub struct Bitmap {
    pub width: u32,
    pub height: u32,
    pub bgra: Vec<u8>,
}

/// The renderer's results, page by page, as plain values.
pub open spec fn render_views(rs: Seq<Result<Bitmap, String>>) -> Seq<
    Result<(u32, u32, Seq<u8>), Seq<char>>,
> {
    rs.map_values(
        |r: Result<Bitmap, String>|
            match r {
                Ok(b) => Ok((b.width, b.height, b.bgra@)),
                Err(e) => Err(e@),
            },
    )
}

/// The preview of the pages from the `i`-th on: each rendered page in
/// order becomes its PNG with its size, and the first page that failed to
/// render or to encode gives its error instead.
pub open spec fn pages_outcome(rs: Seq<Result<(u32, u32, Seq<u8>), Seq<char>>>, i: int) -> Result<
    Seq<(Seq<u8>, u32, u32)>,
    Seq<char>,
>
    decreases rs.len() - i,
{
    if i < 0 || i >= rs.len() {
        Ok(seq![])
    } else {
        match rs[i] {
            Err(e) => Err(e),
            Ok(b) => match page_outcome(i as nat, b.0, b.1, b.2) {
                Err(e) => Err(e),
                Ok(png) => match pages_outcome(rs, i + 1) {
                    Ok(rest) => Ok(seq![(png, b.0, b.1)] + rest),
                    Err(e) => Err(e),
                },
            },
        }
    }
}

/// The pages as plain values.
pub open spec fn page_views(ps: Seq<RenderedPage>) -> Seq<(Seq<u8>, u32, u32)> {
    ps.map_values(|p: RenderedPage| (p.png@, p.width, p.height))
}

/// The preview of a document from the renderer's page results: an error
/// when it has no pages; else every page in order, or the error of the
/// first page that failed to render or to encode.
pub fn render_pages(renders: Vec<Result<Bitmap, String>>) -> (r: Result<Vec<RenderedPage>, String>)
    ensures
        renders@.len() == 0 ==> (r matches Err(e) && e@ == NO_PAGES_ERROR@),
        renders@.len() > 0 ==> match pages_outcome(render_views(renders@), 0) {
            Ok(pages) => r matches Ok(v) && page_views(v@) == pages,
            Err(e) => r matches Err(m) && m@ == e,
        },
{
    if renders.len() == 0 {
        return Err(str_to_string(NO_PAGES_ERROR));
    }
    let ghost rs = render_views(renders@);
    let n = renders.len();
    let mut rest = renders;
    let mut pages: Vec<RenderedPage> = Vec::new();
    let mut i: usize = 0;
    while rest.len() > 0
        invariant
            renders@.len() > 0,
            rs == render_views(renders@),
            rs.len() == n,
            rs.len() == i + rest@.len(),
            render_views(rest@) == rs.skip(i as int),
            pages_outcome(rs, 0) == match pages_outcome(rs, i as int) {
                Ok(more) => Ok(page_views(pages@) + more),
                Err(e) => Err(e),
            },
        decreases rest@.len(),
    {
        let ghost before = rest@;
        let item = rest.remove(0);
        proof {
            assert(render_views(before)[0] == rs[i as int]);
            assert(rest@ =~= before.skip(1));
            assert(render_views(before.skip(1)) =~= render_views(before).skip(1));
            assert(render_views(rest@) =~= rs.skip(i + 1));
        }
        match item {
            Err(e) => {
                return Err(e);
            },
            Ok(b) => {
                let width = b.width;
                let height = b.height;
                match page_from_bitmap(i, width, height, b.bgra) {
                    Err(e) => {
                        return Err(e);
                    },
                    Ok(page) => {
                        let ghost pv = pages@;
                        pages.push(page);
                        proof {
                            assert(page_views(pages@) =~= page_views(pv).push(
                                (pages@.last().png@, width, height),
                            ));
                            match pages_outcome(rs, i + 1) {
                                Ok(more) => {
                                    assert(page_views(pages@) + more =~= page_views(pv) + (seq![
                                        (pages@.last().png@, width, height),
                                    ] + more));
                                },
                                Err(_) => {},
                            }
                        }
                    },
                }
            },
        }
        i += 1;
    }
    Ok(pages)
}

/// Where the PDFium library is looked for, in order, given the directories
/// from the executable's own upward (`dirs[0]` holds the executable): next
/// to the executable, in the bundle's `Frameworks` folder, then under
/// `vendor/pdfium/lib` in each of the first six of those directories.
pub open spec fn pdfium_candidates_of(dirs: Seq<Seq<char>>, lib: Seq<char>) -> Seq<Seq<char>> {
    if dirs.len() == 0 {
        seq![]
    } else {
        seq![joined_path(dirs[0], lib), joined_path(joined_path(dirs[0], "../Frameworks"@), lib)]
            + dirs.take(if dirs.len() < 6 { dirs.len() as int } else { 6 }).map_values(
            |d: Seq<char>| joined_path(joined_path(d, "vendor/pdfium/lib"@), lib),
        )
    }
}

/// The places the PDFium library is looked for (see
/// [`pdfium_candidates_of`]).
pub fn pdfium_candidates(dirs: &Vec<String>, lib: &str) -> (r: Vec<String>)
    ensures
        views(r@) == pdfium_candidates_of(views(dirs@), lib@),
{
    let mut r: Vec<String> = Vec::new();
    if dirs.len() == 0 {
        proof {
            assert(views(r@) =~= pdfium_candidates_of(views(dirs@), lib@));
        }
        return r;
    }
    let first = path_join(dirs[0].as_str(), lib);
    r.push(first);
    let frameworks = path_join(dirs[0].as_str(), "../Frameworks");
    r.push(path_join(frameworks.as_str(), lib));
    let n: usize = if dirs.len() < 6 {
        dirs.len()
    } else {
        6
    };
    let ghost ds = views(dirs@);
    let ghost head = seq![
        joined_path(ds[0], lib@),
        joined_path(joined_path(ds[0], "../Frameworks"@), lib@),
    ];
    proof {
        assert(views(r@) =~= head);
    }
    let mut i: usize = 0;
    while i < n
        invariant
            n <= dirs@.len(),
            ds == views(dirs@),
            i <= n,
            views(r@) == head + ds.take(i as int).map_values(
                |d: Seq<char>| joined_path(joined_path(d, "vendor/pdfium/lib"@), lib@),
            ),
        decreases n - i,
    {
        let vendor = path_join(dirs[i].as_str(), "vendor/pdfium/lib");
        let ghost before = r@;
        r.push(path_join(vendor.as_str(), lib));
        proof {
            assert(views(r@) =~= views(before).push(r@.last()@));
            assert(ds.take(i + 1) =~= ds.take(i as int).push(ds[i as int]));
            assert(ds.take(i + 1).map_values(
                |d: Seq<char>| joined_path(joined_path(d, "vendor/pdfium/lib"@), lib@),
            ) =~= ds.take(i as int).map_values(
                |d: Seq<char>| joined_path(joined_path(d, "vendor/pdfium/lib"@), lib@),
            ).push(joined_path(joined_path(ds[i as int], "vendor/pdfium/lib"@), lib@)));
        }
        i += 1;
    }
    r
}

} // verus!
