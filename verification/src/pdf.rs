//! PDF pages as bitmaps, and where the library that renders them is found.

use pdfium_render::prelude::Pdfium;
use vstd::prelude::*;

use crate::path::{is_separator, is_verbatim};
use crate::points::Points;
use crate::uri::{str_of, text_of};

verus! {

/// One rasterized PDF page, ready for raster encoding.
pub struct RenderedPage {
    /// Width of the bitmap, in pixels.
    pub width_px: u32,
    /// Height of the bitmap, in pixels.
    pub height_px: u32,
    /// Width of the PDF page, in points (1/72 inch).
    pub width_pts: Points,
    /// Height of the PDF page, in points (1/72 inch).
    pub height_pts: Points,
    /// Packed RGB8, row-major, 3 bytes per pixel, no row padding.
    pub rgb: Vec<u8>,
}

/// Why a PDF couldn't be rendered.
#[derive(Debug)]
pub enum RenderError {
    /// PDFium couldn't load the document or render a page, and what it said.
    Pdfium(String),
}

impl RenderError {
    /// The error as text.
    pub open spec fn message(self) -> Seq<char> {
        match self {
            RenderError::Pdfium(error) => "PDFium error: "@ + error@,
        }
    }

    /// The error as text.
    pub fn to_string(&self) -> (text: String)
        ensures
            text@ == self.message(),
    {
        match self {
            RenderError::Pdfium(error) => "PDFium error: ".to_owned().concat(error.as_str()),
        }
    }
}

/// Packed RGBA8 without its alpha bytes; bytes that fill no pixel are dropped.
pub open spec fn without_alpha(rgba: Seq<u8>) -> Seq<u8> {
    Seq::new(3 * (rgba.len() / 4), |i: int| rgba[4 * (i / 3) + i % 3])
}

/// Packed RGBA8 without its alpha bytes (see [`without_alpha`]).
pub fn strip_alpha(rgba: &[u8]) -> (rgb: Vec<u8>)
    ensures
        rgb@ == without_alpha(rgba@),
{
    let count: usize = rgba.len() / 4;
    let mut rgb: Vec<u8> = Vec::new();
    let mut i: usize = 0;
    while i < count
        invariant
            count == rgba.len() / 4,
            i <= count,
            rgb@.len() == 3 * i,
            forall|k: int| 0 <= k < 3 * i ==> rgb@[k] == without_alpha(rgba@)[k],
        decreases count - i,
    {
        rgb.push(rgba[4 * i]);
        rgb.push(rgba[4 * i + 1]);
        rgb.push(rgba[4 * i + 2]);
        i = i + 1;
    }
    assert(rgb@ =~= without_alpha(rgba@));
    rgb
}

/// A page that was rendered to a bitmap of packed RGBA8.
pub fn rendered_page(
    width_px: i32,
    height_px: i32,
    width_pts: Points,
    height_pts: Points,
    rgba: &[u8],
) -> (page: RenderedPage)
    requires
        width_px >= 0,
        height_px >= 0,
    ensures
        page.width_px == width_px,
        page.height_px == height_px,
        page.width_pts == width_pts,
        page.height_pts == height_pts,
        page.rgb@ == without_alpha(rgba@),
{
    RenderedPage {
        width_px: width_px as u32,
        height_px: height_px as u32,
        width_pts,
        height_pts,
        rgb: strip_alpha(rgba),
    }
}

/// A bitmap of packed RGBA8 that has all of a page's pixels gives a page that
/// has all of them in RGB8.
pub proof fn law_every_pixel_is_kept(rgba: Seq<u8>, pixels: nat)
    requires
        rgba.len() == 4 * pixels,
    ensures
        without_alpha(rgba).len() == 3 * pixels,
        forall|pixel: int, component: int|
            0 <= pixel < pixels && 0 <= component < 3 ==> #[trigger] without_alpha(rgba)[3 * pixel
                + component] == rgba[4 * pixel + component],
{
}

/// A file name of the PDFium library: it is one part of a path, and holds
/// "pdfium".
pub open spec fn names_library(name: Seq<char>) -> bool {
    &&& forall|i: int| 0 <= i < name.len() ==> !is_separator(#[trigger] name[i])
    &&& exists|i: int|
        0 <= i && i + 6 <= name.len() && #[trigger] name.subrange(i, i + 6) == "pdfium"@
}

/// Whether a path leads to a PDFium library.
pub open spec fn leads_to_library(path: Seq<char>) -> bool {
    exists|at: int| 0 <= at <= path.len() && names_library(#[trigger] path.skip(at))
}

/// Whether a path is that of a PDFium library right in a directory: behind the
/// directory stand no more than one separator, and the library's file name.
pub open spec fn is_library_in(path: Seq<char>, dir: Seq<char>) -> bool {
    let rest = path.skip(dir.len() as int);
    &&& dir.is_prefix_of(path)
    &&& names_library(rest) || (rest.len() > 0 && is_separator(rest[0]) && names_library(
        rest.skip(1),
    ))
}

/// [`Pdfium::pdfium_platform_library_name_at_path`]: the directory joined with
/// the platform's name of the PDFium library, which holds "pdfium" and no
/// separator. The directory stands before it as it is, with no more than one
/// separator between, unless it is a verbatim Windows path. What else the name
/// holds, which separator it is, and how a verbatim path is rewritten, is the
/// platform's, and not stated.
#[verifier::external_body]
fn library_in(dir: &str) -> (path: String)
    ensures
        leads_to_library(path@),
        !is_verbatim(dir@) ==> is_library_in(path@, dir@),
{
    Pdfium::pdfium_platform_library_name_at_path(dir).to_string_lossy().into_owned()
}

/// The directory to look for PDFium in: the configured one if there is one,
/// otherwise the one it was downloaded to.
pub open spec fn library_dir(configured: Option<Seq<char>>, downloaded: Option<Seq<char>>)
    -> Option<Seq<char>> {
    if configured is Some {
        configured
    } else {
        downloaded
    }
}

/// The directory to look for PDFium in (see [`library_dir`]).
pub fn choose_library_dir(configured: Option<String>, downloaded: Option<&str>) -> (dir: Option<
    String,
>)
    ensures
        text_of(dir) == library_dir(text_of(configured), str_of(downloaded)),
{
    match configured {
        Some(dir) => Some(dir),
        None => match downloaded {
            Some(dir) => Some(dir.to_owned()),
            None => None,
        },
    }
}

/// The library in `configured` (`PDFIUM_DYNAMIC_LIB_PATH`) if set, otherwise
/// in `downloaded`, the directory PDFium was downloaded to: the path that
/// PDFium's own rule gives for the directory of [`choose_library_dir`]. It lies
/// right in that directory, unless that is a verbatim Windows path.
pub fn library_path(configured: Option<String>, downloaded: Option<&str>) -> (path: Option<String>)
    ensures
        ({
            let dir = library_dir(text_of(configured), str_of(downloaded));
            &&& path is Some <==> dir is Some
            &&& path is Some ==> leads_to_library(path->0@)
            &&& path is Some && !is_verbatim(dir->0) ==> is_library_in(path->0@, dir->0)
        }),
{
    match choose_library_dir(configured, downloaded) {
        Some(dir) => Some(library_in(dir.as_str())),
        None => None,
    }
}

/// The directory that is configured comes before the one that was downloaded
/// to, and there is one if and only if either is there.
pub proof fn law_configured_directory_comes_first(
    configured: Option<Seq<char>>,
    downloaded: Option<Seq<char>>,
)
    ensures
        configured is Some ==> library_dir(configured, downloaded) == configured,
        configured is None ==> library_dir(configured, downloaded) == downloaded,
{
}

/// An error's text gives what PDFium said.
pub proof fn law_render_errors_say_why(error: RenderError)
    ensures
        error matches RenderError::Pdfium(why) ==> error.message() == "PDFium error: "@ + why@,
{
}

/// Whatever its length, every whole pixel of a bitmap keeps its three colours,
/// in order, and no more is kept.
pub proof fn law_alpha_alone_is_dropped(rgba: Seq<u8>, pixel: int)
    requires
        0 <= pixel,
        4 * pixel + 4 <= rgba.len(),
    ensures
        without_alpha(rgba).len() == 3 * (rgba.len() / 4),
        3 * pixel + 3 <= without_alpha(rgba).len(),
        without_alpha(rgba)[3 * pixel] == rgba[4 * pixel],
        without_alpha(rgba)[3 * pixel + 1] == rgba[4 * pixel + 1],
        without_alpha(rgba)[3 * pixel + 2] == rgba[4 * pixel + 2],
{
}

} // verus!
