//! Rendered pages, and where PDFium is found.

use inkdrop::pdf::{choose_library_dir, library_path, rendered_page, strip_alpha, RenderError};
use inkdrop::points::Points;
use inkdrop::raster::{encode, ColorMode};
use inkdrop::simulator::raster::decode;
use pdfium_render::prelude::Pdfium;

fn points(value: f32) -> Points {
    Points { bits: value.to_bits() }
}

#[test]
fn library_path_prefers_the_configured_directory() {
    let expected = |dir: &str| {
        Some(Pdfium::pdfium_platform_library_name_at_path(dir).to_str().unwrap().to_owned())
    };
    let configured = library_path(Some("/opt/pdfium".to_owned()), Some("/downloaded"));
    assert_eq!(configured, expected("/opt/pdfium"));

    let downloaded = library_path(None, Some("/downloaded"));
    assert_eq!(downloaded, expected("/downloaded"));

    assert_eq!(library_path(None, None), None);
}

#[test]
fn the_configured_directory_comes_first() {
    let choose = |configured: Option<&str>, downloaded| {
        choose_library_dir(configured.map(str::to_owned), downloaded)
    };
    assert_eq!(choose(Some("/a"), Some("/b")).as_deref(), Some("/a"));
    assert_eq!(choose(Some(""), Some("/b")).as_deref(), Some(""), "set, though empty");
    assert_eq!(choose(Some("/a"), None).as_deref(), Some("/a"));
    assert_eq!(choose(None, Some("/b")).as_deref(), Some("/b"));
    assert_eq!(choose(None, None), None);
}

#[test]
fn libraries_lie_right_in_their_directory() {
    for dir in ["", "/", "/opt/pdfium/", "relative", "späße", "C:", "/a/../b"] {
        let path = library_path(Some(dir.to_owned()), None).unwrap();
        let rest = path.strip_prefix(dir).unwrap();
        let name = rest.strip_prefix(['/', '\\']).unwrap_or(rest);
        assert!(name.contains("pdfium") && !name.contains(['/', '\\']), "{path}");
    }
}

#[test]
fn verbatim_directories_lead_to_a_library() {
    let path = library_path(None, Some(r"\\?\C:\a\..\b")).unwrap();
    let name = path.rsplit(['/', '\\']).next().unwrap();
    assert!(name.contains("pdfium"), "{path}");
}

#[test]
fn alpha_is_dropped() {
    assert_eq!(strip_alpha(&[1, 2, 3, 4, 5, 6, 7, 8]), [1, 2, 3, 5, 6, 7]);
    assert_eq!(strip_alpha(&[1, 2, 3, 4, 5, 6, 7]), [1, 2, 3], "an incomplete pixel");
    assert!(strip_alpha(&[]).is_empty());
}

#[test]
fn rendered_pages_keep_every_pixel() {
    let rgba = [10, 20, 30, 255, 40, 50, 60, 255];
    let page = rendered_page(2, 1, points(595.0), points(842.0), &rgba);
    assert_eq!((page.width_px, page.height_px), (2, 1));
    assert_eq!((page.width_pts, page.height_pts), (points(595.0), points(842.0)));
    assert_eq!(page.rgb, [10, 20, 30, 40, 50, 60]);

    let document = encode(&[page], 72, ColorMode::Srgb8);
    let pages = decode(&document).unwrap();
    assert_eq!((pages[0].width, pages[0].height), (2, 1));
    assert_eq!(pages[0].rgb, [10, 20, 30, 40, 50, 60]);
}

#[test]
fn render_errors_say_what_pdfium_said() {
    let error = RenderError::Pdfium("FormatError".to_owned());
    assert_eq!(error.to_string(), "PDFium error: FormatError");
}

#[test]
fn points_round_as_floats_do() {
    let values = [
        0.0, -0.0, 0.49999997, 0.5, 0.50000006, 1.5, 2.5, 595.276, 612.4, 791.6, 1190.5, -1.0, -0.5,
        8388607.5, 8388608.0, 16777217.0, 4294967040.0, 4294967296.0, 1e30, f32::MIN_POSITIVE, 1e-40,
        f32::INFINITY, f32::NEG_INFINITY, f32::NAN, f32::MAX, f32::MIN,
    ];
    for value in values {
        assert_eq!(points(value).round(), value.round() as u32, "{value}");
    }
    let mut bits: u32 = 1;
    for _ in 0..20000 {
        bits = bits.wrapping_mul(1664525).wrapping_add(1013904223);
        let value = f32::from_bits(bits);
        assert_eq!(Points { bits }.round(), value.round() as u32, "{value}");
    }
}

#[test]
fn points_are_near_as_floats_are() {
    for target in [420u32, 595, 612, 792, 842, 1008, 1191] {
        for step in -3000..3000 {
            let value = target as f32 + step as f32 / 1000.0;
            let near = (value - target as f32).abs() <= 2.0;
            assert_eq!(points(value).near(target), near, "{value} {target}");
        }
        for value in [0.0, -2.0, f32::NAN, f32::INFINITY, f32::NEG_INFINITY, 1e30, -(target as f32)] {
            assert!(!points(value).near(target), "{value} {target}");
        }
    }
}
