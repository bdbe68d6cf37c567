//! Colours, raster surfaces and presentation onto a window.

use window_runtime::colors::{pack_pixel, Colour, Rgb, Rgba};
use window_runtime::renderer::{
    Painter, RasterSurface, RenderError, Surface, WindowDrawTarget,
};
use window_runtime::window::OsWindow;

#[test]
fn opaque_colours_pack_with_full_alpha() {
    assert_eq!(pack_pixel(Colour::Rgb(Rgb { r: 255, g: 0, b: 0 })), 0xFFFF0000);
    assert_eq!(pack_pixel(Colour::Rgb(Rgb { r: 0, g: 255, b: 255 })), 0xFF00FFFF);
    assert_eq!(pack_pixel(Colour::from(Rgb { r: 1, g: 2, b: 3 })), 0xFF010203);
    assert_eq!(pack_pixel(Colour::from((9u8, 8u8, 7u8))), 0xFF090807);
    assert_eq!(
        pack_pixel(Colour::from((255u8, 255u8, 255u8, 255u8))),
        0xFFFFFFFF
    );
}

#[test]
fn translucent_colours_premultiply() {
    // Half-transparent white: every channel is scaled by 128/255.
    assert_eq!(
        pack_pixel(Colour::Rgba(Rgba { r: 255, g: 255, b: 255, a: 128 })),
        0x80808080
    );
    // Fully transparent anything collapses to zero.
    assert_eq!(pack_pixel(Colour::Rgba(Rgba { r: 200, g: 100, b: 50, a: 0 })), 0);
    assert_eq!(pack_pixel(Colour::from(Rgba { r: 0, g: 0, b: 0, a: 255 })), 0xFF000000);
}

#[test]
fn raster_surface_refuses_empty_dimensions() {
    assert!(matches!(RasterSurface::new(0, 4), Err(RenderError::CannotAllocate)));
    assert!(matches!(RasterSurface::new(4, 0), Err(RenderError::CannotAllocate)));
    assert!(matches!(RasterSurface::new(-1, 4), Err(RenderError::CannotAllocate)));
    assert_eq!(RenderError::CannotAllocate.message(), "cannot allocate");
    assert_eq!(RenderError::CannotBlit.message(), "cannot blit");
}

#[test]
fn raster_surface_starts_zeroed_and_clears() {
    let mut s = RasterSurface::new(4, 3).unwrap();
    assert_eq!(s.width(), 4);
    assert_eq!(s.height(), 3);
    for i in 0..12 {
        assert_eq!(s.pixel_at(i), 0);
    }
    s.clear(Colour::Rgb(Rgb { r: 16, g: 32, b: 48 }));
    for i in 0..12 {
        assert_eq!(s.pixel_at(i), 0xFF102030);
    }
}

#[test]
fn surface_opens_sized_to_the_window_and_cleared() {
    let window = OsWindow::open("canvas", 3, 2);
    let surface = Surface::new_cpu(&window).unwrap();
    assert_eq!(surface.width(), 3);
    assert_eq!(surface.height(), 2);
    for i in 0..6 {
        assert_eq!(surface.pixel_at(i), 0xFF00FFFF);
    }
}

#[test]
fn surface_refuses_a_zero_area_window() {
    let window = OsWindow::open("flat", 0, 2);
    assert!(matches!(Surface::new_cpu(&window), Err(RenderError::CannotAllocate)));
}

#[test]
fn presenting_copies_the_pixels_onto_the_window() {
    let mut window = OsWindow::open("target", 2, 2);
    assert!(window.presented_pixels().is_none());

    let mut surface = Surface::new_cpu(&window).unwrap();
    surface.present_surface(&mut window).unwrap();

    let (w, h, pixels) = window.presented_pixels().unwrap();
    assert_eq!((w, h), (2, 2));
    assert_eq!(pixels, &vec![0xFF00FFFF; 4]);
}

#[test]
fn window_reports_its_draw_bounds() {
    let mut window = OsWindow::open("sized", 31, 17);
    assert_eq!(window.get_draw_bounds(), (31, 17));
    window.set_draw_bounds(8, 9);
    assert_eq!(window.get_draw_bounds(), (8, 9));
    window.set_title("renamed");
    assert_eq!(window.title().as_str(), "renamed");
}
