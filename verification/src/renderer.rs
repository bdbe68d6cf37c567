//! Surfaces and the CPU presentation backend.
//!
//! A surface owns a premultiplied raster pixel buffer sized to its
//! window's draw bounds.  It is recreated wholesale on a resize, never
//! mutated in place, and presented by copying its pixels onto the window.
//! The CPU backend keeps the whole pipeline in memory; a window models
//! the operating-system side as the last frame it accepted.

use vstd::prelude::*;

use crate::colors::{pack_colour, pack_pixel, Colour, Rgb};

verus! {

/// Why a surface could not be created or shown.
#[derive(Debug, Copy, Clone, PartialEq, Eq, Structural)]
pub enum RenderError {
    /// The backend cannot allocate a surface of the asked-for size.
    CannotAllocate,
    /// The target window refused the frame.
    CannotBlit,
}

impl RenderError {
    /// A short description of the failure.
    pub fn message(&self) -> (m: &'static str)
        ensures
            self == RenderError::CannotAllocate ==> m@ == "cannot allocate"@,
            self == RenderError::CannotBlit ==> m@ == "cannot blit"@,
    {
        match self {
            RenderError::CannotAllocate => "cannot allocate",
            RenderError::CannotBlit => "cannot blit",
        }
    }
}

/// The mathematical content of a surface or of a presented frame: its
/// dimensions and its pixels in row-major order.
pub struct SurfaceModel {
    pub width: int,
    pub height: int,
    pub pixels: Seq<u32>,
}

impl SurfaceModel {
    /// Dimensions are strictly positive and the buffer covers them.
    pub open spec fn wf(self) -> bool {
        &&& 0 < self.width
        &&& 0 < self.height
        &&& self.pixels.len() == self.width * self.height
    }
}

/// Whether a surface of these dimensions may be allocated: both strictly
/// positive, with a pixel buffer the machine can hold.  The underlying
/// rasterizer must never be asked for anything else.
pub open spec fn valid_surface_dims(width: int, height: int) -> bool {
    &&& 0 < width
    &&& 0 < height
    &&& width * height <= usize::MAX
}

/// Something a surface can be presented onto: it reports its draw bounds
/// and accepts frames.
pub trait WindowDrawTarget: Sized {
    /// The width and height of the target's drawable area.
    spec fn draw_bounds(&self) -> (u32, u32);

    /// The frame the target last accepted, if any.
    spec fn presented(&self) -> Option<SurfaceModel>;

    /// Whether this target state differs from `pre` in at most its
    /// presented frame.
    spec fn same_but_presented(&self, pre: Self) -> bool;

    /// Reports the width and height of the target's drawable area.
    fn get_draw_bounds(&self) -> (b: (u32, u32))
        ensures
            b == self.draw_bounds(),
    ;

    /// Offers a frame to the target.  A target that accepts it holds it
    /// as its presented frame; either way its draw bounds do not change.
    fn accept_frame(&mut self, width: i32, height: i32, pixels: &Vec<u32>) -> (ok: bool)
        ensures
            ok ==> final(self).presented() == Some(
                SurfaceModel { width: width as int, height: height as int, pixels: pixels@ },
            ),
            !ok ==> final(self).presented() == old(self).presented(),
            final(self).draw_bounds() == old(self).draw_bounds(),
            final(self).same_but_presented(*old(self)),
    ;
}

/// Something that can paint over a whole surface.
pub trait Painter {
    /// Sets every pixel to the colour.
    fn clear(&mut self, colour: Colour);
}

/// A CPU raster buffer: width, height and one packed pixel per cell.
pub struct RasterSurface {
    width: i32,
    height: i32,
    pixels: Vec<u32>,
}

impl View for RasterSurface {
    type V = SurfaceModel;

    closed spec fn view(&self) -> SurfaceModel {
        SurfaceModel { width: self.width as int, height: self.height as int, pixels: self.pixels@ }
    }
}

impl RasterSurface {
    /// Allocates a zeroed raster buffer, refusing dimensions the
    /// rasterizer cannot represent.
    pub fn new(width: i32, height: i32) -> (r: Result<RasterSurface, RenderError>)
        ensures
            match r {
                Ok(s) => valid_surface_dims(width as int, height as int) && s@.wf() && s@.width
                    == width && s@.height == height && s@.pixels == Seq::new(
                    (width * height) as nat,
                    |i: int| 0u32,
                ),
                Err(e) => e == RenderError::CannotAllocate && !valid_surface_dims(
                    width as int,
                    height as int,
                ),
            },
    {
        if width <= 0 || height <= 0 {
            return Err(RenderError::CannotAllocate);
        }
        assert((width as u64) * (height as u64) < 0x4000000000000000) by (nonlinear_arith)
            requires
                0 < width <= i32::MAX,
                0 < height <= i32::MAX,
        ;
        let total = (width as u64) * (height as u64);
        if total > (usize::MAX as u64) {
            return Err(RenderError::CannotAllocate);
        }
        let total = total as usize;
        let mut pixels: Vec<u32> = Vec::new();
        let ghost target = Seq::new((width * height) as nat, |i: int| 0u32);
        while pixels.len() < total
            invariant
                pixels@ == target.take(pixels@.len() as int),
                pixels@.len() <= total,
                total == width * height,
                target == Seq::new((width * height) as nat, |i: int| 0u32),
            decreases total - pixels.len(),
        {
            proof {
                assert(target[pixels@.len() as int] == 0u32);
                assert(target.take(pixels@.len() as int + 1) =~= target.take(pixels@.len() as int).push(
                    0u32,
                ));
            }
            pixels.push(0u32);
        }
        proof {
            assert(target.take(total as int) =~= target);
        }
        Ok(RasterSurface { width, height, pixels })
    }

    /// The buffer's width.
    pub fn width(&self) -> (w: i32)
        ensures
            w == self@.width,
    {
        self.width
    }

    /// The buffer's height.
    pub fn height(&self) -> (h: i32)
        ensures
            h == self@.height,
    {
        self.height
    }

    /// The pixel at a position.
    pub fn pixel_at(&self, i: usize) -> (p: u32)
        requires
            i < self@.pixels.len(),
        ensures
            p == self@.pixels[i as int],
    {
        self.pixels[i]
    }

    /// Sets every pixel to the colour's packed value.
    pub fn fill(&mut self, colour: Colour)
        ensures
            final(self)@.width == old(self)@.width,
            final(self)@.height == old(self)@.height,
            final(self)@.pixels == Seq::new(old(self)@.pixels.len(), |i: int| pack_colour(colour)),
    {
        let p = pack_pixel(colour);
        let n = self.pixels.len();
        let mut i: usize = 0;
        while i < n
            invariant
                i <= n,
                n == self.pixels.len(),
                n == old(self).pixels.len(),
                self.width == old(self).width,
                self.height == old(self).height,
                p == pack_colour(colour),
                forall|j: int| 0 <= j < i ==> self.pixels@[j] == pack_colour(colour),
            decreases n - i,
        {
            let ghost prior = self.pixels@;
            self.pixels.set(i, p);
            proof {
                assert(self.pixels@ == prior.update(i as int, p));
                assert(forall|j: int| 0 <= j < i ==> self.pixels@[j] == prior[j]);
                assert(self.pixels@[i as int] == pack_colour(colour));
            }
            i = i + 1;
        }
        proof {
            assert(self@.pixels =~= Seq::new(
                old(self)@.pixels.len(),
                |j: int| pack_colour(colour),
            ));
        }
    }

    /// Hands out the whole pixel buffer for presentation.
    pub fn pixel_buffer(&self) -> (b: &Vec<u32>)
        ensures
            b@ == self@.pixels,
    {
        &self.pixels
    }
}

impl Painter for RasterSurface {
    fn clear(&mut self, colour: Colour) {
        self.fill(colour);
    }
}

/// The CPU driver: a software rasterizer whose surfaces live in memory
/// and are blitted onto the window when presented.
pub struct Cpu(pub RasterSurface);

impl View for Cpu {
    type V = SurfaceModel;

    open spec fn view(&self) -> SurfaceModel {
        self.0@
    }
}

impl Cpu {
    /// Allocates a raster surface of the given size for this driver;
    /// fails fast on dimensions the rasterizer cannot take.
    pub fn create_surface(&mut self, size: (i32, i32)) -> (r: Result<RasterSurface, RenderError>)
        ensures
            *final(self) == *old(self),
            match r {
                Ok(s) => valid_surface_dims(size.0 as int, size.1 as int) && s@.wf() && s@.width
                    == size.0 && s@.height == size.1,
                Err(e) => e == RenderError::CannotAllocate && !valid_surface_dims(
                    size.0 as int,
                    size.1 as int,
                ),
            },
    {
        RasterSurface::new(size.0, size.1)
    }

    /// Presents a surface by offering its pixels to the window.
    pub fn present_surface<T: WindowDrawTarget>(
        &mut self,
        window: &mut T,
        surface: &mut RasterSurface,
    ) -> (r: Result<(), RenderError>)
        ensures
            *final(self) == *old(self),
            *final(surface) == *old(surface),
            final(window).draw_bounds() == old(window).draw_bounds(),
            match r {
                Ok(()) => final(window).presented() == Some(old(surface)@),
                Err(e) => e == RenderError::CannotBlit && final(window).presented() == old(
                    window,
                ).presented(),
            },
    {
        let ok = window.accept_frame(surface.width(), surface.height(), surface.pixel_buffer());
        if ok {
            Ok(())
        } else {
            Err(RenderError::CannotBlit)
        }
    }
}

/// The colour every fresh surface is cleared to before first paint.
pub open spec fn clear_colour() -> Colour {
    Colour::Rgb(Rgb { r: 0, g: 255, b: 255 })
}

/// The content of a fresh surface of the given dimensions: every pixel
/// carries the clear colour.
pub open spec fn fresh_surface_model(width: int, height: int) -> SurfaceModel {
    SurfaceModel {
        width,
        height,
        pixels: Seq::new((width * height) as nat, |i: int| pack_colour(clear_colour())),
    }
}

/// The rendering backends a surface can be produced by.
pub enum SkiaDriver {
    Cpu(Cpu),
}

impl View for SkiaDriver {
    type V = SurfaceModel;

    open spec fn view(&self) -> SurfaceModel {
        match self {
            SkiaDriver::Cpu(cpu) => cpu@,
        }
    }
}

impl SkiaDriver {
    /// Allocates a CPU surface sized to the target's draw bounds and
    /// clears it, refusing bounds the rasterizer cannot take.
    pub fn new_cpu<T: WindowDrawTarget>(target: &T) -> (r: Result<SkiaDriver, RenderError>)
        ensures
            ({
                let width = target.draw_bounds().0 as i32 as int;
                let height = target.draw_bounds().1 as i32 as int;
                match r {
                    Ok(d) => valid_surface_dims(width, height) && d@ == fresh_surface_model(
                        width,
                        height,
                    ) && d@.wf(),
                    Err(e) => e == RenderError::CannotAllocate && !valid_surface_dims(
                        width,
                        height,
                    ),
                }
            }),
    {
        let mut cpu_driver = Cpu::default();
        let bounds = target.get_draw_bounds();
        let mut surface = match cpu_driver.create_surface((bounds.0 as i32, bounds.1 as i32)) {
            Ok(s) => s,
            Err(e) => {
                return Err(e);
            },
        };
        surface.fill(Colour::cyan());
        proof {
            assert(surface@.pixels =~= fresh_surface_model(surface@.width, surface@.height).pixels);
        }
        Ok(SkiaDriver::Cpu(Cpu(surface)))
    }

    /// Presents the surface onto the target window.
    pub fn present_surface<T: WindowDrawTarget>(&mut self, target: &mut T) -> (r: Result<
        (),
        RenderError,
    >)
        ensures
            *final(self) == *old(self),
            final(target).draw_bounds() == old(target).draw_bounds(),
            final(target).same_but_presented(*old(target)),
            match r {
                Ok(()) => final(target).presented() == Some(old(self)@),
                Err(e) => e == RenderError::CannotBlit && final(target).presented() == old(
                    target,
                ).presented(),
            },
    {
        match self {
            SkiaDriver::Cpu(cpu) => {
                let surface = &cpu.0;
                let ok = target.accept_frame(
                    surface.width(),
                    surface.height(),
                    surface.pixel_buffer(),
                );
                if ok {
                    Ok(())
                } else {
                    Err(RenderError::CannotBlit)
                }
            },
        }
    }
}

/// An owned, presentable surface bound to one window: a backend driver
/// and its pixel buffer.  Exactly one lives per window entity; a resize
/// replaces it wholesale.  Surfaces are deliberately not cloneable: two
/// presentation paths must never share one.
pub struct Surface(SkiaDriver);

impl View for Surface {
    type V = SurfaceModel;

    closed spec fn view(&self) -> SurfaceModel {
        self.0@
    }
}

impl Surface {
    /// Allocates a CPU-backed surface sized to the target's draw bounds,
    /// cleared and ready to present.
    pub fn new_cpu<T: WindowDrawTarget>(target: &T) -> (r: Result<Surface, RenderError>)
        ensures
            ({
                let width = target.draw_bounds().0 as i32 as int;
                let height = target.draw_bounds().1 as i32 as int;
                match r {
                    Ok(s) => valid_surface_dims(width, height) && s@ == fresh_surface_model(
                        width,
                        height,
                    ) && s@.wf(),
                    Err(e) => e == RenderError::CannotAllocate && !valid_surface_dims(
                        width,
                        height,
                    ),
                }
            }),
    {
        match SkiaDriver::new_cpu(target) {
            Ok(driver) => Ok(Surface(driver)),
            Err(e) => Err(e),
        }
    }

    /// The surface's width in pixels.
    pub fn width(&self) -> (w: i32)
        ensures
            w == self@.width,
    {
        match &self.0 {
            SkiaDriver::Cpu(cpu) => cpu.0.width(),
        }
    }

    /// The surface's height in pixels.
    pub fn height(&self) -> (h: i32)
        ensures
            h == self@.height,
    {
        match &self.0 {
            SkiaDriver::Cpu(cpu) => cpu.0.height(),
        }
    }

    /// The pixel at a position of the surface's buffer.
    pub fn pixel_at(&self, i: usize) -> (p: u32)
        requires
            i < self@.pixels.len(),
        ensures
            p == self@.pixels[i as int],
    {
        match &self.0 {
            SkiaDriver::Cpu(cpu) => cpu.0.pixel_at(i),
        }
    }

    /// Presents this surface onto the target window.
    pub fn present_surface<T: WindowDrawTarget>(&mut self, target: &mut T) -> (r: Result<
        (),
        RenderError,
    >)
        ensures
            *final(self) == *old(self),
            final(target).draw_bounds() == old(target).draw_bounds(),
            final(target).same_but_presented(*old(target)),
            match r {
                Ok(()) => final(target).presented() == Some(old(self)@),
                Err(e) => e == RenderError::CannotBlit && final(target).presented() == old(
                    target,
                ).presented(),
            },
    {
        self.0.present_surface(target)
    }
}

impl Default for Cpu {
    /// A driver holding a placeholder one-by-one surface.
    fn default() -> (d: Cpu)
        ensures
            d@.width == 1,
            d@.height == 1,
            d@.wf(),
    {
        let surface = match RasterSurface::new(1, 1) {
            Ok(s) => s,
            Err(_) => {
                proof {
                    assert(false);
                }
                unreached()
            },
        };
        Cpu(surface)
    }
}

} // verus!
