//! Pixels for the framebuffer driver: position with separate or packed
//! 0xRRGGBB colour, and the colour palette.
use vstd::prelude::*;

verus! {

pub const COLOR_BLACK: u32 = 0x000000;
pub const COLOR_WHITE: u32 = 0xFFFFFF;
pub const COLOR_RED: u32 = 0xFF0000;
pub const COLOR_GREEN: u32 = 0x00FF00;
pub const COLOR_BLUE: u32 = 0x0000FF;
pub const COLOR_YELLOW: u32 = 0xFFFF00;
pub const COLOR_CYAN: u32 = 0x00FFFF;
pub const COLOR_MAGENTA: u32 = 0xFF00FF;
pub const COLOR_PURPLE: u32 = 0x800080;
pub const COLOR_ORANGE: u32 = 0xFFA500;
pub const COLOR_GRAY: u32 = 0x808080;
pub const COLOR_LIGHT_GRAY: u32 = 0xC0C0C0;
pub const COLOR_DARK_GRAY: u32 = 0x404040;

/// A pixel with separate red, green and blue components.
#[derive(Clone, Copy, Debug)]
pub struct Pixel {
    pub x: u16,
    pub y: u16,
    pub r: u8,
    pub g: u8,
    pub b: u8,
}

/// A pixel with a packed 0xRRGGBB colour.
#[derive(Clone, Copy, Debug)]
pub struct PixelRgb {
    pub x: u16,
    pub y: u16,
    pub color: u32,
}

/// The packed colour of components `r`, `g`, `b`.
pub open spec fn packed(r: u8, g: u8, b: u8) -> u32 {
    ((r as u32) << 16u32) | ((g as u32) << 8u32) | (b as u32)
}

impl Pixel {
    /// The pixel at (`x`, `y`) with components `r`, `g`, `b`.
    pub fn new(x: u16, y: u16, r: u8, g: u8, b: u8) -> (p: Pixel)
        ensures
            p == (Pixel { x, y, r, g, b }),
    {
        Pixel { x, y, r, g, b }
    }

    /// The pixel at (`x`, `y`) with the colour packed in `color` (its top
    /// byte ignored).
    pub fn from_rgb(x: u16, y: u16, color: u32) -> (p: Pixel)
        ensures
            p.x == x && p.y == y,
            p.r == ((color >> 16u32) & 0xFF) as u8,
            p.g == ((color >> 8u32) & 0xFF) as u8,
            p.b == (color & 0xFF) as u8,
    {
        Pixel {
            x,
            y,
            r: ((color >> 16u32) & 0xFF) as u8,
            g: ((color >> 8u32) & 0xFF) as u8,
            b: (color & 0xFF) as u8,
        }
    }

    /// The packed 0xRRGGBB colour.
    pub fn to_rgb(&self) -> (c: u32)
        ensures
            c == packed(self.r, self.g, self.b),
    {
        ((self.r as u32) << 16u32) | ((self.g as u32) << 8u32) | (self.b as u32)
    }
}

/// Packing the components of a colour gives back its low 24 bits.
pub proof fn lemma_unpack_pack(color: u32)
    ensures
        packed(
            ((color >> 16u32) & 0xFF) as u8,
            ((color >> 8u32) & 0xFF) as u8,
            (color & 0xFF) as u8,
        ) == color & 0xFF_FFFF,
{
    let r = ((color >> 16u32) & 0xFF) as u8;
    let g = ((color >> 8u32) & 0xFF) as u8;
    let b = (color & 0xFF) as u8;
    assert(((r as u32) << 16u32) | ((g as u32) << 8u32) | (b as u32) == color & 0xFF_FFFF) by (bit_vector)
        requires
            r == ((color >> 16u32) & 0xFF) as u8,
            g == ((color >> 8u32) & 0xFF) as u8,
            b == (color & 0xFF) as u8,
    ;
}

/// Unpacking a packed colour gives back its components.
pub proof fn lemma_pack_unpack(r: u8, g: u8, b: u8)
    ensures
        ((packed(r, g, b) >> 16u32) & 0xFF) as u8 == r,
        ((packed(r, g, b) >> 8u32) & 0xFF) as u8 == g,
        (packed(r, g, b) & 0xFF) as u8 == b,
        packed(r, g, b) <= 0xFF_FFFF,
{
    let c = packed(r, g, b);
    assert(((c >> 16u32) & 0xFF) as u8 == r && ((c >> 8u32) & 0xFF) as u8 == g && (c & 0xFF) as u8 == b
        && c <= 0xFF_FFFF) by (bit_vector)
        requires
            c == ((r as u32) << 16u32) | ((g as u32) << 8u32) | (b as u32),
    ;
}

impl PixelRgb {
    /// The pixel at (`x`, `y`) with packed colour `color`.
    pub fn new(x: u16, y: u16, color: u32) -> (p: PixelRgb)
        ensures
            p == (PixelRgb { x, y, color }),
    {
        PixelRgb { x, y, color }
    }

    /// The entry that ends a pixel list: x = 0xFFFF.
    pub fn sentinel() -> (p: PixelRgb)
        ensures
            p == (PixelRgb { x: 0xFFFF, y: 0, color: 0 }),
    {
        PixelRgb { x: 0xFFFF, y: 0, color: 0 }
    }
}

/// How the display is set up at boot.
#[derive(Clone, Copy, Debug, PartialEq, Eq, Structural)]
pub enum DisplaySetup {
    /// A linear framebuffer at `addr`, `pitch` bytes per row, `width` by
    /// `height` pixels of `bytes_per_pixel` bytes.
    Framebuffer { addr: u32, pitch: u32, width: u32, height: u32, bytes_per_pixel: u32 },
    /// VGA text mode, for a boot that gave no framebuffer.
    TextMode,
}

/// The display for the framebuffer the bootloader reports (address
/// `fb_addr`, `bpp` bits per pixel, or bytes per pixel when at most 8):
/// text mode without an address, else the framebuffer with its depth in
/// bytes.
pub fn display_setup(fb_addr: u32, pitch: u32, width: u32, height: u32, bpp: u32) -> (r: DisplaySetup)
    ensures
        fb_addr == 0 ==> r == DisplaySetup::TextMode,
        fb_addr != 0 ==> r == (DisplaySetup::Framebuffer {
            addr: fb_addr,
            pitch,
            width,
            height,
            bytes_per_pixel: if bpp > 8 { bpp / 8 } else { bpp },
        }),
{
    if fb_addr == 0 {
        return DisplaySetup::TextMode;
    }
    let bytes_per_pixel = if bpp > 8 {
        bpp / 8
    } else {
        bpp
    };
    DisplaySetup::Framebuffer { addr: fb_addr, pitch, width, height, bytes_per_pixel }
}

} // verus!
