//! Screen back buffer: the pixel buffer the kernel draws into and its
//! framebuffer geometry. Blitting the buffer out to the device memory is
//! hardware access and belongs to the kernel shell around this crate.

use vstd::prelude::*;
use crate::bootinfo::BootInfo;

verus! {

/// The drawing surface: an owned byte buffer sized for the framebuffer,
/// plus the geometry needed to interpret it.
#[derive(Debug)]
pub struct Screen {
    pub address: u64,
    pub buffer: Vec<u8>,
    pub width: u32,
    pub height: u32,
    pub bits_per_pixel: u8,
    pub stride: u32,
    pub red_shift: u8,
    pub green_shift: u8,
    pub blue_shift: u8,
    pub red_mask: u8,
    pub green_mask: u8,
    pub blue_mask: u8,
}

impl Screen {
    /// The bytes of the back buffer.
    pub closed spec fn buf(self) -> Seq<u8> {
        self.buffer@
    }

    /// An uninitialized screen: no buffer, no geometry.
    pub fn new() -> (r: Screen)
        ensures
            r.buf().len() == 0,
            r.width == 0 && r.height == 0,
    {
        Screen {
            address: 0,
            buffer: Vec::new(),
            width: 0,
            height: 0,
            bits_per_pixel: 0,
            stride: 0,
            red_shift: 0,
            green_shift: 0,
            blue_shift: 0,
            red_mask: 0,
            green_mask: 0,
            blue_mask: 0,
        }
    }

    /// Adopt the framebuffer geometry from the boot information and size
    /// the back buffer to one full frame.
    pub fn init(&mut self, boot_info: &BootInfo)
        requires
            boot_info.framebuffer.width * boot_info.framebuffer.height <= usize::MAX,
            boot_info.framebuffer.width * boot_info.framebuffer.height
                * boot_info.framebuffer.bpp <= usize::MAX,
        ensures
            final(self).width == boot_info.framebuffer.width,
            final(self).height == boot_info.framebuffer.height,
            final(self).bits_per_pixel == boot_info.framebuffer.bpp,
            final(self).stride == boot_info.framebuffer.pitch,
            final(self).address == boot_info.framebuffer.address,
            final(self).buf().len() == boot_info.framebuffer.width as int
                * boot_info.framebuffer.height as int * boot_info.framebuffer.bpp as int / 8,
            final(self).red_shift == boot_info.framebuffer.red_shift,
            final(self).green_shift == boot_info.framebuffer.green_shift,
            final(self).blue_shift == boot_info.framebuffer.blue_shift,
            final(self).red_mask == boot_info.framebuffer.red_mask,
            final(self).green_mask == boot_info.framebuffer.green_mask,
            final(self).blue_mask == boot_info.framebuffer.blue_mask,
    {
        let info = boot_info.framebuffer;
        self.address = info.address;
        let buffer_size: usize = (info.width as usize) * (info.height as usize) * (
        info.bpp as usize) / 8;
        self.buffer.resize(buffer_size, 0);
        self.width = info.width;
        self.height = info.height;
        self.bits_per_pixel = info.bpp;
        self.stride = info.pitch;
        self.red_shift = info.red_shift;
        self.green_shift = info.green_shift;
        self.blue_shift = info.blue_shift;
        self.red_mask = info.red_mask;
        self.green_mask = info.green_mask;
        self.blue_mask = info.blue_mask;
    }

    /// Copy `data` into the front of the back buffer, cut down to
    /// whichever of the two is shorter; the rest of the buffer keeps its
    /// contents.
    pub fn write(&mut self, data: &[u8])
        ensures
            final(self).buf().len() == old(self).buf().len(),
            ({
                let n = if data@.len() <= old(self).buf().len() {
                    data@.len() as int
                } else {
                    old(self).buf().len() as int
                };
                final(self).buf() == data@.subrange(0, n) + old(self).buf().skip(n)
            }),
    {
        let len: usize = if data.len() <= self.buffer.len() {
            data.len()
        } else {
            self.buffer.len()
        };
        let ghost pre = self.buffer@;
        let mut i: usize = 0;
        while i < len
            invariant
                i <= len,
                len <= data@.len(),
                len <= self.buffer@.len(),
                self.buffer@.len() == pre.len(),
                forall|k: int| 0 <= k < i ==> self.buffer@[k] == data@[k],
                forall|k: int| i <= k < pre.len() ==> self.buffer@[k] == pre[k],
            decreases len - i,
        {
            self.buffer[i] = data[i];
            i = i + 1;
        }
        proof {
            assert(self.buffer@ =~= data@.subrange(0, len as int) + pre.skip(len as int));
        }
    }

    /// The buffered frame, for handing to the blitting path.
    pub fn get_buffer(&self) -> (r: &Vec<u8>)
        ensures
            r@ == self.buf(),
    {
        &self.buffer
    }
}

/// The width and height of the screen.
pub fn get_info(screen: &Screen) -> (r: (u32, u32))
    ensures
        r.0 == screen.width,
        r.1 == screen.height,
{
    (screen.width, screen.height)
}

/// Copy `data` into the screen's back buffer, cut down to whichever of
/// the two is shorter; the rest of the buffer keeps its contents.
pub fn write(screen: &mut Screen, data: &[u8])
    ensures
        final(screen).buf().len() == old(screen).buf().len(),
        ({
            let n = if data@.len() <= old(screen).buf().len() {
                data@.len() as int
            } else {
                old(screen).buf().len() as int
            };
            final(screen).buf() == data@.subrange(0, n) + old(screen).buf().skip(n)
        }),
{
    screen.write(data);
}

} // verus!
