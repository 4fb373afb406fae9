//! The flags that hold for the whole animation.

use vstd::prelude::*;
use crate::error::PpmError;

verus! {

/// Bit 1: the animation loops.
pub const FLAG_LOOP: u16 = 0x2;

/// Bit 4: layer 1 is hidden.
pub const FLAG_HIDE_LAYER_1: u16 = 0x10;

/// Bit 5: layer 2 is hidden.
pub const FLAG_HIDE_LAYER_2: u16 = 0x20;

/// The 16-bit flag word of the animation section.
#[derive(Debug, Clone, Copy, PartialEq, Eq, Structural)]
pub struct PPMAnimationFlags {
    pub flags: u16,
}

impl Default for PPMAnimationFlags {
    fn default() -> (f: Self)
        ensures
            f.flags == 0,
    {
        PPMAnimationFlags { flags: 0 }
    }
}

impl PPMAnimationFlags {
    /// Whether the animation loops.
    pub open spec fn spec_loop(&self) -> bool {
        self.flags & 0x2 != 0
    }

    /// Whether layer `layer`, 1 or 2, is hidden.
    pub open spec fn spec_hide_layer(&self, layer: u8) -> bool {
        if layer == 1 {
            self.flags & 0x10 != 0
        } else {
            self.flags & 0x20 != 0
        }
    }

    /// Whether the animation loops.
    pub fn get_loop(&self) -> (looping: bool)
        ensures
            looping == self.spec_loop(),
    {
        self.flags & 0x2 != 0
    }

    /// Makes the animation loop or not; no other flag changes.
    pub fn set_loop(&mut self, value: bool)
        ensures
            final(self).flags == if value {
                old(self).flags | 0x2
            } else {
                old(self).flags & !0x2u16
            },
            final(self).spec_loop() == value,
            final(self).spec_hide_layer(1) == old(self).spec_hide_layer(1),
            final(self).spec_hide_layer(2) == old(self).spec_hide_layer(2),
    {
        let f = self.flags;
        assert((f | 0x2) & 0x2 != 0 && (f & !0x2u16) & 0x2 == 0 && (f | 0x2) & 0x10 == f & 0x10 && (
        f | 0x2) & 0x20 == f & 0x20 && (f & !0x2u16) & 0x10 == f & 0x10 && (f & !0x2u16) & 0x20 == f
            & 0x20) by (bit_vector);
        if value {
            self.flags = f | 0x2;
        } else {
            self.flags = f & !0x2u16;
        }
    }

    /// Whether layer `layer` is hidden. Layers are numbered 1 and 2.
    pub fn get_hide_layer(&self, layer: u8) -> (r: Result<bool, PpmError>)
        ensures
            layer == 1 || layer == 2 ==> r == Ok::<bool, PpmError>(self.spec_hide_layer(layer)),
            !(layer == 1 || layer == 2) ==> r == Err::<bool, PpmError>(PpmError::Bounds),
    {
        if layer == 1 {
            Ok(self.flags & 0x10 != 0)
        } else if layer == 2 {
            Ok(self.flags & 0x20 != 0)
        } else {
            Err(PpmError::Bounds)
        }
    }

    /// Hides or shows layer `layer`; no other flag changes.
    pub fn set_hide_layer(&mut self, layer: u8, value: bool) -> (r: Result<(), PpmError>)
        ensures
            layer == 1 || layer == 2 ==> r is Ok && final(self).spec_hide_layer(layer) == value
                && final(self).spec_hide_layer((3 - layer) as u8) == old(self).spec_hide_layer(
                (3 - layer) as u8,
            ) && final(self).spec_loop() == old(self).spec_loop() && final(self).flags == if layer
                == 1 {
                if value {
                    old(self).flags | 0x10
                } else {
                    old(self).flags & !0x10u16
                }
            } else {
                if value {
                    old(self).flags | 0x20
                } else {
                    old(self).flags & !0x20u16
                }
            },
            !(layer == 1 || layer == 2) ==>
                r == Err::<(), PpmError>(PpmError::Bounds)
                && final(self).flags == old(self).flags,
    {
        let f = self.flags;
        if layer == 1 {
            assert((f | 0x10) & 0x10 != 0 && (f & !0x10u16) & 0x10 == 0 && (f | 0x10) & 0x2 == f
                & 0x2 && (f | 0x10) & 0x20 == f & 0x20 && (f & !0x10u16) & 0x2 == f & 0x2 && (f
                & !0x10u16) & 0x20 == f & 0x20) by (bit_vector);
            if value {
                self.flags = f | 0x10;
            } else {
                self.flags = f & !0x10u16;
            }
            Ok(())
        } else if layer == 2 {
            assert((f | 0x20) & 0x20 != 0 && (f & !0x20u16) & 0x20 == 0 && (f | 0x20) & 0x2 == f
                & 0x2 && (f | 0x20) & 0x10 == f & 0x10 && (f & !0x20u16) & 0x2 == f & 0x2 && (f
                & !0x20u16) & 0x10 == f & 0x10) by (bit_vector);
            if value {
                self.flags = f | 0x20;
            } else {
                self.flags = f & !0x20u16;
            }
            Ok(())
        } else {
            Err(PpmError::Bounds)
        }
    }
}

} // verus!
