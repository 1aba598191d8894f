//! Static descriptions of the supported face-detection network variants.

use vstd::prelude::*;

verus! {

/// Supported variants of the Ultraface face-detection model.
#[derive(Debug, Clone, Copy, PartialEq, Eq, Structural)]
pub enum UltrafaceVariant {
    W640H480,
    W320H240,
    W320H240Quantized,
}

impl UltrafaceVariant {
    /// The input frame width and height the variant expects.
    pub open spec fn spec_width_height(self) -> (u32, u32) {
        match self {
            UltrafaceVariant::W640H480 => (640u32, 480u32),
            UltrafaceVariant::W320H240 => (320u32, 240u32),
            UltrafaceVariant::W320H240Quantized => (320u32, 240u32),
        }
    }

    /// Get width and height from the variant.
    pub fn width_height(&self) -> (r: (u32, u32))
        ensures
            r == self.spec_width_height(),
    {
        match self {
            UltrafaceVariant::W640H480 => (640, 480),
            UltrafaceVariant::W320H240 | UltrafaceVariant::W320H240Quantized => (320, 240),
        }
    }

    /// The path of the variant's model file.
    pub fn path(&self) -> (r: &str)
        ensures
            (match self {
                UltrafaceVariant::W640H480 => r@ == "./assets/ultraface-RFB-640.onnx"@,
                UltrafaceVariant::W320H240 => r@ == "./assets/ultraface-RFB-320.onnx"@,
                UltrafaceVariant::W320H240Quantized => r@ == "ultraface-RFB-320-quant.onnx"@,
            }),
    {
        match self {
            UltrafaceVariant::W640H480 => "./assets/ultraface-RFB-640.onnx",
            UltrafaceVariant::W320H240 => "./assets/ultraface-RFB-320.onnx",
            UltrafaceVariant::W320H240Quantized => "ultraface-RFB-320-quant.onnx",
        }
    }
}

} // verus!
