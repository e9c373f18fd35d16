//! Panel models and their screen geometry (portrait, in pixels).

use vstd::prelude::*;

verus! {

/// The tablet the diary runs on; picks the panel geometry and the digitizer.
#[derive(Clone, Copy, Debug, PartialEq, Eq, Structural)]
pub enum Model {
    /// reMarkable Paper Pro (aarch64), "Elan marker input" digitizer.
    PaperPro,
    /// reMarkable 2 (armv7), "Wacom I2C Digitizer".
    Rm2,
}

pub const PAPER_PRO_W: i32 = 1620;
pub const PAPER_PRO_H: i32 = 2160;
pub const RM2_W: i32 = 1404;
pub const RM2_H: i32 = 1872;

impl Model {
    pub open spec fn spec_screen_w(self) -> i32 {
        match self {
            Model::PaperPro => PAPER_PRO_W,
            Model::Rm2 => RM2_W,
        }
    }

    pub open spec fn spec_screen_h(self) -> i32 {
        match self {
            Model::PaperPro => PAPER_PRO_H,
            Model::Rm2 => RM2_H,
        }
    }

    /// Screen width in pixels.
    #[verifier::when_used_as_spec(spec_screen_w)]
    pub fn screen_w(self) -> (w: i32)
        ensures
            w == self.spec_screen_w(),
    {
        match self {
            Model::PaperPro => PAPER_PRO_W,
            Model::Rm2 => RM2_W,
        }
    }

    /// Screen height in pixels.
    #[verifier::when_used_as_spec(spec_screen_h)]
    pub fn screen_h(self) -> (h: i32)
        ensures
            h == self.spec_screen_h(),
    {
        match self {
            Model::PaperPro => PAPER_PRO_H,
            Model::Rm2 => RM2_H,
        }
    }
}

} // verus!
