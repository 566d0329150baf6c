//! Presentation-related enumerations.

use vstd::prelude::*;

verus! {

/// The colour space of a presented image.
#[derive(Clone, Copy, Debug, PartialEq, Eq, Structural, Hash)]
pub enum ColorSpace {
    SrgbNonlinear,
    DisplayP3Nonlinear,
    ExtendedSrgbLinear,
    DisplayP3Linear,
    DciP3Nonlinear,
    Bt709Linear,
    Bt709Nonlinear,
    Bt2020Linear,
    Hdr10St2084,
    Dolbyvision,
    Hdr10Hlg,
    AdobergbLinear,
    AdobergbNonlinear,
    PassThrough,
    ExtendedSrgbNonlinear,
    DisplayNative,
}

/// The colour space denoted by a raw constant, if any.
pub open spec fn spec_color_space_from_raw(raw: i32) -> Option<ColorSpace> {
    if raw == 0 {
        Some(ColorSpace::SrgbNonlinear)
    } else if raw == 1000104001 {
        Some(ColorSpace::DisplayP3Nonlinear)
    } else if raw == 1000104002 {
        Some(ColorSpace::ExtendedSrgbLinear)
    } else if raw == 1000104003 {
        Some(ColorSpace::DisplayP3Linear)
    } else if raw == 1000104004 {
        Some(ColorSpace::DciP3Nonlinear)
    } else if raw == 1000104005 {
        Some(ColorSpace::Bt709Linear)
    } else if raw == 1000104006 {
        Some(ColorSpace::Bt709Nonlinear)
    } else if raw == 1000104007 {
        Some(ColorSpace::Bt2020Linear)
    } else if raw == 1000104008 {
        Some(ColorSpace::Hdr10St2084)
    } else if raw == 1000104009 {
        Some(ColorSpace::Dolbyvision)
    } else if raw == 1000104010 {
        Some(ColorSpace::Hdr10Hlg)
    } else if raw == 1000104011 {
        Some(ColorSpace::AdobergbLinear)
    } else if raw == 1000104012 {
        Some(ColorSpace::AdobergbNonlinear)
    } else if raw == 1000104013 {
        Some(ColorSpace::PassThrough)
    } else if raw == 1000104014 {
        Some(ColorSpace::ExtendedSrgbNonlinear)
    } else if raw == 1000213000 {
        Some(ColorSpace::DisplayNative)
    } else {
        None
    }
}

impl ColorSpace {
    /// The colour space of a raw constant; unknown constants give nothing.
    pub fn from_raw(raw: i32) -> (r: Option<Self>)
        ensures
            r == spec_color_space_from_raw(raw),
    {
        if raw == 0 {
            Some(ColorSpace::SrgbNonlinear)
        } else if raw == 1000104001 {
            Some(ColorSpace::DisplayP3Nonlinear)
        } else if raw == 1000104002 {
            Some(ColorSpace::ExtendedSrgbLinear)
        } else if raw == 1000104003 {
            Some(ColorSpace::DisplayP3Linear)
        } else if raw == 1000104004 {
            Some(ColorSpace::DciP3Nonlinear)
        } else if raw == 1000104005 {
            Some(ColorSpace::Bt709Linear)
        } else if raw == 1000104006 {
            Some(ColorSpace::Bt709Nonlinear)
        } else if raw == 1000104007 {
            Some(ColorSpace::Bt2020Linear)
        } else if raw == 1000104008 {
            Some(ColorSpace::Hdr10St2084)
        } else if raw == 1000104009 {
            Some(ColorSpace::Dolbyvision)
        } else if raw == 1000104010 {
            Some(ColorSpace::Hdr10Hlg)
        } else if raw == 1000104011 {
            Some(ColorSpace::AdobergbLinear)
        } else if raw == 1000104012 {
            Some(ColorSpace::AdobergbNonlinear)
        } else if raw == 1000104013 {
            Some(ColorSpace::PassThrough)
        } else if raw == 1000104014 {
            Some(ColorSpace::ExtendedSrgbNonlinear)
        } else if raw == 1000213000 {
            Some(ColorSpace::DisplayNative)
        } else {
            None
        }
    }
}

/// How presentation requests are queued.
#[derive(Clone, Copy, Debug, PartialEq, Eq, Structural, Hash)]
pub enum PresentMode {
    Immediate,
    Mailbox,
    Fifo,
    FifoRelaxed,
    SharedDemandRefresh,
    SharedContinuousRefresh,
    FifoLatestReady,
}

/// The present mode denoted by a raw constant, if any.
pub open spec fn spec_present_mode_from_raw(raw: i32) -> Option<PresentMode> {
    if raw == 0 {
        Some(PresentMode::Immediate)
    } else if raw == 1 {
        Some(PresentMode::Mailbox)
    } else if raw == 2 {
        Some(PresentMode::Fifo)
    } else if raw == 3 {
        Some(PresentMode::FifoRelaxed)
    } else if raw == 1000111000 {
        Some(PresentMode::SharedDemandRefresh)
    } else if raw == 1000111001 {
        Some(PresentMode::SharedContinuousRefresh)
    } else if raw == 1000361000 {
        Some(PresentMode::FifoLatestReady)
    } else {
        None
    }
}

impl PresentMode {
    /// The present mode of a raw constant; unknown constants give nothing.
    pub fn from_raw(raw: i32) -> (r: Option<Self>)
        ensures
            r == spec_present_mode_from_raw(raw),
    {
        if raw == 0 {
            Some(PresentMode::Immediate)
        } else if raw == 1 {
            Some(PresentMode::Mailbox)
        } else if raw == 2 {
            Some(PresentMode::Fifo)
        } else if raw == 3 {
            Some(PresentMode::FifoRelaxed)
        } else if raw == 1000111000 {
            Some(PresentMode::SharedDemandRefresh)
        } else if raw == 1000111001 {
            Some(PresentMode::SharedContinuousRefresh)
        } else if raw == 1000361000 {
            Some(PresentMode::FifoLatestReady)
        } else {
            None
        }
    }
}

} // verus!
