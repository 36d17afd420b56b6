//! Error kinds and the small color-facing traits shared by the display
//! drivers.

use vstd::prelude::*;

verus! {

/// The kind of a fault the SPI transport reported while writing or
/// transferring bytes, held as a plain value. The kinds mirror the
/// categories an SPI bus distinguishes; a port adapter classifies the
/// transport's own error into one of them.
#[derive(Clone, Copy, PartialEq, Eq, Structural, Debug)]
pub enum BusFault {
    /// The peripheral receive buffer was overrun.
    Overrun,
    /// Several devices tried to drive the slave select line at once.
    ModeFault,
    /// Received data does not conform to the peripheral configuration.
    FrameFormat,
    /// Asserting or deasserting the chip select line failed.
    ChipSelectFault,
    /// A different transport error.
    Other,
}

/// The kind of a fault a digital line (data/command select, reset, busy)
/// reported, held as a plain value.
#[derive(Clone, Copy, PartialEq, Eq, Structural, Debug)]
pub enum LineFault {
    /// A line error; digital lines distinguish no finer kinds.
    Other,
}

/// The recoverable errors a display operation can return to its caller.
///
/// `SpiError` and `DigitalPinError` wrap the underlying transport fault;
/// `BusyTimeout` reports that the polled busy wait exhausted its bounded
/// number of attempts without the panel signalling ready.
#[derive(Clone, Copy, PartialEq, Eq, Structural, Debug)]
pub enum Error {
    SpiError(BusFault),
    DigitalPinError(LineFault),
    BusyTimeout,
}

impl Error {
    /// Wraps a bus transfer fault, preserving its kind exactly.
    pub fn from_spi_error(err: BusFault) -> (r: Self)
        ensures
            r == Error::SpiError(err),
    {
        Error::SpiError(err)
    }

    /// Wraps a digital line fault, preserving its kind exactly.
    pub fn from_digital_pin_error(err: LineFault) -> (r: Self)
        ensures
            r == Error::DigitalPinError(err),
    {
        Error::DigitalPinError(err)
    }
}

/// An RGB triplet, in (red, green, blue) order.
pub type RgbColor = (u8, u8, u8);

/// A color that can be displayed as an RGB triplet.
pub trait AsRgbColor {
    /// The RGB triplet this color stands for.
    spec fn rgb_spec(&self) -> RgbColor;

    /// Returns the RGB triplet this color stands for.
    fn rgb_color(&self) -> (r: RgbColor)
        ensures
            r == self.rgb_spec(),
    ;
}

/// Marker for color enumerations a display can show.
pub trait Color {}

/// A single pixel write: a position and the color to store there.
pub struct Pixel<C: Color> {
    /// Horizontal position, counted from the left edge.
    pub x: u16,
    /// Vertical position, counted from the top edge.
    pub y: u16,
    /// The color to store at (x, y).
    pub color: C,
}

} // verus!
