use vstd::prelude::*;

verus! {

/// A pin operation that the hardware failed to carry out.
#[derive(Debug, Clone, Copy, PartialEq, Eq, Structural)]
pub struct PinFault;

/// Why a column could not be read.
#[derive(Debug, Clone, Copy, PartialEq, Eq, Structural)]
pub enum ReadFault {
    /// A transient misread: the column counts as not pressed.
    Misread,
    /// The device behind the column has failed: the scan stops.
    Fatal,
}

/// An output line that drives one keypad row.
pub trait RowDriver {
    /// Drives the row to the active (high) level.
    fn set_high(&mut self) -> Result<(), PinFault>;

    /// Drives the row to the inactive (low) level.
    fn set_low(&mut self) -> Result<(), PinFault>;
}

/// An input line that senses one keypad column.
pub trait ColumnSensor {
    /// Whether the column currently reads the active (high) level.
    fn is_high(&self) -> Result<bool, ReadFault>;
}

/// Blocks the caller for the matrix's settle time after a row is asserted.
pub trait Settle {
    fn settle(&mut self);
}

/// A hardware I/O failure met while driving the keypad.
#[derive(Debug, Clone, Copy, PartialEq, Eq, Structural)]
pub enum ScanError {
    /// Driving `row` high failed.
    RowAssert { row: usize },
    /// Driving `row` low failed: it may be left asserted.
    RowDeassert { row: usize },
    /// Column `col` reported a fatal fault while `row` was asserted.
    ColumnRead { row: usize, col: usize },
}

} // verus!
