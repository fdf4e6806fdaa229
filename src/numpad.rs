use vstd::prelude::*;

use crate::buttons::{
    Button,
    Buttons,
    Layout,
    LAYOUT,
    lemma_row_quiet,
    lemma_scan_frame,
    row_bits,
    row_mask,
    scan_bits,
    scan_mask,
};
use crate::lines::{ColumnSensor, ReadFault, RowDriver, ScanError, Settle};

verus! {

/// Which rows are asserted: exactly `row`.
pub open spec fn one_hot(row: int) -> Seq<bool> {
    Seq::new(4, |r: int| r == row)
}

/// No row asserted.
pub open spec fn all_low() -> Seq<bool> {
    Seq::new(4, |r: int| false)
}

/// The rows still asserted once every row up to `row` has been deasserted.
pub open spec fn beyond(asserted: Seq<bool>, row: int) -> Seq<bool> {
    Seq::new(4, |r: int| r > row && asserted[r])
}

/// The 4x4 grid of intersections with none seen high.
pub open spec fn no_hits() -> Seq<Seq<bool>> {
    Seq::new(4, |r: int| Seq::new(4, |c: int| false))
}

/// `e` reports that driving a wired row low failed.
pub open spec fn deassert_failed<R>(rows: &[Option<R>; 4], e: ScanError) -> bool {
    match e {
        ScanError::RowDeassert { row } => row < 4 && rows[row as int] is Some,
        _ => false,
    }
}

/// The row that `e` occurred on.
pub open spec fn fault_row(e: ScanError) -> int {
    match e {
        ScanError::RowAssert { row } => row as int,
        ScanError::RowDeassert { row } => row as int,
        ScanError::ColumnRead { row, .. } => row as int,
    }
}

/// The asserted rows after the scan of `fault_row(e)` ended in `e`, starting
/// from `asserted`: a failed assertion leaves the row as it was, a fatal
/// column read still deasserts it, a failed deassertion leaves it asserted.
pub open spec fn after_fault(asserted: Seq<bool>, e: ScanError) -> Seq<bool> {
    match e {
        ScanError::RowAssert { .. } => asserted,
        ScanError::RowDeassert { row } => asserted.update(row as int, true),
        ScanError::ColumnRead { row, .. } => asserted.update(row as int, false),
    }
}

/// What sampling one column gave: `None` for an absent column.
pub type Reading = Option<Result<bool, ReadFault>>;

/// A reading that counts as a pressed key.
pub open spec fn reads_high(reading: Reading) -> bool {
    reading == Some(Ok::<bool, ReadFault>(true))
}

/// A reading that ends the scan.
pub open spec fn is_fatal(reading: Reading) -> bool {
    reading == Some(Err::<bool, ReadFault>(ReadFault::Fatal))
}

/// The columns of a row that count as pressed.
pub open spec fn high_columns(readings: [Reading; 4]) -> Seq<bool> {
    Seq::new(4, |c: int| reads_high(readings[c]))
}

/// Turns the readings of the columns sampled under one row into that row's
/// keys: the OR of the keys whose column read high, a misread counting as
/// not pressed; or the first column that reported a fatal fault.
pub fn combine_row(keys: &[Button; 4], readings: &[Reading; 4]) -> (r: Result<Button, usize>)
    ensures
        match r {
            Ok(m) => {
                &&& forall|c: int| 0 <= c < 4 ==> !is_fatal(#[trigger] readings[c])
                &&& m == row_bits(*keys, high_columns(*readings), 4)
            },
            Err(col) => {
                &&& col < 4
                &&& is_fatal(readings[col as int])
                &&& forall|c: int| 0 <= c < col ==> !is_fatal(#[trigger] readings[c])
            },
        },
{
    let mut levels: [bool; 4] = [false; 4];
    let mut c: usize = 0;
    while c < 4
        invariant
            c <= 4,
            forall|k: int| 0 <= k < c ==> !is_fatal(#[trigger] readings[k]),
            forall|k: int| 0 <= k < c ==> #[trigger] levels[k] == reads_high(readings[k]),
        decreases 4 - c,
    {
        match readings[c] {
            Some(Ok(high)) => {
                levels[c] = high;
            },
            Some(Err(ReadFault::Fatal)) => {
                return Err(c);
            },
            _ => {
                levels[c] = false;
            },
        }
        c = c + 1;
    }
    assert(levels@ =~= high_columns(*readings));
    Ok(row_mask(keys, &levels))
}

/// A 4x4 keypad read by driving one row at a time and sampling every column.
pub struct Numpad<R, C> {
    rows: [Option<R>; 4],
    cols: [Option<C>; 4],
    layout: Layout,
    /// Rows whose last successful drive was to the high level.
    asserted: Ghost<Seq<bool>>,
    /// For the last scan, `hits[r][c]`: column `c` read high while row `r` was asserted.
    hits: Ghost<Seq<Seq<bool>>>,
    /// For the last scan, the asserted rows while row `r`'s columns were sampled.
    windows: Ghost<Seq<Seq<bool>>>,
}

impl<R, C> Numpad<R, C> {
    pub closed spec fn row_present(&self, r: int) -> bool {
        self.rows[r] is Some
    }

    pub closed spec fn col_present(&self, c: int) -> bool {
        self.cols[c] is Some
    }

    pub closed spec fn layout(&self) -> Layout {
        self.layout
    }

    /// Rows whose last successful drive was to the high level.
    pub closed spec fn asserted(&self) -> Seq<bool> {
        self.asserted@
    }

    /// The intersections seen high by the last scan.
    pub closed spec fn hits(&self) -> Seq<Seq<bool>> {
        self.hits@
    }

    /// The rows asserted while the last scan sampled the columns under each row.
    pub closed spec fn windows(&self) -> Seq<Seq<bool>> {
        self.windows@
    }

    /// No row is left asserted.
    pub open spec fn idle(&self) -> bool {
        self.asserted() == all_low()
    }

    /// The wiring and the legend of `self` are those of `other`.
    pub open spec fn same_wiring(&self, other: &Self) -> bool {
        &&& forall|r: int| 0 <= r < 4 ==> self.row_present(r) == other.row_present(r)
        &&& forall|c: int| 0 <= c < 4 ==> self.col_present(c) == other.col_present(c)
        &&& self.layout() == other.layout()
    }

    /// Every intersection seen high lies on a wired row and a wired column.
    pub open spec fn hits_wired(&self) -> bool {
        &&& self.hits().len() == 4
        &&& forall|r: int| 0 <= r < 4 ==> #[trigger] self.hits()[r].len() == 4
        &&& forall|r: int, c: int|
            0 <= r < 4 && 0 <= c < 4 && #[trigger] self.hits()[r][c] ==> self.row_present(r)
                && self.col_present(c)
    }

    /// `self` differs from `other` at most in its pins' own state, in which
    /// rows are asserted, and in the record of the scan of row `i`.
    pub open spec fn same_but_row(&self, other: &Self, i: int) -> bool {
        &&& self.wf()
        &&& self.same_wiring(other)
        &&& forall|k: int| 0 <= k < 4 && k != i ==> #[trigger] self.hits()[k] == other.hits()[k]
        &&& forall|k: int| 0 <= k < 4 && k != i ==> #[trigger] self.windows()[k] == other.windows()[k]
    }

    /// A scanner fresh from construction over these wires, keyed by `layout`.
    pub open spec fn built_from(&self, rows: &[Option<R>; 4], cols: &[Option<C>; 4], layout: Layout) -> bool {
        &&& self.wf()
        &&& self.idle()
        &&& self.layout() == layout
        &&& forall|i: int| 0 <= i < 4 ==> self.row_present(i) == rows[i] is Some
        &&& forall|i: int| 0 <= i < 4 ==> self.col_present(i) == cols[i] is Some
    }

    pub closed spec fn wf(&self) -> bool {
        &&& self.asserted@.len() == 4
        &&& forall|r: int| 0 <= r < 4 && #[trigger] self.asserted@[r] ==> self.rows[r] is Some
        &&& self.windows@.len() == 4
        &&& self.hits_wired()
    }
}

impl<R: RowDriver, C: ColumnSensor> Numpad<R, C> {
    /// Takes the wired rows and columns, keyed by the standard legend, and
    /// drives every present row low.
    pub fn new(rows: [Option<R>; 4], cols: [Option<C>; 4]) -> (r: Result<Self, ScanError>)
        ensures
            r is Ok ==> r->Ok_0.built_from(&rows, &cols, LAYOUT),
            r is Err ==> deassert_failed(&rows, r->Err_0),
    {
        Self::with_layout(rows, cols, LAYOUT)
    }

    /// Takes the wired rows and columns, keyed by `layout`, and drives every
    /// present row low.
    pub fn with_layout(rows: [Option<R>; 4], cols: [Option<C>; 4], layout: Layout) -> (r: Result<
        Self,
        ScanError,
    >)
        ensures
            r is Ok ==> r->Ok_0.built_from(&rows, &cols, layout),
            r is Err ==> deassert_failed(&rows, r->Err_0),
    {
        let mut drivers = rows;
        let mut i: usize = 0;
        while i < 4
            invariant
                i <= 4,
                forall|k: int| 0 <= k < 4 ==> (#[trigger] drivers[k] is Some) == rows[k] is Some,
            decreases 4 - i,
        {
            let failed = match &mut drivers[i] {
                Some(row) => row.set_low().is_err(),
                None => false,
            };
            if failed {
                return Err(ScanError::RowDeassert { row: i });
            }
            i = i + 1;
        }
        Ok(Numpad {
            rows: drivers,
            cols,
            layout,
            asserted: Ghost(all_low()),
            hits: Ghost(no_hits()),
            windows: Ghost(Seq::new(4, |r: int| all_low())),
        })
    }

    /// Scans the whole keypad once and returns every key seen pressed.
    ///
    /// Each wired row in turn, in ascending order, is driven high, given the
    /// settle time, has every wired column sampled under it, and is driven low
    /// again before the next row; a column that reads high adds the key at
    /// that intersection. A column that cannot be read counts as not pressed,
    /// unless it reports a fatal fault. The first failure to drive a row, or a
    /// fatal column fault, ends the scan with that error.
    pub fn read<D: Settle>(&mut self, delay: &mut D) -> (r: Result<Button, ScanError>)
        requires
            old(self).wf(),
        ensures
            final(self).wf(),
            final(self).same_wiring(old(self)),
            final(self).hits_wired(),
            (forall|k: int| 0 <= k < 4 ==> !old(self).row_present(k)) ==> r == Ok::<
                Button,
                ScanError,
            >(0u16),
            r is Ok ==> r->Ok_0 == scan_mask(old(self).layout(), final(self).hits()),
            r is Ok ==> final(self).idle(),
            r is Ok && old(self).idle() ==> forall|k: int|
                0 <= k < 4 && old(self).row_present(k) ==> #[trigger] final(self).windows()[k]
                    == one_hot(k),
            r is Err ==> 0 <= fault_row(r->Err_0) < 4 && old(self).row_present(fault_row(r->Err_0))
                && final(self).asserted() == after_fault(
                beyond(old(self).asserted(), fault_row(r->Err_0) - 1),
                r->Err_0,
            ),
            old(self).idle() ==> final(self).idle() || (r is Err && r->Err_0 is RowDeassert
                && final(self).asserted() == one_hot(fault_row(r->Err_0))),
    {
        let ghost a0 = self.asserted@;
        self.hits = Ghost(no_hits());
        let mut buttons: Button = Buttons::NoKey;
        let mut i: usize = 0;
        while i < 4
            invariant
                i <= 4,
                self.wf(),
                self.same_wiring(old(self)),
                a0 == old(self).asserted(),
                a0.len() == 4,
                self.asserted() == beyond(a0, i - 1),
                forall|k: int| i <= k < 4 ==> #[trigger] self.hits()[k] == no_hits()[k],
                buttons == scan_bits(self.layout(), self.hits(), i as int),
                forall|k: int|
                    0 <= k < i && self.row_present(k) ==> #[trigger] self.windows()[k] == beyond(
                        a0,
                        k - 1,
                    ).update(k, true),
                (forall|k: int| 0 <= k < 4 ==> !old(self).row_present(k)) ==> buttons == 0,
            decreases 4 - i,
        {
            let ghost h0 = self.hits@;
            match self.scan_row(i, delay) {
                Ok(m) => {
                    proof {
                        lemma_scan_frame(self.layout, h0, self.hits@, i as int);
                        assert(beyond(a0, i - 1).update(i as int, false) =~= beyond(a0, i as int));
                        let b = buttons;
                        assert(b | 0u16 == b) by (bit_vector);
                    }
                    buttons = buttons | m;
                },
                Err(e) => {
                    proof {
                        if a0 == all_low() {
                            assert(beyond(a0, i - 1) =~= all_low());
                            assert(all_low().update(i as int, false) =~= all_low());
                            assert(all_low().update(i as int, true) =~= one_hot(i as int));
                        }
                    }
                    return Err(e);
                },
            }
            i = i + 1;
        }
        proof {
            if a0 == all_low() {
                assert forall|k: int| 0 <= k < 4 && old(self).row_present(k) implies #[trigger] self.windows()[k] == one_hot(k) by {
                    assert(beyond(a0, k - 1).update(k, true) =~= one_hot(k));
                }
            }
            assert(beyond(a0, 3) =~= all_low());
        }
        Ok(buttons)
    }

    /// Drives the asserted row `i` low again.
    fn release(&mut self, i: usize) -> (r: Result<(), ScanError>)
        requires
            old(self).wf(),
            i < 4,
            old(self).row_present(i as int),
        ensures
            final(self).same_but_row(old(self), -1),
            final(self).hits() == old(self).hits(),
            final(self).windows() == old(self).windows(),
            r is Ok ==> final(self).asserted() == old(self).asserted().update(i as int, false),
            r is Err ==> r == Err::<(), ScanError>(ScanError::RowDeassert { row: i })
                && final(self).asserted() == old(self).asserted(),
    {
        let lowered = match &mut self.rows[i] {
            Some(row) => row.set_low().is_ok(),
            None => false,
        };
        if lowered {
            self.asserted = Ghost(self.asserted@.update(i as int, false));
            Ok(())
        } else {
            Err(ScanError::RowDeassert { row: i })
        }
    }

    /// Asserts row `i`, waits for the matrix to settle, samples every column
    /// under it and deasserts it; an absent row is skipped.
    fn scan_row<D: Settle>(&mut self, i: usize, delay: &mut D) -> (r: Result<Button, ScanError>)
        requires
            old(self).wf(),
            i < 4,
        ensures
            final(self).same_but_row(old(self), i as int),
            !old(self).row_present(i as int) ==> r == Ok::<Button, ScanError>(0u16)
                && final(self).hits() == old(self).hits() && final(self).asserted() == old(
                self,
            ).asserted(),
            r is Ok ==> r->Ok_0 == row_bits(old(self).layout()[i as int], final(self).hits()[i as int], 4)
                && final(self).asserted() == old(self).asserted().update(i as int, false),
            r is Ok && old(self).row_present(i as int) ==> final(self).windows()[i as int]
                == old(self).asserted().update(i as int, true),
            r is Err ==> old(self).row_present(i as int) && fault_row(r->Err_0) == i
                && final(self).asserted() == after_fault(old(self).asserted(), r->Err_0),
    {
        let keys = self.layout[i];
        let ghost a0 = self.asserted@;
        if self.rows[i].is_none() {
            proof {
                lemma_row_quiet(keys, self.hits@[i as int], 4);
                assert(a0.update(i as int, false) =~= a0);
            }
            return Ok(Buttons::NoKey);
        }
        let raised = match &mut self.rows[i] {
            Some(row) => row.set_high().is_ok(),
            None => false,
        };
        if !raised {
            return Err(ScanError::RowAssert { row: i });
        }
        self.asserted = Ghost(a0.update(i as int, true));
        delay.settle();
        let mut readings: [Reading; 4] = [None; 4];
        let mut c: usize = 0;
        while c < 4
            invariant
                c <= 4,
                forall|k: int| 0 <= k < 4 && #[trigger] readings[k] is Some ==> self.col_present(k),
            decreases 4 - c,
        {
            readings[c] = match &self.cols[c] {
                Some(col) => Some(col.is_high()),
                None => None,
            };
            c = c + 1;
        }
        match combine_row(&keys, &readings) {
            Ok(m) => {
                self.hits = Ghost(self.hits@.update(i as int, high_columns(readings)));
                self.windows = Ghost(self.windows@.update(i as int, self.asserted@));
                assert(a0.update(i as int, true).update(i as int, false) =~= a0.update(
                    i as int,
                    false,
                ));
                match self.release(i) {
                    Ok(()) => Ok(m),
                    Err(e) => Err(e),
                }
            },
            Err(col) => {
                assert(a0.update(i as int, true).update(i as int, false) =~= a0.update(
                    i as int,
                    false,
                ));
                match self.release(i) {
                    Ok(()) => Err(ScanError::ColumnRead { row: i, col }),
                    Err(e) => Err(e),
                }
            },
        }
    }
}

} // verus!
