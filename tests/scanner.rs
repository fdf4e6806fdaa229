use std::cell::RefCell;
use std::rc::Rc;

use embedded_pg::buttons::{Button, Buttons, LAYOUT};
use embedded_pg::lines::{ColumnSensor, PinFault, ReadFault, RowDriver, ScanError, Settle};
use embedded_pg::numpad::Numpad;

/// A simulated keypad matrix: a column reads high when some asserted row
/// crosses it at a held key.
#[derive(Default)]
struct Board {
    high: [bool; 4],
    held: [[bool; 4]; 4],
    fail_high: [bool; 4],
    fail_low: [bool; 4],
    column_fault: [Option<ReadFault>; 4],
    /// Every column sample: the column and which rows were high at that moment.
    samples: Vec<(usize, [bool; 4])>,
    settles: usize,
}

type Shared = Rc<RefCell<Board>>;

struct Row {
    board: Shared,
    index: usize,
}

struct Col {
    board: Shared,
    index: usize,
}

struct Delay {
    board: Shared,
}

impl RowDriver for Row {
    fn set_high(&mut self) -> Result<(), PinFault> {
        let mut b = self.board.borrow_mut();
        if b.fail_high[self.index] {
            return Err(PinFault);
        }
        b.high[self.index] = true;
        Ok(())
    }

    fn set_low(&mut self) -> Result<(), PinFault> {
        let mut b = self.board.borrow_mut();
        if b.fail_low[self.index] {
            return Err(PinFault);
        }
        b.high[self.index] = false;
        Ok(())
    }
}

impl ColumnSensor for Col {
    fn is_high(&self) -> Result<bool, ReadFault> {
        let mut b = self.board.borrow_mut();
        let high = b.high;
        b.samples.push((self.index, high));
        if let Some(f) = b.column_fault[self.index] {
            return Err(f);
        }
        Ok((0..4).any(|r| high[r] && b.held[r][self.index]))
    }
}

impl Settle for Delay {
    fn settle(&mut self) {
        self.board.borrow_mut().settles += 1;
    }
}

fn board() -> Shared {
    Rc::new(RefCell::new(Board::default()))
}

fn rows_of(board: &Shared, wired: [bool; 4]) -> [Option<Row>; 4] {
    let mut i = 0;
    wired.map(|w| {
        i += 1;
        if w {
            Some(Row { board: board.clone(), index: i - 1 })
        } else {
            None
        }
    })
}

fn cols_of(board: &Shared, wired: [bool; 4]) -> [Option<Col>; 4] {
    let mut i = 0;
    wired.map(|w| {
        i += 1;
        if w {
            Some(Col { board: board.clone(), index: i - 1 })
        } else {
            None
        }
    })
}

fn pad(board: &Shared, rows: [bool; 4], cols: [bool; 4]) -> Numpad<Row, Col> {
    match Numpad::new(rows_of(board, rows), cols_of(board, cols)) {
        Ok(p) => p,
        Err(e) => panic!("construction failed: {:?}", e),
    }
}

fn delay(board: &Shared) -> Delay {
    Delay { board: board.clone() }
}

#[test]
fn unwired_scanner_always_reads_zero() {
    let b = board();
    b.borrow_mut().held = [[true; 4]; 4];
    let mut p = pad(&b, [false; 4], [false; 4]);
    let mut d = delay(&b);
    for _ in 0..5 {
        assert_eq!(p.read(&mut d), Ok(Buttons::NoKey));
    }
    assert_eq!(b.borrow().settles, 0);
}

#[test]
fn unwired_rows_with_wired_columns_read_zero() {
    let b = board();
    b.borrow_mut().held = [[true; 4]; 4];
    let mut p = pad(&b, [false; 4], [true; 4]);
    let mut d = delay(&b);
    assert_eq!(p.read(&mut d), Ok(0));
    assert!(b.borrow().samples.is_empty());
}

#[test]
fn single_key_with_only_its_lines_wired() {
    for r in 0..4 {
        for c in 0..4 {
            let b = board();
            let mut rows = [false; 4];
            rows[r] = true;
            let mut cols = [false; 4];
            cols[c] = true;
            let mut p = pad(&b, rows, cols);
            b.borrow_mut().held[r][c] = true;
            assert_eq!(p.read(&mut delay(&b)), Ok(LAYOUT[r][c]));
            b.borrow_mut().held[r][c] = false;
            assert_eq!(p.read(&mut delay(&b)), Ok(0));
        }
    }
}

#[test]
fn single_key_on_a_fully_wired_pad() {
    for r in 0..4 {
        for c in 0..4 {
            let b = board();
            let mut p = pad(&b, [true; 4], [true; 4]);
            b.borrow_mut().held[r][c] = true;
            assert_eq!(p.read(&mut delay(&b)), Ok(LAYOUT[r][c]));
            assert_eq!(LAYOUT[r][c], 1u16 << (4 * r + c));
        }
    }
}

#[test]
fn key_is_attributed_to_its_own_row_only() {
    let b = board();
    let mut p = pad(&b, [true; 4], [true; 4]);
    b.borrow_mut().held[2][1] = true;
    assert_eq!(p.read(&mut delay(&b)), Ok(Buttons::Eight));
    let board = b.borrow();
    assert_eq!(board.samples.len(), 16);
    for (k, (_, high)) in board.samples.iter().enumerate() {
        let row = k / 4;
        let mut expected = [false; 4];
        expected[row] = true;
        assert_eq!(*high, expected);
    }
}

#[test]
fn rows_sampled_in_order_columns_in_order() {
    let b = board();
    let mut p = pad(&b, [true, false, true, true], [true, true, false, true]);
    assert_eq!(p.read(&mut delay(&b)), Ok(0));
    let board = b.borrow();
    let order: Vec<(usize, usize)> = board
        .samples
        .iter()
        .map(|(c, high)| (high.iter().position(|h| *h).unwrap(), *c))
        .collect();
    assert_eq!(
        order,
        vec![(0, 0), (0, 1), (0, 3), (2, 0), (2, 1), (2, 3), (3, 0), (3, 1), (3, 3)]
    );
    assert_eq!(board.settles, 3);
}

#[test]
fn every_row_ends_low_after_a_scan() {
    let b = board();
    b.borrow_mut().held = [[true; 4]; 4];
    let mut p = pad(&b, [true; 4], [true; 4]);
    assert_eq!(p.read(&mut delay(&b)), Ok(0xffff));
    assert_eq!(b.borrow().high, [false; 4]);
}

#[test]
fn construction_drives_rows_low() {
    let b = board();
    b.borrow_mut().high = [true; 4];
    let _p = pad(&b, [true, true, false, true], [true; 4]);
    assert_eq!(b.borrow().high, [false, false, true, false]);
}

#[test]
fn construction_fails_when_a_row_cannot_be_driven_low() {
    let b = board();
    b.borrow_mut().fail_low[1] = true;
    let r = Numpad::new(rows_of(&b, [true; 4]), cols_of(&b, [true; 4]));
    assert!(matches!(r, Err(ScanError::RowDeassert { row: 1 })));
}

#[test]
fn absent_column_contributes_nothing() {
    let b = board();
    let mut p = pad(&b, [true; 4], [true, true, false, true]);
    {
        let mut board = b.borrow_mut();
        board.held[0][2] = true;
        board.held[3][2] = true;
        board.held[1][3] = true;
    }
    assert_eq!(p.read(&mut delay(&b)), Ok(Buttons::B));
    assert!(b.borrow().samples.iter().all(|(c, _)| *c != 2));
}

#[test]
fn two_keys_on_one_row_report_both() {
    let b = board();
    let mut p = pad(&b, [true; 4], [true; 4]);
    {
        let mut board = b.borrow_mut();
        board.held[3][0] = true;
        board.held[3][2] = true;
    }
    assert_eq!(p.read(&mut delay(&b)), Ok(Buttons::Star | Buttons::Hash));
}

#[test]
fn one_row_two_columns() {
    let b = board();
    let mut p = pad(&b, [true, false, false, false], [true, true, false, false]);
    b.borrow_mut().held[0] = [true, false, false, false];
    assert_eq!(p.read(&mut delay(&b)), Ok(LAYOUT[0][0]));
    b.borrow_mut().held[0] = [false, true, false, false];
    assert_eq!(p.read(&mut delay(&b)), Ok(LAYOUT[0][1]));
    b.borrow_mut().held[0] = [true, true, false, false];
    assert_eq!(p.read(&mut delay(&b)), Ok(LAYOUT[0][0] | LAYOUT[0][1]));
}

#[test]
fn row_drive_failure_on_third_row() {
    let b = board();
    let mut p = pad(&b, [true; 4], [true; 4]);
    b.borrow_mut().fail_high[2] = true;
    b.borrow_mut().held[0][0] = true;
    assert_eq!(p.read(&mut delay(&b)), Err(ScanError::RowAssert { row: 2 }));
    let board = b.borrow();
    assert_eq!(board.high, [false; 4]);
    assert_eq!(board.samples.len(), 8);
}

#[test]
fn failed_deassert_is_reported_and_scan_stops() {
    let b = board();
    let mut p = pad(&b, [true; 4], [true; 4]);
    b.borrow_mut().fail_low[1] = true;
    assert_eq!(p.read(&mut delay(&b)), Err(ScanError::RowDeassert { row: 1 }));
    let board = b.borrow();
    assert_eq!(board.high, [false, true, false, false]);
    assert_eq!(board.samples.len(), 8);
}

#[test]
fn misread_column_counts_as_not_pressed() {
    let b = board();
    let mut p = pad(&b, [true; 4], [true; 4]);
    {
        let mut board = b.borrow_mut();
        board.held[1][1] = true;
        board.held[1][2] = true;
        board.column_fault[1] = Some(ReadFault::Misread);
    }
    assert_eq!(p.read(&mut delay(&b)), Ok(Buttons::Six));
    assert_eq!(b.borrow().high, [false; 4]);
}

#[test]
fn fatal_column_fault_releases_row_and_fails() {
    let b = board();
    let mut p = pad(&b, [false, true, true, true], [true; 4]);
    b.borrow_mut().column_fault[2] = Some(ReadFault::Fatal);
    assert_eq!(p.read(&mut delay(&b)), Err(ScanError::ColumnRead { row: 1, col: 2 }));
    let board = b.borrow();
    assert_eq!(board.high, [false; 4]);
    assert_eq!(board.samples.len(), 4);
}

#[test]
fn custom_layout_is_used() {
    let b = board();
    let mut layout = LAYOUT;
    layout[0][0] = Buttons::D;
    layout[3][3] = Buttons::One;
    let mut p = match Numpad::with_layout(rows_of(&b, [true; 4]), cols_of(&b, [true; 4]), layout) {
        Ok(p) => p,
        Err(e) => panic!("construction failed: {:?}", e),
    };
    b.borrow_mut().held[0][0] = true;
    assert_eq!(p.read(&mut delay(&b)), Ok(Buttons::D));
    b.borrow_mut().held[0][0] = false;
    b.borrow_mut().held[3][3] = true;
    let got: Button = p.read(&mut delay(&b)).unwrap();
    assert_eq!(got, Buttons::One);
}
