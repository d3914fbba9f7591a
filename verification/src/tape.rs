use vstd::prelude::*;
use crate::error::Error;

verus! {

/// The next byte value, with 255 followed by 0.
pub open spec fn succ(b: u8) -> u8 {
    if b == 255 { 0 } else { (b + 1) as u8 }
}

/// The previous byte value, with 0 preceded by 255.
pub open spec fn pred(b: u8) -> u8 {
    if b == 0 { 255 } else { (b - 1) as u8 }
}

/// What a tape is: its cells, and the position of its cursor among them.
pub struct TapeView {
    pub cells: Seq<u8>,
    pub cursor: int,
}

impl TapeView {
    /// The cursor addresses an existing cell.
    pub open spec fn wf(self) -> bool {
        0 <= self.cursor < self.cells.len()
    }

    /// One cell of value zero, with the cursor on it.
    pub open spec fn fresh() -> TapeView {
        TapeView { cells: seq![0u8], cursor: 0 }
    }

    /// The value of the cell under the cursor.
    pub open spec fn current(self) -> u8 {
        self.cells[self.cursor]
    }

    /// The cursor one cell further right; a zero cell is appended where the
    /// tape ended.
    pub open spec fn advance(self) -> TapeView {
        TapeView {
            cells: if self.cursor + 1 < self.cells.len() { self.cells } else { self.cells.push(0u8) },
            cursor: self.cursor + 1,
        }
    }

    /// The cursor one cell further left.
    pub open spec fn retreat(self) -> TapeView {
        TapeView { cells: self.cells, cursor: self.cursor - 1 }
    }

    /// The cell under the cursor replaced by `b`.
    pub open spec fn write(self, b: u8) -> TapeView {
        TapeView { cells: self.cells.update(self.cursor, b), cursor: self.cursor }
    }

    /// The cell under the cursor raised by one, modulo 256.
    pub open spec fn increment(self) -> TapeView {
        self.write(succ(self.current()))
    }

    /// The cell under the cursor lowered by one, modulo 256.
    pub open spec fn decrement(self) -> TapeView {
        self.write(pred(self.current()))
    }
}

/// A growable row of byte cells with a cursor.
pub struct Tape {
    cells: Vec<u8>,
    cursor: usize,
}

impl View for Tape {
    type V = TapeView;

    closed spec fn view(&self) -> TapeView {
        TapeView { cells: self.cells@, cursor: self.cursor as int }
    }
}

impl Tape {
    /// The cursor addresses an existing cell.
    pub open spec fn wf(&self) -> bool {
        self@.wf()
    }

    /// A tape of one zero cell.
    pub fn new() -> (t: Tape)
        ensures
            t@ == TapeView::fresh(),
            t.wf(),
    {
        let mut cells: Vec<u8> = Vec::new();
        cells.push(0u8);
        let t = Tape { cells, cursor: 0 };
        assert(t@.cells =~= seq![0u8]);
        t
    }

    /// The position of the cursor.
    pub fn position(&self) -> (p: usize)
        ensures
            p == self@.cursor,
    {
        self.cursor
    }

    /// The number of cells that the tape has grown to.
    pub fn len(&self) -> (n: usize)
        ensures
            n == self@.cells.len(),
    {
        self.cells.len()
    }

    /// The value of the cell at position `i`, if the tape reaches that far.
    pub fn cell(&self, i: usize) -> (c: Option<u8>)
        ensures
            c == (if i < self@.cells.len() { Some(self@.cells[i as int]) } else { None }),
    {
        if i < self.cells.len() { Some(self.cells[i]) } else { None }
    }

    /// The value of the cell under the cursor.
    pub fn read(&self) -> (b: u8)
        requires
            self.wf(),
        ensures
            b == self@.current(),
    {
        self.cells[self.cursor]
    }

    /// Sets the cell under the cursor to `b`.
    pub fn write(&mut self, b: u8)
        requires
            old(self).wf(),
        ensures
            final(self)@ == old(self)@.write(b),
            final(self).wf(),
    {
        self.cells[self.cursor] = b;
    }

    /// Moves the cursor one cell right, growing the tape by a zero cell at
    /// its end.
    pub fn advance(&mut self)
        requires
            old(self).wf(),
        ensures
            final(self)@ == old(self)@.advance(),
            final(self).wf(),
    {
        let n: usize = self.cells.len();
        self.cursor = self.cursor + 1;
        if n <= self.cursor {
            self.cells.push(0u8);
        }
    }

    /// Moves the cursor one cell left. At the first cell there is nowhere to
    /// go: the tape stays as it was.
    pub fn retreat(&mut self) -> (r: Result<(), Error>)
        requires
            old(self).wf(),
        ensures
            old(self)@.cursor == 0 ==> r == Err::<(), Error>(Error::PointerUnderflow) && final(self)@
                == old(self)@,
            old(self)@.cursor > 0 ==> r == Ok::<(), Error>(()) && final(self)@ == old(self)@.retreat(),
            final(self).wf(),
    {
        if self.cursor == 0 {
            Err(Error::PointerUnderflow)
        } else {
            self.cursor = self.cursor - 1;
            Ok(())
        }
    }

    /// Adds one to the cell under the cursor; 255 becomes 0.
    pub fn increment(&mut self)
        requires
            old(self).wf(),
        ensures
            final(self)@ == old(self)@.increment(),
            final(self).wf(),
    {
        let b: u8 = self.cells[self.cursor];
        self.cells[self.cursor] = b.wrapping_add(1);
    }

    /// Takes one from the cell under the cursor; 0 becomes 255.
    pub fn decrement(&mut self)
        requires
            old(self).wf(),
        ensures
            final(self)@ == old(self)@.decrement(),
            final(self).wf(),
    {
        let b: u8 = self.cells[self.cursor];
        self.cells[self.cursor] = b.wrapping_sub(1);
    }
}

/// Raising a byte and lowering it again, in either order, gives the byte
/// back, also across the ends of its range.
pub proof fn lemma_succ_pred(b: u8)
    ensures
        pred(succ(b)) == b,
        succ(pred(b)) == b,
        succ(255u8) == 0u8,
        pred(0u8) == 255u8,
{
}

/// An increment followed by a decrement leaves a tape as it was, and so does
/// a decrement followed by an increment.
pub proof fn lemma_increment_decrement(t: TapeView)
    requires
        t.wf(),
    ensures
        t.increment().decrement() == t,
        t.decrement().increment() == t,
        t.increment().wf(),
        t.decrement().wf(),
{
    lemma_succ_pred(t.current());
    assert(t.increment().decrement().cells =~= t.cells);
    assert(t.decrement().increment().cells =~= t.cells);
}

} // verus!
