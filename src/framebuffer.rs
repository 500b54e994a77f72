use vstd::prelude::*;
use crate::cell::{ATTRIBUTE, cell_of, char_of, attr_of, make_cell, lemma_cell_bytes};

verus! {

/// Address of the first cell of the text-mode framebuffer.
pub const BASE_ADDRESS: usize = 0xB8000;

/// Columns of the standard text-mode display.
pub const COLUMNS: usize = 80;

/// Rows of the standard text-mode display.
pub const ROWS: usize = 25;

/// Number of cells in the framebuffer (80 × 25).
pub const CELL_COUNT: usize = 2000;

/// The byte address of the cell at `index`: each cell is two bytes wide.
pub open spec fn address_of(index: int) -> int {
    BASE_ADDRESS + 2 * index
}

/// The byte address of the cell at `index`.
pub fn cell_address(index: usize) -> (r: usize)
    requires
        index < CELL_COUNT,
    ensures
        r == address_of(index as int),
{
    BASE_ADDRESS + 2 * index
}

/// The cells after writing `msg` from cell 0 on, each byte paired with the
/// fixed attribute; the cells past the message keep their contents.
pub open spec fn logged(cells: Seq<u16>, msg: Seq<u8>) -> Seq<u16> {
    Seq::new(
        cells.len(),
        |i: int|
            if i < msg.len() {
                cell_of(msg[i], ATTRIBUTE)
            } else {
                cells[i]
            },
    )
}

/// A host-side model of the memory-mapped text framebuffer: a fixed-length
/// array of 16-bit cells, indexed from the base address.
pub struct Framebuffer {
    cells: Vec<u16>,
}

impl View for Framebuffer {
    type V = Seq<u16>;

    closed spec fn view(&self) -> Seq<u16> {
        self.cells@
    }
}

impl Framebuffer {
    /// The framebuffer covers exactly the cells of the display.
    pub open spec fn wf(&self) -> bool {
        self@.len() == CELL_COUNT
    }

    /// A blank framebuffer: every cell zero.
    pub fn new() -> (r: Framebuffer)
        ensures
            r.wf(),
            r@ == Seq::new(CELL_COUNT as nat, |i: int| 0u16),
    {
        let mut cells: Vec<u16> = Vec::new();
        let mut i: usize = 0;
        while i < CELL_COUNT
            invariant
                i <= CELL_COUNT,
                cells@ == Seq::new(i as nat, |j: int| 0u16),
            decreases CELL_COUNT - i,
        {
            cells.push(0);
            i = i + 1;
        }
        Framebuffer { cells }
    }

    /// Number of cells.
    pub fn capacity(&self) -> (r: usize)
        ensures
            r == self@.len(),
    {
        self.cells.len()
    }

    /// The cell at `index`, or `None` past the end.
    pub fn read(&self, index: usize) -> (r: Option<u16>)
        ensures
            index < self@.len() ==> r == Some(self@[index as int]),
            index >= self@.len() ==> r is None,
    {
        if index < self.cells.len() {
            Some(self.cells[index])
        } else {
            None
        }
    }

    /// Stores `value` in the cell at `index`. An index past the end is
    /// refused: nothing is written and `false` comes back.
    pub fn store(&mut self, index: usize, value: u16) -> (r: bool)
        ensures
            r == (index < old(self)@.len()),
            r ==> final(self)@ == old(self)@.update(index as int, value),
            !r ==> final(self)@ == old(self)@,
    {
        if index < self.cells.len() {
            self.cells.set(index, value);
            true
        } else {
            false
        }
    }

    /// Writes character `byte` with attribute `attribute` as one 16-bit unit
    /// into the cell at `index`. An index past the end is refused: nothing
    /// is written and `false` comes back.
    pub fn write_cell(&mut self, index: usize, byte: u8, attribute: u8) -> (r: bool)
        ensures
            r == (index < old(self)@.len()),
            r ==> final(self)@ == old(self)@.update(index as int, cell_of(byte, attribute)),
            !r ==> final(self)@ == old(self)@,
    {
        let value = make_cell(byte, attribute);
        self.store(index, value)
    }

    /// Writes each byte of `msg` with the fixed attribute into consecutive
    /// cells from cell 0 on, in increasing order. The message must fit.
    pub fn log(&mut self, msg: &[u8])
        requires
            msg@.len() <= old(self)@.len(),
        ensures
            final(self)@ == logged(old(self)@, msg@),
    {
        let ghost start = self@;
        let mut i: usize = 0;
        while i < msg.len()
            invariant
                i <= msg@.len(),
                msg@.len() <= start.len(),
                self@.len() == start.len(),
                forall|j: int| 0 <= j < i ==> self@[j] == cell_of(msg@[j], ATTRIBUTE),
                forall|j: int| i <= j < start.len() ==> self@[j] == start[j],
            decreases msg@.len() - i,
        {
            self.write_cell(i, msg[i], ATTRIBUTE);
            i = i + 1;
        }
        assert(self@ =~= logged(start, msg@));
    }
}

/// After the writer runs on a message that fits, cell `i` holds byte `i` of
/// the message as its character and the fixed attribute, for every `i` of
/// the message; the other cells are unchanged.
pub proof fn lemma_log_contents(cells: Seq<u16>, msg: Seq<u8>)
    requires
        cells.len() == CELL_COUNT,
        msg.len() <= CELL_COUNT,
    ensures
        logged(cells, msg).len() == cells.len(),
        forall|i: int|
            0 <= i < msg.len() ==> {
                &&& char_of(#[trigger] logged(cells, msg)[i]) == msg[i]
                &&& attr_of(logged(cells, msg)[i]) == ATTRIBUTE
            },
        forall|i: int| msg.len() <= i < cells.len() ==> #[trigger] logged(cells, msg)[i] == cells[i],
{
    assert forall|i: int| 0 <= i < msg.len() implies {
        &&& char_of(#[trigger] logged(cells, msg)[i]) == msg[i]
        &&& attr_of(logged(cells, msg)[i]) == ATTRIBUTE
    } by {
        lemma_cell_bytes(msg[i], ATTRIBUTE);
    }
}

/// The writer on an empty message changes no cell.
pub proof fn lemma_log_empty(cells: Seq<u16>)
    ensures
        logged(cells, Seq::empty()) == cells,
{
    assert(logged(cells, Seq::empty()) =~= cells);
}

/// Running the writer twice with the same message leaves the same cells as
/// running it once: its writes overwrite, they do not accumulate.
pub proof fn lemma_log_idempotent(cells: Seq<u16>, msg: Seq<u8>)
    ensures
        logged(logged(cells, msg), msg) == logged(cells, msg),
{
    assert(logged(logged(cells, msg), msg) =~= logged(cells, msg));
}

} // verus!
