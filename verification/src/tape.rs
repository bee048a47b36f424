//! Growable, block-chunked tape storage addressed by a head position.
//!
//! The tape starts with one leading block of blanks (room for leftward
//! movement), followed by the input chunked into fixed-size blocks, any
//! partial final chunk padded with blanks.  Moving left at position 0
//! clamps; moving right past the last allocated cell grows a fresh
//! blank-filled block on demand, so the head always addresses an
//! allocated cell.

use crate::Alphabet;
use crate::BLANK;
use crate::BLOCK_SIZE;
use vstd::prelude::*;

verus! {

/// One fixed-size chunk of tape storage.
#[derive(Debug)]
pub struct Block {
    pub cells: [Alphabet; BLOCK_SIZE],
}

/// Growable storage over symbols, addressed by a head position.
#[derive(Debug)]
pub struct Tape {
    pub head: usize,
    pub blocks: Vec<Block>,
}

/// A block's worth of blank cells.
pub open spec fn blank_block() -> Seq<Alphabet> {
    Seq::new(BLOCK_SIZE as nat, |i: int| BLANK)
}

/// Length of the input region once chunked into blocks: the smallest
/// positive multiple of `BLOCK_SIZE` holding `n` symbols.
pub open spec fn padded_len(n: nat) -> nat {
    if n == 0 {
        BLOCK_SIZE as nat
    } else {
        (((n + BLOCK_SIZE - 1) as nat / (BLOCK_SIZE as nat)) * (BLOCK_SIZE as nat)) as nat
    }
}

/// The cell contents a fresh tape holds for a given input: one leading
/// block of blanks, then the input, then blank padding up to a block
/// boundary.
pub open spec fn initial_cells(input: Seq<Alphabet>) -> Seq<Alphabet> {
    Seq::new(
        (BLOCK_SIZE + padded_len(input.len())) as nat,
        |i: int|
            if i < BLOCK_SIZE {
                BLANK
            } else if i - BLOCK_SIZE < input.len() {
                input[i - BLOCK_SIZE]
            } else {
                BLANK
            },
    )
}

/// The flattened contents of a sequence of blocks.
pub open spec fn flat(blocks: Seq<Block>) -> Seq<Alphabet> {
    Seq::new(
        (blocks.len() * BLOCK_SIZE) as nat,
        |i: int| blocks[i / (BLOCK_SIZE as int)].cells@[i % (BLOCK_SIZE as int)],
    )
}

impl Tape {
    /// The flattened contents of all allocated blocks.
    pub open spec fn cells(self) -> Seq<Alphabet> {
        flat(self.blocks@)
    }

    /// The head addresses an allocated cell.
    pub open spec fn wf(self) -> bool {
        (self.head as int) < self.blocks@.len() * BLOCK_SIZE
    }

    /// Initializes storage with one leading blank block, followed by the
    /// input chunked into blocks (a partial final chunk is blank-padded;
    /// an empty input still gets one blank block so the head has a cell
    /// to stand on).  The head starts at the first input cell.
    pub fn from_input(input: Vec<Alphabet>) -> (t: Tape)
        requires
            input@.len() + BLOCK_SIZE <= usize::MAX,
        ensures
            t.wf(),
            t.head == BLOCK_SIZE,
            t.cells() == initial_cells(input@),
    {
        let mut blocks: Vec<Block> = Vec::new();
        blocks.push(Block { cells: [BLANK; BLOCK_SIZE] });
        let mut base: usize = 0;
        while base < input.len()
            invariant
                input@.len() + BLOCK_SIZE <= usize::MAX,
                base % BLOCK_SIZE == 0,
                base <= input@.len() + BLOCK_SIZE - 1,
                blocks@.len() * BLOCK_SIZE == BLOCK_SIZE + base,
                forall|i: int| 0 <= i < BLOCK_SIZE ==> flat(blocks@)[i] == BLANK,
                forall|j: int|
                    0 <= j < base && j < input@.len() ==> flat(blocks@)[BLOCK_SIZE + j]
                        == input@[j],
                forall|j: int|
                    input@.len() <= j < base ==> #[trigger] flat(blocks@)[BLOCK_SIZE + j]
                        == BLANK,
            decreases input@.len() + BLOCK_SIZE - base,
        {
            let mut cells: [Alphabet; BLOCK_SIZE] = [BLANK; BLOCK_SIZE];
            let mut j: usize = 0;
            while j < BLOCK_SIZE && base + j < input.len()
                invariant
                    input@.len() + BLOCK_SIZE <= usize::MAX,
                    base < input@.len(),
                    j <= BLOCK_SIZE,
                    base + j <= input@.len(),
                    forall|k: int| 0 <= k < j ==> cells@[k] == input@[base + k],
                    forall|k: int| j <= k < BLOCK_SIZE ==> cells@[k] == BLANK,
                decreases BLOCK_SIZE - j,
            {
                cells[j] = input[base + j];
                j += 1;
            }
            let ghost prev = blocks@;
            let b = Block { cells };
            blocks.push(b);
            proof {
                lemma_flat_push(prev, b);
                assert(flat(prev).len() == BLOCK_SIZE + base);
                assert(flat(blocks@).len() == BLOCK_SIZE + base + BLOCK_SIZE);
                assert forall|jj: int|
                    0 <= jj < base + BLOCK_SIZE && jj < input@.len() implies flat(
                    blocks@,
                )[BLOCK_SIZE + jj] == input@[jj] by {
                    if jj < base {
                        assert(flat(blocks@)[BLOCK_SIZE + jj] == flat(prev)[BLOCK_SIZE + jj]);
                    } else {
                        assert(flat(blocks@)[BLOCK_SIZE + jj] == cells@[jj - base]);
                    }
                }
                assert forall|jj: int|
                    input@.len() <= jj < base + BLOCK_SIZE implies #[trigger] flat(
                    blocks@,
                )[BLOCK_SIZE + jj] == BLANK by {
                    assert(flat(blocks@)[BLOCK_SIZE + jj] == cells@[jj - base]);
                    assert(jj - base >= j);
                }
                assert forall|i: int| 0 <= i < BLOCK_SIZE implies flat(blocks@)[i] == BLANK by {
                    assert(flat(blocks@)[i] == flat(prev)[i]);
                }
            }
            base += BLOCK_SIZE;
        }
        if input.len() == 0 {
            let ghost prev = blocks@;
            let b = Block { cells: [BLANK; BLOCK_SIZE] };
            blocks.push(b);
            proof {
                lemma_flat_push(prev, b);
            }
        }
        let t = Tape { head: BLOCK_SIZE, blocks };
        proof {
            if input@.len() > 0 {
                assert(base == padded_len(input@.len())) by (nonlinear_arith)
                    requires
                        base % 16 == 0,
                        input@.len() <= base <= input@.len() + 15,
                        input@.len() > 0,
                        padded_len(input@.len()) == ((input@.len() + 15) as nat / 16nat)
                            * 16nat,
                ;
            } else {
                assert(padded_len(input@.len()) == BLOCK_SIZE);
            }
            assert(t.cells().len() == initial_cells(input@).len());
            assert forall|i: int|
                0 <= i < t.cells().len() implies t.cells()[i] == initial_cells(input@)[i] by {
                if i < BLOCK_SIZE {
                    assert(t.cells()[i] == BLANK);
                } else if i - BLOCK_SIZE < input@.len() {
                    assert(t.cells()[BLOCK_SIZE + (i - BLOCK_SIZE)] == input@[i - BLOCK_SIZE]);
                } else {
                    assert(t.cells()[BLOCK_SIZE + (i - BLOCK_SIZE)] == BLANK);
                }
            }
            assert(t.cells() =~= initial_cells(input@));
        }
        t
    }

    /// The symbol under the head.
    pub fn current_cell(&self) -> (s: Alphabet)
        requires
            self.wf(),
        ensures
            s == self.cells()[self.head as int],
    {
        proof {
            lemma_block_index(self.blocks@.len() as int, self.head as int);
        }
        self.blocks[self.head / BLOCK_SIZE].cells[self.head % BLOCK_SIZE]
    }

    /// Overwrites the cell under the head; every other cell and the head
    /// itself are untouched.
    pub fn write_cell(&mut self, value: Alphabet)
        requires
            old(self).wf(),
        ensures
            final(self).wf(),
            final(self).head == old(self).head,
            final(self).cells() == old(self).cells().update(old(self).head as int, value),
    {
        proof {
            lemma_block_index(self.blocks@.len() as int, self.head as int);
        }
        let b = self.head / BLOCK_SIZE;
        let o = self.head % BLOCK_SIZE;
        self.blocks[b].cells[o] = value;
        proof {
            assert forall|i: int|
                0 <= i < self.cells().len() implies self.cells()[i] == old(self).cells().update(
                old(self).head as int,
                value,
            )[i] by {
                lemma_block_index(self.blocks@.len() as int, i);
                lemma_block_index(old(self).blocks@.len() as int, old(self).head as int);
            }
            assert(self.cells() =~= old(self).cells().update(old(self).head as int, value));
        }
    }

    /// Decrements the head by one, clamping at position 0: from the left
    /// boundary the head stays put, it never underflows.
    pub fn move_left(&mut self)
        requires
            old(self).wf(),
        ensures
            final(self).wf(),
            final(self).cells() == old(self).cells(),
            final(self).head == if old(self).head == 0 {
                0usize
            } else {
                (old(self).head - 1) as usize
            },
    {
        self.head = if self.head == 0 {
            0
        } else {
            self.head - 1
        };
    }

    /// Increments the head by one; when the head crosses the allocated
    /// boundary a fresh blank block is grown so the new position is
    /// still backed by storage.
    pub fn move_right(&mut self)
        requires
            old(self).wf(),
            old(self).head + 1 < usize::MAX,
        ensures
            final(self).wf(),
            final(self).head == old(self).head + 1,
            final(self).cells() == if old(self).head + 1 < old(self).cells().len() {
                old(self).cells()
            } else {
                old(self).cells() + blank_block()
            },
    {
        proof {
            lemma_block_index(self.blocks@.len() as int, self.head as int);
            lemma_block_index(self.blocks@.len() as int, self.head + 1);
        }
        self.head = self.head + 1;
        if self.head / BLOCK_SIZE >= self.blocks.len() {
            let ghost prev = self.blocks@;
            let b = Block { cells: [BLANK; BLOCK_SIZE] };
            self.blocks.push(b);
            proof {
                lemma_flat_push(prev, b);
                assert(self.cells() =~= old(self).cells() + blank_block());
            }
        } else {
            proof {
                assert(self.cells() =~= old(self).cells());
            }
        }
    }

    /// Reads any cell by absolute position; positions past the allocated
    /// range read as blank, matching the tape's logical content.
    pub fn cell_at(&self, index: usize) -> (s: Alphabet)
        ensures
            s == if index < self.cells().len() {
                self.cells()[index as int]
            } else {
                BLANK
            },
    {
        proof {
            lemma_block_index(self.blocks@.len() as int, index as int);
        }
        if index / BLOCK_SIZE < self.blocks.len() {
            self.blocks[index / BLOCK_SIZE].cells[index % BLOCK_SIZE]
        } else {
            BLANK
        }
    }

    /// The head's current absolute position.
    pub fn head_position(&self) -> (h: usize)
        ensures
            h == self.head,
    {
        self.head
    }
}

/// Appending one block appends exactly its cells to the flattened view.
proof fn lemma_flat_push(blocks: Seq<Block>, b: Block)
    ensures
        flat(blocks.push(b)) =~= flat(blocks) + b.cells@,
{
    assert forall|i: int|
        0 <= i < flat(blocks.push(b)).len() implies flat(blocks.push(b))[i] == (flat(blocks)
        + b.cells@)[i] by {
        lemma_block_index(blocks.len() as int + 1, i);
        if i < blocks.len() * BLOCK_SIZE {
            lemma_block_index(blocks.len() as int, i);
        } else {
            assert(i / 16 == blocks.len() && i % 16 == i - blocks.len() * 16)
                by (nonlinear_arith)
                requires
                    blocks.len() * 16 <= i < (blocks.len() + 1) * 16,
            ;
        }
    }
}

/// Division and modulus by the block size address the allocation: a flat
/// index below `n * BLOCK_SIZE` names block `i / BLOCK_SIZE`, cell
/// `i % BLOCK_SIZE`, both in range.
proof fn lemma_block_index(n: int, i: int)
    requires
        0 <= i,
        0 <= n,
    ensures
        i < n * BLOCK_SIZE ==> 0 <= i / (BLOCK_SIZE as int) < n,
        i / (BLOCK_SIZE as int) * BLOCK_SIZE + i % (BLOCK_SIZE as int) == i,
        0 <= i % (BLOCK_SIZE as int) < BLOCK_SIZE,
        i >= n * BLOCK_SIZE ==> i / (BLOCK_SIZE as int) >= n,
{
    assert(i < n * 16 ==> 0 <= i / 16 < n) by (nonlinear_arith)
        requires
            0 <= i,
            0 <= n,
    ;
    assert(i / 16 * 16 + i % 16 == i && 0 <= i % 16 < 16) by (nonlinear_arith)
        requires
            0 <= i,
    ;
    assert(i >= n * 16 ==> i / 16 >= n) by (nonlinear_arith)
        requires
            0 <= i,
            0 <= n,
    ;
}

} // verus!
