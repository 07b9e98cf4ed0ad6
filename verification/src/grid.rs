//! Fixed-size rows and 2D grids of block identifiers.
//!
//! A row holds exactly `N` identifiers; a grid holds exactly `Y` rows of
//! `X` identifiers each. Both dimensions are compile-time constants. The
//! types (de)serialize through the positional fixed-array codec, one
//! level of nesting per dimension.

use vstd::prelude::*;
use crate::BlockID;
use crate::codec::{CodecError, deserialize_array, deserialize_spec, serialize_array, serialize_spec};

verus! {

/// An ordered, fixed-length sequence of `N` block identifiers.
#[derive(Debug)]
pub struct ChunkDataRow<const N: usize> {
    cells: Vec<BlockID>,
}

impl<const N: usize> View for ChunkDataRow<N> {
    type V = Seq<BlockID>;

    closed spec fn view(&self) -> Seq<BlockID> {
        self.cells@
    }
}

impl<const N: usize> ChunkDataRow<N> {
    /// The length invariant: a row always holds exactly `N` cells.
    pub open spec fn wf(&self) -> bool {
        self@.len() == N
    }

    /// A row with every cell set to `block`.
    pub fn new(block: BlockID) -> (r: Self)
        ensures
            r.wf(),
            forall|i: int| 0 <= i < N ==> r@[i] == block,
    {
        let mut cells: Vec<BlockID> = Vec::new();
        let mut i: usize = 0;
        while i < N
            invariant
                i <= N,
                cells@.len() == i,
                forall|j: int| 0 <= j < i ==> cells@[j] == block,
            decreases N - i,
        {
            cells.push(block);
            i = i + 1;
        }
        ChunkDataRow { cells }
    }

    /// The cell at `index`; an out-of-range index is a caller fault and
    /// is excluded.
    pub fn get(&self, index: usize) -> (r: BlockID)
        requires
            self.wf(),
            index < N,
        ensures
            r == self@[index as int],
    {
        self.cells[index]
    }

    /// Overwrite the cell at `index`; an out-of-range index is a caller
    /// fault and is excluded.
    pub fn set(&mut self, index: usize, block: BlockID)
        requires
            old(self).wf(),
            index < N,
        ensures
            final(self).wf(),
            final(self)@ == old(self)@.update(index as int, block),
    {
        self.cells.set(index, block);
    }

    /// Serialize the row: its `N` cells, in index order.
    pub fn serialize(&self) -> (r: Vec<BlockID>)
        requires
            self.wf(),
        ensures
            r@ == serialize_spec(self@),
            r@ == self@,
    {
        serialize_array(&self.cells)
    }

    /// Reconstruct a row from the first `N` elements of `input`; an
    /// input shorter than `N` fails with a length error naming the
    /// first missing index.
    pub fn deserialize(input: &Vec<BlockID>) -> (r: Result<Self, CodecError>)
        ensures
            (match r {
                Ok(row) => row.wf() && deserialize_spec(input@, N as nat) == Ok::<
                    Seq<BlockID>,
                    CodecError,
                >(row@),
                Err(e) => deserialize_spec(input@, N as nat) == Err::<Seq<BlockID>, CodecError>(e),
            }),
            r is Ok <==> input@.len() >= N,
    {
        match deserialize_array::<BlockID, N>(input, 0) {
            Ok(cells) => Ok(ChunkDataRow { cells }),
            Err(e) => Err(e),
        }
    }
}

impl<const N: usize> Default for ChunkDataRow<N> {
    /// A row with every cell set to the zero identifier.
    fn default() -> (r: Self)
        ensures
            r.wf(),
            forall|i: int| 0 <= i < N ==> r@[i] == 0,
    {
        ChunkDataRow::new(0)
    }
}

impl<const N: usize> PartialEq for ChunkDataRow<N> {
    /// Two rows are equal iff all cells are equal in order.
    fn eq(&self, other: &Self) -> (r: bool) {
        if self.cells.len() != other.cells.len() {
            return false;
        }
        let mut i: usize = 0;
        while i < self.cells.len()
            invariant
                i <= self.cells@.len(),
                self.cells@.len() == other.cells@.len(),
                forall|j: int| 0 <= j < i ==> self.cells@[j] == other.cells@[j],
            decreases self.cells@.len() - i,
        {
            if self.cells[i] != other.cells[i] {
                return false;
            }
            i = i + 1;
        }
        proof {
            assert(self.cells@ =~= other.cells@);
        }
        true
    }
}

impl<const N: usize> vstd::std_specs::cmp::PartialEqSpecImpl for ChunkDataRow<N> {
    open spec fn obeys_eq_spec() -> bool {
        true
    }

    open spec fn eq_spec(&self, other: &Self) -> bool {
        self@ == other@
    }
}

/// What deserializing a grid from row `k` onward produces: each
/// remaining row decoded through the fixed-array codec with expected
/// count `x`, in order, stopping at the first fault. A missing row `k`
/// fails with a length error naming `k`; a short row fails with that
/// row's own length error.
pub open spec fn grid_decode_from(input: Seq<Seq<BlockID>>, x: nat, y: nat, k: nat) -> Result<
    Seq<Seq<BlockID>>,
    CodecError,
>
    decreases y - k,
{
    if k >= y {
        Ok(Seq::empty())
    } else if k >= input.len() {
        Err(CodecError::InvalidLength { index: k as usize })
    } else {
        match deserialize_spec(input[k as int], x) {
            Ok(row) => match grid_decode_from(input, x, y, (k + 1) as nat) {
                Ok(rest) => Ok(seq![row] + rest),
                Err(e) => Err(e),
            },
            Err(e) => Err(e),
        }
    }
}

/// What deserializing a grid of `y` rows of `x` cells produces from an
/// incoming sequence of sequences.
pub open spec fn grid_decode(input: Seq<Seq<BlockID>>, x: nat, y: nat) -> Result<
    Seq<Seq<BlockID>>,
    CodecError,
> {
    grid_decode_from(input, x, y, 0)
}

/// Decoding succeeds from row `k` onward when every remaining row is
/// present and long enough, and yields exactly the given decoded rows.
proof fn lemma_grid_decode_ok(
    input: Seq<Seq<BlockID>>,
    x: nat,
    y: nat,
    k: nat,
    rows: Seq<Seq<BlockID>>,
)
    requires
        k <= y,
        rows.len() == y - k,
        forall|j: int|
            k <= j < y ==> j < input.len() && deserialize_spec(input[j], x) == Ok::<
                Seq<BlockID>,
                CodecError,
            >(rows[j - k]),
    ensures
        grid_decode_from(input, x, y, k) == Ok::<Seq<Seq<BlockID>>, CodecError>(rows),
    decreases y - k,
{
    if k >= y {
        assert(rows =~= Seq::empty());
    } else {
        lemma_grid_decode_ok(input, x, y, (k + 1) as nat, rows.subrange(1, rows.len() as int));
        assert(deserialize_spec(input[k as int], x) == Ok::<Seq<BlockID>, CodecError>(rows[0]));
        assert(seq![rows[0]] + rows.subrange(1, rows.len() as int) =~= rows);
    }
}

/// Decoding fails from row `k` onward when rows `k..i` decode but row
/// `i` faults: the fault at `i` is the one reported.
proof fn lemma_grid_decode_err(
    input: Seq<Seq<BlockID>>,
    x: nat,
    y: nat,
    k: nat,
    i: nat,
    e: CodecError,
)
    requires
        k <= i < y,
        forall|j: int|
            k <= j < i ==> j < input.len() && deserialize_spec(#[trigger] input[j], x) is Ok,
        if i < input.len() {
            deserialize_spec(input[i as int], x) == Err::<Seq<BlockID>, CodecError>(e)
        } else {
            e == (CodecError::InvalidLength { index: i as usize })
        },
    ensures
        grid_decode_from(input, x, y, k) == Err::<Seq<Seq<BlockID>>, CodecError>(e),
    decreases i - k,
{
    if k < i {
        lemma_grid_decode_err(input, x, y, (k + 1) as nat, i, e);
    }
}

/// An ordered, fixed-length sequence of `Y` rows, each of `X` block
/// identifiers: one chunk's contents.
#[derive(Debug)]
pub struct ChunkData<const X: usize, const Y: usize> {
    rows: Vec<ChunkDataRow<X>>,
}

impl<const X: usize, const Y: usize> View for ChunkData<X, Y> {
    type V = Seq<Seq<BlockID>>;

    closed spec fn view(&self) -> Seq<Seq<BlockID>> {
        self.rows@.map_values(|r: ChunkDataRow<X>| r@)
    }
}

impl<const X: usize, const Y: usize> ChunkData<X, Y> {
    /// The dimension invariant: exactly `Y` rows of exactly `X` cells.
    pub open spec fn wf(&self) -> bool {
        &&& self@.len() == Y
        &&& forall|i: int| 0 <= i < Y ==> (#[trigger] self@[i]).len() == X
    }

    /// A grid with every cell of every row set to `block`.
    pub fn new(block: BlockID) -> (r: Self)
        ensures
            r.wf(),
            forall|i: int, j: int| 0 <= i < Y && 0 <= j < X ==> r@[i][j] == block,
    {
        let mut rows: Vec<ChunkDataRow<X>> = Vec::new();
        let mut i: usize = 0;
        while i < Y
            invariant
                i <= Y,
                rows@.len() == i,
                forall|k: int| 0 <= k < i ==> (#[trigger] rows@[k]).wf(),
                forall|k: int, j: int| 0 <= k < i && 0 <= j < X ==> rows@[k]@[j] == block,
            decreases Y - i,
        {
            rows.push(ChunkDataRow::new(block));
            i = i + 1;
        }
        ChunkData { rows }
    }

    /// The row at `index`; an out-of-range index is a caller fault and
    /// is excluded.
    pub fn get(&self, index: usize) -> (r: &ChunkDataRow<X>)
        requires
            self.wf(),
            index < Y,
        ensures
            r@ == self@[index as int],
            r.wf(),
    {
        proof {
            assert(self@[index as int] == self.rows@[index as int]@);
        }
        &self.rows[index]
    }

    /// Replace the row at `index`; an out-of-range index is a caller
    /// fault and is excluded.
    pub fn set(&mut self, index: usize, row: ChunkDataRow<X>)
        requires
            old(self).wf(),
            index < Y,
            row.wf(),
        ensures
            final(self).wf(),
            final(self)@ == old(self)@.update(index as int, row@),
    {
        self.rows.set(index, row);
        proof {
            assert(final(self)@ =~= old(self)@.update(index as int, row@));
        }
    }

    /// Serialize the grid: a sequence of `Y` elements, each the
    /// serialized form of one row, in row order.
    pub fn serialize(&self) -> (r: Vec<Vec<BlockID>>)
        requires
            self.wf(),
        ensures
            r@.len() == Y,
            forall|i: int| 0 <= i < Y ==> (#[trigger] r@[i])@ == self@[i],
    {
        let mut out: Vec<Vec<BlockID>> = Vec::new();
        let mut i: usize = 0;
        while i < Y
            invariant
                self.wf(),
                i <= Y,
                out@.len() == i,
                forall|k: int| 0 <= k < i ==> (#[trigger] out@[k])@ == self@[k],
            decreases Y - i,
        {
            proof {
                assert(self@[i as int] == self.rows@[i as int]@);
            }
            out.push(self.rows[i].serialize());
            i = i + 1;
        }
        out
    }

    /// Reconstruct a grid from an incoming sequence of sequences: each
    /// of the first `Y` elements is decoded as one row of `X` cells, in
    /// order, stopping at the first fault. A missing row fails with a
    /// length error naming its index; a row shorter than `X` fails with
    /// that row's own first missing index.
    pub fn deserialize(input: &Vec<Vec<BlockID>>) -> (r: Result<Self, CodecError>)
        ensures
            (match r {
                Ok(g) => g.wf() && grid_decode(
                    input@.map_values(|v: Vec<BlockID>| v@),
                    X as nat,
                    Y as nat,
                ) == Ok::<Seq<Seq<BlockID>>, CodecError>(g@),
                Err(e) => grid_decode(input@.map_values(|v: Vec<BlockID>| v@), X as nat, Y as nat)
                    == Err::<Seq<Seq<BlockID>>, CodecError>(e),
            }),
            r matches Ok(g) ==> forall|i: int|
                0 <= i < Y ==> g@[i] == (#[trigger] input@[i])@.subrange(0, X as int),
            r is Ok <==> (input@.len() >= Y && forall|i: int|
                0 <= i < Y ==> (#[trigger] input@[i])@.len() >= X),
    {
        let ghost views = input@.map_values(|v: Vec<BlockID>| v@);
        let mut rows: Vec<ChunkDataRow<X>> = Vec::new();
        let mut i: usize = 0;
        while i < Y
            invariant
                i <= Y,
                rows@.len() == i,
                views == input@.map_values(|v: Vec<BlockID>| v@),
                i <= input@.len(),
                forall|k: int| 0 <= k < i ==> (#[trigger] rows@[k]).wf(),
                forall|k: int|
                    0 <= k < i ==> deserialize_spec(views[k], X as nat) == Ok::<
                        Seq<BlockID>,
                        CodecError,
                    >(rows@[k]@),
            decreases Y - i,
        {
            if i >= input.len() {
                proof {
                    lemma_grid_decode_err(
                        views,
                        X as nat,
                        Y as nat,
                        0,
                        i as nat,
                        CodecError::InvalidLength { index: i },
                    );
                }
                return Err(CodecError::InvalidLength { index: i });
            }
            match ChunkDataRow::<X>::deserialize(&input[i]) {
                Ok(row) => {
                    rows.push(row);
                },
                Err(e) => {
                    proof {
                        lemma_grid_decode_err(views, X as nat, Y as nat, 0, i as nat, e);
                    }
                    return Err(e);
                },
            }
            i = i + 1;
        }
        let g = ChunkData { rows };
        proof {
            lemma_grid_decode_ok(views, X as nat, Y as nat, 0, g@);
            assert forall|k: int| 0 <= k < Y implies (#[trigger] input@[k])@.len() >= X && g@[k]
                == input@[k]@.subrange(0, X as int) by {
                assert(deserialize_spec(views[k], X as nat) == Ok::<Seq<BlockID>, CodecError>(
                    g@[k],
                ));
            }
        }
        Ok(g)
    }
}

impl<const X: usize, const Y: usize> Default for ChunkData<X, Y> {
    /// A grid with every cell set to the zero identifier.
    fn default() -> (r: Self)
        ensures
            r.wf(),
            forall|i: int, j: int| 0 <= i < Y && 0 <= j < X ==> r@[i][j] == 0,
    {
        ChunkData::new(0)
    }
}

impl<const X: usize, const Y: usize> PartialEq for ChunkData<X, Y> {
    /// Two grids are equal iff all rows are equal in order.
    fn eq(&self, other: &Self) -> (r: bool) {
        if self.rows.len() != other.rows.len() {
            proof {
                assert(self@.len() == self.rows@.len());
                assert(other@.len() == other.rows@.len());
            }
            return false;
        }
        let mut i: usize = 0;
        while i < self.rows.len()
            invariant
                i <= self.rows@.len(),
                self.rows@.len() == other.rows@.len(),
                forall|j: int| 0 <= j < i ==> (#[trigger] self.rows@[j])@ == other.rows@[j]@,
            decreases self.rows@.len() - i,
        {
            if !(self.rows[i] == other.rows[i]) {
                proof {
                    assert(self@[i as int] == self.rows@[i as int]@);
                    assert(other@[i as int] == other.rows@[i as int]@);
                    assert(self@ != other@);
                }
                return false;
            }
            i = i + 1;
        }
        proof {
            assert(self@ =~= other@);
        }
        true
    }
}

impl<const X: usize, const Y: usize> vstd::std_specs::cmp::PartialEqSpecImpl for ChunkData<X, Y> {
    open spec fn obeys_eq_spec() -> bool {
        true
    }

    open spec fn eq_spec(&self, other: &Self) -> bool {
        self@ == other@
    }
}

/// Round-trip law for grids: a sequence of exactly `y` rows of exactly
/// `x` cells decodes to itself, so deserializing a serialized grid
/// restores it.
pub proof fn lemma_grid_round_trip(g: Seq<Seq<BlockID>>, x: nat, y: nat)
    requires
        g.len() == y,
        forall|i: int| 0 <= i < y ==> (#[trigger] g[i]).len() == x,
    ensures
        grid_decode(g, x, y) == Ok::<Seq<Seq<BlockID>>, CodecError>(g),
{
    assert forall|j: int| 0 <= j < y implies j < g.len() && deserialize_spec(#[trigger] g[j], x)
        == Ok::<Seq<BlockID>, CodecError>(g[j]) by {
        assert(g[j].subrange(0, x as int) =~= g[j]);
    }
    lemma_grid_decode_ok(g, x, y, 0, g);
}

} // verus!
