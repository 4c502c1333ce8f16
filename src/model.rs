//! The entity the codec carries: a named array of three dimensions whose
//! elements are bytes or 32-bit floats (held as their IEEE-754 bit patterns).
use vstd::prelude::*;

verus! {

/// The element type of an array.
#[derive(Clone, Copy, PartialEq, Eq, Debug, Structural)]
pub enum NpArrayDataType {
    U8,
    F32,
}

impl NpArrayDataType {
    /// Bytes taken by one element.
    pub open spec fn spec_data_size(self) -> nat {
        match self {
            NpArrayDataType::U8 => 1,
            NpArrayDataType::F32 => 4,
        }
    }

    /// The number of bytes that one element takes on the wire.
    pub fn data_size(&self) -> (r: usize)
        ensures
            r == self.spec_data_size(),
    {
        match self {
            NpArrayDataType::U8 => 1,
            NpArrayDataType::F32 => 4,
        }
    }
}

/// A dense row-major grid of three dimensions.
#[derive(Clone, PartialEq, Eq, Debug)]
pub struct Grid<T> {
    pub shape: [usize; 3],
    pub data: Vec<T>,
}

/// The product of the extents of a shape.
pub open spec fn shape_count(shape: Seq<usize>) -> int {
    shape[0] * shape[1] * shape[2]
}

impl<T> Grid<T> {
    /// The grid holds exactly one element per cell of its shape.
    pub open spec fn wf(&self) -> bool {
        self.data@.len() == shape_count(self.shape@)
    }
}

/// What a grid is, as mathematics: its shape and its elements in order.
pub struct GridView<T> {
    pub shape: Seq<usize>,
    pub data: Seq<T>,
}

/// The abstract value of an array: which element type, and the grid.
pub enum ArrayView {
    U8(GridView<u8>),
    F32(GridView<u32>),
}

impl ArrayView {
    pub open spec fn shape(self) -> Seq<usize> {
        match self {
            ArrayView::U8(g) => g.shape,
            ArrayView::F32(g) => g.shape,
        }
    }

    pub open spec fn len(self) -> nat {
        match self {
            ArrayView::U8(g) => g.data.len(),
            ArrayView::F32(g) => g.data.len(),
        }
    }

    pub open spec fn data_type(self) -> NpArrayDataType {
        match self {
            ArrayView::U8(_) => NpArrayDataType::U8,
            ArrayView::F32(_) => NpArrayDataType::F32,
        }
    }

    /// Three extents, and one element per cell.
    pub open spec fn wf(self) -> bool {
        self.shape().len() == 3 && self.len() == shape_count(self.shape())
    }
}

/// The payload of a message: a grid of bytes, or a grid of 32-bit floats
/// given by their bit patterns (`f32::to_bits`).
#[derive(Clone, PartialEq, Eq, Debug)]
pub enum NpArrayData {
    U8(Grid<u8>),
    F32(Grid<u32>),
}

impl View for NpArrayData {
    type V = ArrayView;

    open spec fn view(&self) -> ArrayView {
        match self {
            NpArrayData::U8(g) => ArrayView::U8(GridView { shape: g.shape@, data: g.data@ }),
            NpArrayData::F32(g) => ArrayView::F32(GridView { shape: g.shape@, data: g.data@ }),
        }
    }
}

/// The shape that marks an array whose payload is left off the wire.
pub open spec fn is_unit_shape(shape: Seq<usize>) -> bool {
    shape == seq![1usize, 1usize, 1usize]
}

impl NpArrayData {
    /// The number of elements.
    pub fn len(&self) -> (r: usize)
        ensures
            r == self@.len(),
    {
        match self {
            NpArrayData::U8(g) => g.data.len(),
            NpArrayData::F32(g) => g.data.len(),
        }
    }

    /// The element type.
    pub fn data_type(&self) -> (r: NpArrayDataType)
        ensures
            r == self@.data_type(),
    {
        match self {
            NpArrayData::U8(_) => NpArrayDataType::U8,
            NpArrayData::F32(_) => NpArrayDataType::F32,
        }
    }

    /// The extents of the three dimensions.
    pub fn shape(&self) -> (r: [usize; 3])
        ensures
            r@ == self@.shape(),
    {
        match self {
            NpArrayData::U8(g) => g.shape,
            NpArrayData::F32(g) => g.shape,
        }
    }

    /// Whether the shape is `[1, 1, 1]`, the shape whose payload is elided.
    pub fn shape_is_1(&self) -> (r: bool)
        ensures
            r == is_unit_shape(self@.shape()),
    {
        let s = self.shape();
        let r = s[0] == 1 && s[1] == 1 && s[2] == 1;
        assert(r ==> s@ =~= seq![1usize, 1usize, 1usize]);
        r
    }
}

/// A named, timestamped array.
#[derive(Clone, PartialEq, Eq, Debug)]
pub struct NpArrayD {
    pub unique_name: String,
    pub array_data: NpArrayData,
    pub time_id: i32,
}

/// The abstract value of an entity.
pub struct NpArrayView {
    pub name: Seq<char>,
    pub array: ArrayView,
    pub time_id: i32,
}

impl View for NpArrayD {
    type V = NpArrayView;

    open spec fn view(&self) -> NpArrayView {
        NpArrayView { name: self.unique_name@, array: self.array_data@, time_id: self.time_id }
    }
}

impl NpArrayD {
    /// An entity with the given name and array, at time 0.
    pub fn new(name: String, arr: NpArrayData) -> (r: Self)
        ensures
            r@ == (NpArrayView { name: name@, array: arr@, time_id: 0 }),
    {
        NpArrayD { unique_name: name, array_data: arr, time_id: 0 }
    }
}

} // verus!
