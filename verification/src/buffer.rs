//! A rectangular two dimensional buffer of cells, addressed by row then column.
use vstd::prelude::*;

verus! {

/// A `height` x `width` grid of cells; row `y` holds `width` cells.
pub struct Buffer<T> {
    width: usize,
    height: usize,
    data: Vec<Vec<T>>,
}

/// A row-major grid of `height` rows of `width` copies of `value`.
pub open spec fn filled_grid<T>(value: T, width: nat, height: nat) -> Seq<Seq<T>> {
    Seq::new(height, |y: int| Seq::new(width, |x: int| value))
}

/// `g` has `height` rows, each of `width` cells.
pub open spec fn grid_has_shape<T>(g: Seq<Seq<T>>, width: nat, height: nat) -> bool {
    &&& g.len() == height
    &&& forall|y: int| 0 <= y < height ==> #[trigger] g[y].len() == width
}

/// `g` with the cell at row `y`, column `x` replaced by `v`.
pub open spec fn grid_update<T>(g: Seq<Seq<T>>, y: int, x: int, v: T) -> Seq<Seq<T>> {
    g.update(y, g[y].update(x, v))
}

impl<T> View for Buffer<T> {
    type V = Seq<Seq<T>>;

    closed spec fn view(&self) -> Seq<Seq<T>> {
        self.data@.map_values(|row: Vec<T>| row@)
    }
}

impl<T> Buffer<T> {
    /// The number of cells in each row.
    pub closed spec fn spec_width(&self) -> usize {
        self.width
    }

    /// The number of rows.
    pub closed spec fn spec_height(&self) -> usize {
        self.height
    }

    /// The buffer's cells have the shape that its width and height announce.
    pub open spec fn wf(&self) -> bool {
        grid_has_shape(self@, self.width() as nat, self.height() as nat)
    }

    /// The number of cells in each row.
    #[verifier::when_used_as_spec(spec_width)]
    pub fn width(&self) -> (w: usize)
        ensures
            w == self.spec_width(),
    {
        self.width
    }

    /// The number of rows.
    #[verifier::when_used_as_spec(spec_height)]
    pub fn height(&self) -> (h: usize)
        ensures
            h == self.spec_height(),
    {
        self.height
    }

    /// A `width` x `height` buffer whose every cell holds `default_value`.
    pub fn new(default_value: T, width: usize, height: usize) -> (buffer: Self) where T: Copy
        ensures
            buffer.wf(),
            buffer.width() == width,
            buffer.height() == height,
            buffer@ == filled_grid(default_value, width as nat, height as nat),
    {
        let mut data: Vec<Vec<T>> = Vec::new();
        let mut y: usize = 0;
        while y < height
            invariant
                y <= height,
                data@.len() == y,
                forall|j: int| 0 <= j < y ==> (#[trigger] data@[j])@ == Seq::new(width as nat, |x: int| default_value),
            decreases height - y,
        {
            let mut row: Vec<T> = Vec::new();
            let mut x: usize = 0;
            while x < width
                invariant
                    x <= width,
                    row@ == Seq::new(x as nat, |i: int| default_value),
                decreases width - x,
            {
                row.push(default_value);
                x = x + 1;
                assert(row@ =~= Seq::new(x as nat, |i: int| default_value));
            }
            data.push(row);
            y = y + 1;
        }
        let buffer = Buffer { width, height, data };
        assert(buffer@ =~= filled_grid(default_value, width as nat, height as nat));
        buffer
    }

    /// The cell at row `y`, column `x`.
    pub fn get(&self, y: usize, x: usize) -> (cell: T) where T: Copy
        requires
            self.wf(),
            y < self.height(),
            x < self.width(),
        ensures
            cell == self@[y as int][x as int],
    {
        assert(self@[y as int] == self.data@[y as int]@);
        self.data[y][x]
    }

    /// Row `y` as a slice of `width` cells.
    pub fn row(&self, y: usize) -> (row: &[T])
        requires
            self.wf(),
            y < self.height(),
        ensures
            row@ == self@[y as int],
    {
        assert(self@[y as int] == self.data@[y as int]@);
        self.data[y].as_slice()
    }

    /// Overwrites the cell at row `y`, column `x` with `value`.
    pub fn set(&mut self, y: usize, x: usize, value: T)
        requires
            old(self).wf(),
            y < old(self).height(),
            x < old(self).width(),
        ensures
            final(self).wf(),
            final(self).width() == old(self).width(),
            final(self).height() == old(self).height(),
            final(self)@ == grid_update(old(self)@, y as int, x as int, value),
    {
        assert(self@[y as int] == self.data@[y as int]@);
        self.data[y][x] = value;
        assert(self@ =~= grid_update(old(self)@, y as int, x as int, value));
    }
}


impl<T> core::ops::Index<usize> for Buffer<T> {
    type Output = [T];

    /// Row `index`.
    fn index(&self, index: usize) -> (row: &[T])
        ensures
            row@ == self@[index as int],
    {
        assert(self@[index as int] == self.data@[index as int]@);
        self.data[index].as_slice()
    }
}

impl<T> vstd::std_specs::core::IndexSpecImpl<usize> for Buffer<T> {
    open spec fn index_req(&self, index: &usize) -> bool {
        *index < self@.len()
    }
}

} // verus!
