use vstd::prelude::*;

use crate::method::EncodingMethod;
use crate::projection::{projection_row, projection_row_spec};

verus! {

/// Encoder that converts sensor readings into perception vectors.
#[derive(Debug, Clone, Copy, PartialEq, Eq, Structural)]
pub struct PerceptionEncoder {
    pub input_dim: usize,
    pub output_dim: usize,
    pub method: EncodingMethod,
}

impl PerceptionEncoder {
    pub fn new(input_dim: usize, output_dim: usize, method: EncodingMethod) -> (e: Self)
        ensures
            e.input_dim == input_dim,
            e.output_dim == output_dim,
            e.method == method,
    {
        PerceptionEncoder { input_dim, output_dim, method }
    }

    /// Brings `v` to exactly `output_dim` entries: a longer vector is cut
    /// after its first `output_dim` entries, a shorter one is padded with
    /// copies of `fill`.
    pub fn resize<T: Clone>(&self, v: Vec<T>, fill: T) -> (r: Vec<T>)
        ensures
            r@.len() == self.output_dim,
            self.output_dim <= v@.len() ==> r@ == v@.subrange(0, self.output_dim as int),
            self.output_dim > v@.len() ==> r@.subrange(0, v@.len() as int) == v@,
            forall|i: int|
                v@.len() <= i < self.output_dim ==> cloned::<T>(fill, #[trigger] r@[i]),
    {
        let mut r = v;
        r.resize(self.output_dim, fill);
        r
    }

    /// The mixing table of this encoder's projection for an input of
    /// `input_len` values: row `i` holds the mixing values of input position
    /// `i` for every output position. `None` when the method does not project.
    pub fn projection_table(&self, input_len: usize) -> (t: Option<Vec<Vec<u64>>>)
        ensures
            t is None <==> self.method.seed_spec() is None,
            t matches Some(rows) ==> {
                &&& rows@.len() == input_len
                &&& forall|i: int|
                    0 <= i < input_len ==> #[trigger] rows@[i]@ == projection_row_spec(
                        self.method.seed_spec().unwrap(),
                        i as nat,
                        self.output_dim as nat,
                    )
            },
    {
        match self.method.projection_seed() {
            None => None,
            Some(seed) => {
                let mut rows: Vec<Vec<u64>> = Vec::new();
                let mut i: usize = 0;
                while i < input_len
                    invariant
                        i <= input_len,
                        self.method.seed_spec() == Some(seed@),
                        rows@.len() == i,
                        forall|q: int|
                            0 <= q < i ==> #[trigger] rows@[q]@ == projection_row_spec(
                                seed@,
                                q as nat,
                                self.output_dim as nat,
                            ),
                    decreases input_len - i,
                {
                    let row = projection_row(seed, i, self.output_dim);
                    rows.push(row);
                    i = i + 1;
                }
                Some(rows)
            },
        }
    }
}

} // verus!
