//! The core of a text editor: the screens the layout fills, the lines they
//! are made of, marks moving in a document, and the code point codec.

use std::cmp::Ordering;

use vstd::prelude::*;
use vstd::std_specs::cmp::PartialOrdSpec;

pub mod cell_grid;
pub mod codepointinfo;
pub mod screen;
pub mod codec;
pub mod buffer;
pub mod mark;
pub mod view;
pub mod text_mode;
pub mod config;
pub mod modes;

verus! {

/// Orders the two members of a pair: swapped when the first is greater than
/// the second, unchanged otherwise.
pub fn sort_tuple_pair<T: PartialOrd>(t: (T, T)) -> (r: (T, T))
    ensures
        r == t || r == (t.1, t.0),
        T::obeys_partial_cmp_spec() ==> r == if t.0.partial_cmp_spec(&t.1) == Some(
            Ordering::Greater,
        ) {
            (t.1, t.0)
        } else {
            t
        },
{
    if t.0 > t.1 {
        (t.1, t.0)
    } else {
        t
    }
}

} // verus!
