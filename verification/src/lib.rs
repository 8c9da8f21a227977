use vstd::prelude::*;

pub mod combine;
pub mod fragments;
pub mod join;
pub mod laws;
pub mod layout;
pub mod lines;
mod plan;
pub mod width;

pub use combine::CatToCol;
pub use fragments::Fragments;
pub use join::{by_four_lines, by_lines, by_n_lines, by_pairs, by_three_lines, cat_to_col};
pub use width::{max_line_len, max_line_len_no_esc, measure, MeasureError};
