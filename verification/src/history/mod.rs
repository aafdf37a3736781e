//! Line history

mod circ_index;
mod circ_range;
mod circ_slice;
mod history;
mod history_nav;
mod no_history;
mod slice_history;
mod unbounded;
mod window;

pub use circ_index::CircularIndex;
pub use history::{get_history_entries, History};
pub use history_nav::HistoryNavigator;
pub use no_history::NoHistory;
pub use slice_history::{
    circular_content, first_zero, from_first_zero, is_added, last_bytes, lemma_added_line_is_newest,
    lemma_first_zero_bounds, pieces, range_bytes, slot, written, SliceHistory,
};
pub use unbounded::UnboundedHistory;
pub use circ_slice::{run_bytes, CircularSlice};
pub use circ_range::{circular_runs, lemma_circular_runs_len, run_len, CircularRange};
pub use window::Window;
