//! Loading of mobile-phone specification rows: free-text fields are
//! normalized into a typed record, and exact duplicates are dropped.

mod load;
mod normalize;
mod record;
mod report;
mod text;

pub use load::{
    insert_if_new, lemma_distinct_rows_both_kept, lemma_load_keeps_every_row,
    lemma_load_no_duplicates, lemma_repeated_row_loads_once, load_lines, LoadError, FIELD_COUNT,
};
pub use normalize::{
    decimal_from_capture, extract_display_size, extract_os, extract_weight, extract_year,
    normalize_sim_info, normalize_text, year_from_capture,
};
pub use record::{lemma_presence_distinguishes, same_opt_text, Cell, CellView};
pub use report::{
    announced_and_released_diff_year, most_launched_year, single_feature_sensors, YearMismatch,
    LAUNCH_YEAR_FLOOR,
};
pub use text::{same_text, split_fields};
