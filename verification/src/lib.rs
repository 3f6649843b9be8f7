//! A streaming tabular renderer.
//!
//! Cells arrive one at a time as pre-formatted strings and are printed as
//! fixed-width table blocks framed by box-drawing separators.  When the
//! requested columns do not fit into the line width, the planner partitions
//! them into contiguous groups that are rendered as stacked blocks of equal
//! display width.

pub mod labels;
pub mod live_table;
pub mod planner;
pub mod render;
pub mod separator;
pub mod sink;
pub mod streaming_table;

pub use labels::LabelMeta;
pub use labels::Labels;
pub use live_table::LiveTable;
pub use planner::compute_column_widths;
pub use planner::group_width;
pub use streaming_table::StreamingTable;
