//! A multi-series bar-chart renderer over a grid of character cells.
//!
//! Values are scaled to eighths of a cell and painted with a nine-level
//! glyph set, with value labels above the base row and category labels
//! on the bottom row.

mod block;
mod buffer;
mod chart;
mod format;
mod geometry;
mod scale;
mod style;
mod symbols;
mod width;

pub use block::Block;
pub use block::border_glyph;
pub use block::on_border;
pub use block::spec_draw_border;
pub use buffer::Buffer;
pub use buffer::Cell;
pub use buffer::coord_x;
pub use buffer::coord_y;
pub use buffer::index_of;
pub use buffer::spec_set_style_region;
pub use buffer::spec_write_str;
pub use buffer::mk_cell;
pub use buffer::spec_blank_cell;
pub use buffer::write_count;
pub use chart::BarChart2;
pub use chart::BarLayout;
pub use chart::apply_cat_label;
pub use chart::area_limit;
pub use chart::apply_value_label;
pub use chart::bar_cell_at;
pub use chart::bar_covers;
pub use chart::bar_group_of;
pub use chart::bar_row_of;
pub use chart::bar_series_of;
pub use chart::bar_x_of;
pub use chart::cat_label_x;
pub use chart::cat_label_y;
pub use chart::cat_limit;
pub use chart::height_at;
pub use chart::label_center;
pub use chart::label_start_in_area;
pub use chart::lay_pgw;
pub use chart::lay_wf;
pub use chart::lemma_bar_rows;
pub use chart::lemma_zero_value_no_label;
pub use chart::spec_bar_level;
pub use chart::spec_bars_upto;
pub use chart::spec_cat_labels;
pub use chart::spec_cat_labels_from;
pub use chart::spec_paint_bars;
pub use chart::spec_value_labels;
pub use chart::spec_value_labels_groups;
pub use chart::spec_value_labels_series;
pub use chart::value_label_touches;
pub use chart::value_label_x;
pub use chart::value_label_y;
pub use format::ValueFormat;
pub use format::format_value;
pub use format::spec_decimal;
pub use format::spec_format;
pub use geometry::Rect;
pub use geometry::Size;
pub use scale::data_max;
pub use scale::height_eighths;
pub use scale::lemma_height_extremes;
pub use scale::lemma_height_monotonic;
pub use scale::lemma_visible_groups_monotonic;
pub use scale::spec_data_max;
pub use scale::spec_height_eighths;
pub use scale::spec_per_group_width;
pub use scale::spec_visible_groups;
pub use scale::visible_group_count;
pub use style::Style;
pub use style::default_style;
pub use style::style_at;
pub use style::style_or_default;
pub use symbols::BarSet;
pub use symbols::nine_levels;
pub use symbols::spec_nine_levels;
pub use width::display_width;
