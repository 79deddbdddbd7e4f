//! iCalendar VTODO reading and writing (RFC 5545).
pub mod line;
pub mod read;
pub mod round;
pub mod text;
pub mod value;
pub mod write;

pub use line::{find_colon_outside_quotes, parse_property_line, split_params};
pub use read::from_icalendar_string;
pub use text::{escape_text, fold_line, split_on_unescaped_commas, unescape_text, unfold_lines};
pub use value::{format_datetime, is_date_only_value, parse_datetime_with_params};
pub use write::{to_icalendar_string, to_icalendar_string_at};
