pub mod caldav_adapter;
pub mod config;
pub mod error;
pub mod ical;
pub mod ir;
pub mod mapper;
pub mod output;
pub mod sync;
pub mod text;
pub mod types;
pub mod trusted;
pub mod tw_adapter;
