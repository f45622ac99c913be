//! Runway forecasting core: money, calendar arithmetic, the no-work runway
//! simulation, and statement-import parsing rules.

pub mod text;
pub mod calendar;
pub mod money;
pub mod order;
pub mod forecast;
pub mod runway_laws;
pub mod profile;
pub mod amount;
pub mod headers;
pub mod statement;
pub mod formats;
pub mod decode;
pub mod rows;
pub mod raw_rows;
pub mod import;
pub mod ledger;
pub mod rule_rows;
pub mod entry;
pub mod presentation;
pub mod messages;
