//! Verified core of the Mindurka chat bridge bot: the report parser, the
//! routing decisions between Discord and the message queue, the configuration
//! model and the database connection procedure.

pub mod text;
pub mod assoc;
pub mod decimal;
pub mod events;
pub mod config;
pub mod discord_config;
pub mod report_parser;
pub mod reports;
pub mod bridge;
pub mod surreal;
