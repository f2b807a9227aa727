//! The bot's settings: the command line, the main configuration file and the
//! configuration shared with the other services.
use vstd::prelude::*;
use crate::discord_config::DiscordConfig;

verus! {

#[verifier::external_type_specification]
#[verifier::external_body]
pub struct ExPathBuf(std::path::PathBuf);

/// The command line of the bot.
pub struct AppArgs {
    /// The configuration file to read (`-c`, `--config`).
    pub config: Option<std::path::PathBuf>,
}

/// The main configuration.
pub struct Config {
    pub shared_config_path: std::path::PathBuf,
    pub discord: DiscordConfig,
    /// The services (game servers) whose queues the bot joins.
    pub services: Vec<String>,
}

/// What the logic reads of a URL: its text and the parts that `url::Url`
/// finds in it.
pub struct UrlParts {
    pub serialization: String,
    pub host: Option<String>,
    pub port: Option<u16>,
    pub username: String,
    pub password: Option<String>,
    pub path_segments: Option<Vec<String>>,
}

/// The configuration shared by all services.
pub struct SharedConfig {
    pub rabbit_mq_url: UrlParts,
    pub surreal_db_url: UrlParts,
}

} // verus!
