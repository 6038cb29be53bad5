//! Verified core of the trophy bot: name normalization, reward targeting,
//! settings resolution, pagination, leaderboard views, button custom ids and
//! the other pure decisions the Discord front end relies on.

pub mod text;
pub mod normalize;
pub mod rewards;
pub mod settings;
pub mod util;
pub mod deadlines;
pub mod panel_updater;
pub mod medals_panel;
pub mod reward_apply;
pub mod uuid_text;
pub mod buttons;
pub mod messages;
pub mod create;
pub mod edit;
pub mod images;
pub mod resolver;
pub mod commands;
pub mod framework;
pub mod guild_links;
pub mod i18n;
pub mod cli;
pub mod render;
