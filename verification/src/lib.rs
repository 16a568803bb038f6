pub mod card;
pub mod deck;
pub mod evaluator;
pub mod event;
pub mod player;
pub mod rules;
pub mod state;
pub mod laws;
pub mod progress;
pub mod ai;
pub mod text;
pub mod i18n;
pub mod net_messages;
pub mod app;
pub mod event_logger;
pub mod client;
pub mod local;
pub mod server;
pub mod screen;
