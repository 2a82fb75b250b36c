//! Lobby, matchmaking and relay rules of a netplay server.

pub mod address;
pub mod auth;
pub mod automatch;
pub mod challenges;
pub mod chat_filter;
pub mod chat_hits;
pub mod config;
pub mod discord_auth;
pub mod environment;
pub mod fan_out;
pub mod find;
pub mod geo;
pub mod geo_file;
pub mod identity;
pub mod input_relay;
pub mod ip_country;
pub mod json;
pub mod labels;
pub mod metrics;
pub mod moderation;
pub mod names;
pub mod outside;
pub mod players;
pub mod public_ip;
pub mod room_rules;
pub mod rooms;
pub mod routes;
pub mod secrets;
pub mod series;
pub mod signal;
pub mod spelling;
pub mod state;
pub mod tally;
pub mod text;
pub mod turn_credentials;
pub mod udp_pktinfo;
pub mod ws_lobby;

pub use state::AppState;
