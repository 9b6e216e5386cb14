//! The editor of the physics simulation environment: its panels' state and
//! the logic behind them.
pub mod editor;
pub mod scripting;
pub mod project_browser;
pub mod game_view;
pub mod search;
