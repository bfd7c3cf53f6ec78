//! The desktop side: what the taps, backends and watchers decide.

pub mod ax;
pub mod display;
pub mod display_watch;
pub mod effector;
pub mod emulated_backend;
pub mod gesture;
pub mod mission_control;
pub mod monitor_map;
pub mod native_backend;
pub mod observer;
pub mod rescue_gather;
pub mod restack_worker;
pub mod skylight;
pub mod status_item;
pub mod tap;
pub mod world;
pub mod ws_events;
pub mod zorder;
