//! Verified core logic of the audiocloud domain server, instrument drivers, media service
//! and REAPER audio engine.
//!
//! Domain server: `tasks` (task supervisor), `task` (task actor and sessions supervisor),
//! `sockets` and `web_sockets` (client sockets and their task logins), `security`.
//! Instrument drivers: `driver`, `dual_1084`, `netio`, `utils`.
//! Media service: `media_jobs`.
//! Audio engine: `audio_engine`, `project_spec`, `routing`, `chunk`, `control_surface`,
//! `guids`, `streaming`.
//! Shared: `ids`, `task_map`.

pub mod ids;
pub mod task_map;
pub mod security;
pub mod utils;
pub mod driver;
pub mod dual_1084;
pub mod netio;
pub mod tasks;
pub mod task;
pub mod sockets;
pub mod web_sockets;
pub mod media_jobs;
pub mod routing;
pub mod chunk;
pub mod audio_engine;
pub mod project_spec;
pub mod control_surface;
pub mod guids;
pub mod streaming;
