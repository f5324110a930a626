//! Watches a Sol-Ark inverter: decodes what its registers hold, prepares the
//! points that go to InfluxDB, and decides which alerts are sent to Matrix.

pub mod clock;
pub mod text_map;
pub mod text;
pub mod solark;
pub mod influx;
pub mod delivery;
pub mod matrix;
pub mod room_laws;
pub mod condition;
pub mod alerting;
pub mod alert_laws;
pub mod monitor;
