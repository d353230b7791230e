//! Library parts of the TOH daemon: TOH memory chip format, TOH info values, config handling and
//! the decisions around power, ID pin and interrupt pin handling, i2c-dev access loans and the
//! daemon's main loop.

pub mod attr;
pub mod errors;
pub mod text;
pub mod id;
pub mod paths;
pub mod interrupt;
pub mod power;
pub mod strmap;
pub mod value;
pub mod cbor;
pub mod yaml;
pub mod dbus_value;
pub mod frame;
pub mod info;
pub mod config;
pub mod bus;
pub mod back_cover;
pub mod loan;
pub mod daemon;
