//! Verified core of a K210 camera web server.

pub mod bmp;
pub mod bytes;
pub mod capture;
pub mod clock;
pub mod creds;
pub mod dmac;
pub mod dvp;
pub mod gpio;
pub mod http;
pub mod image;
pub mod jpeg;
pub mod nina;
pub mod pipe;
pub mod pixel;
pub mod query;
pub mod rtc;
pub mod server;
pub mod text;
pub mod uart_wifi;
