//! Verified core logic of the SexOS userland: the sexstore key-value table and its
//! durable page format, the sexnet protocol helpers, the silk-shell manifest
//! contract, signal delivery, the UCGM view pipeline and the debugging tools.
pub mod text;
pub mod crc;
pub mod le_bytes;
pub mod kvstore;
pub mod kvlaws;
pub mod durable;
pub mod durable_laws;
pub mod sexstore;
pub mod silkshell;
pub mod frames;
pub mod frames_laws;
pub mod signals;
pub mod netproto;
pub mod sexnet;
pub mod dns;
pub mod sexnet_laws;
pub mod sexshop;
pub mod ucgm;
pub mod ucgm_laws;
pub mod linen;
pub mod desktop;
pub mod nvme;
pub mod xhci;
pub mod ion;
pub mod runtime;
pub mod libsys;
pub mod debug;
pub mod forge;
pub mod sexbuild;
pub mod deps;
pub mod silkbar;
pub mod services;
pub mod gui;
