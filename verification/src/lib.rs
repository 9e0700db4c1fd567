//! Decision logic of a transceiver daemon: port mapping, module identity and
//! status tracking, diagnostic publishing and the CMIS datapath bring-up.

pub mod clock;
pub mod clock_laws;
pub mod cmis;
pub mod daemon;
pub mod daemon_laws;
pub mod db;
pub mod dom;
pub mod error;
pub mod hal;
pub mod ord_map;
pub mod text;
pub mod text_laws;
pub mod value;
pub mod wiring_laws;
pub mod xcvrd;
pub mod xcvrd_utilities;
