//! QR scanner support: the GM65 command protocol, the UART driver and the
//! scanned-payload classifier.
pub mod decoder;
pub mod driver;
pub mod protocol;
