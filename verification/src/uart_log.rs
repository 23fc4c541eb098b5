//! Logger that writes formatted lines to a UART.
use vstd::prelude::*;

verus! {

/// A logger owning the UART it writes to.
pub struct UartLogger<U> {
    uart: U,
}

impl<U> UartLogger<U> {
    /// The UART the logger writes to.
    pub closed spec fn port(&self) -> U {
        self.uart
    }

    pub fn new(uart: U) -> (l: Self)
        ensures
            l.port() == uart,
    {
        Self { uart }
    }
}

} // verus!
