//! Ethernet MAC driver core for the EFM32GG11: DMA buffer descriptors and
//! their rings, the receive and transmit window finders, the frame
//! gather/scatter tokens, interrupt decoding and the MDIO management bus.
use vstd::prelude::*;

pub mod dma;
pub mod ksz8091;
pub mod mac;
pub mod phy;

verus! {

} // verus!
