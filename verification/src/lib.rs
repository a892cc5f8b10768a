//! The Ricoh 2A03 at the level of its measured tables: the APU's
//! channels and frame sequencer, the DMA stalls the chip imposes on its
//! core, the memory service of the bus harness, and the classifier that
//! compares two pin streams frame by frame.

pub mod tables;
pub mod fit;
pub mod apu;
pub mod lockstep;
pub mod rung;
pub mod harness;
pub mod pins;
