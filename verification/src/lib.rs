//! Consensus-critical core of a toy blockDAG ledger.
//!
//! The DAG store owns every block record and decides, for each block appended,
//! whether it joins the accepted ("blue") set or the rejected ("red") set,
//! using a k-cluster anticone rule. It also maintains the frontier of
//! unconfirmed blocks (the tips) and a single selected-parent pointer that
//! approximates the canonical chain tip.

pub mod dag;
pub mod frontier;
pub mod insert;
pub mod laws;
pub mod reach;
