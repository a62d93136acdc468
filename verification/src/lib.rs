//! Verified core of the MFL pipeline-inspection tool: defect severities,
//! raw frame decoding, file chunk planning, progress throttling,
//! corrosion-cluster discovery and report layout.

pub mod alert;
pub mod cluster;
pub mod frames;
pub mod grid;
pub mod legend;
pub mod map_layout;
pub mod noise;
pub mod progress;
pub mod scan;
pub mod severity;
pub mod stats;
