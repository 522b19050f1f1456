//! Argos: recovery of deleted JPEG and PNG images from raw media.
//!
//! The library holds the sans-IO core: storage geometry newtypes, the ports
//! through which media are read and results delivered, the JPEG and PNG
//! structure parsers and validators, and the device-naming, mount-table and
//! acquisition-accounting rules of the device layer.

pub mod buffer;
pub mod carving;
pub mod confidence;
pub mod device;
pub mod error;
pub mod fixture;
pub mod geometry;
pub mod jpeg;
pub mod matching;
pub mod png;
pub mod ports;
pub mod recovery;
pub mod scanners;
pub mod statistics;
pub mod text;
pub mod types;
pub mod validation;
