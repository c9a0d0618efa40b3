//! The display chain of a Linux machine as sysfs describes it: EDID decoding,
//! DRM connector and GPU descriptions, and the layout of the report.

pub mod app;
pub mod dp_info;
pub mod drm_info;
pub mod edid;
pub mod gpu;
pub mod path;
pub mod report;
pub mod text;
