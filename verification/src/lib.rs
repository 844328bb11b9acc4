//! Per-frame image effects for a virtual camera: a colour lift, a rotating
//! circular "racoon" mask, a face zoom driven by detection boxes, and the
//! byte layout handed to the virtual camera device.
pub mod color;
pub mod frame;
pub mod detection;
pub mod rect;
pub mod effects;
pub mod disco;
pub mod state;
