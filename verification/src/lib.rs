pub mod text;
pub mod otp;
pub mod toolchain;
pub mod exports;
pub mod compile;
pub mod clean;
pub mod files;
pub mod manifest;
pub mod styles;
