//! System utilities: the decision and text logic behind audio, power, theme,
//! media, metrics, device and monitor helpers, with contracts checked by Verus.
pub mod error;
pub mod text;
pub mod theme;
pub mod monitor;
pub mod power;
pub mod sort;
pub mod devices;
pub mod fixed;
pub mod metrics;
pub mod info;
pub mod tool;
pub mod audio;
pub mod media;

pub use audio::AudioControl;
pub use devices::DevicesList;
pub use info::SystemInfo;
pub use media::{MediaControl, MediaMetadata};
pub use power::PowerManager;
