//! Device lists: the classification, merging and ordering of what the
//! hardware enumerations report, and the text that shows it.
pub mod audio;
pub mod groups;
pub mod render;
pub mod usb;

use vstd::prelude::*;
pub use self::audio::{AudioBackend, AudioConfigInfo, AudioDeviceInfo, AudioDeviceType, AudioEndpointReport};
pub use self::groups::{AudioDeviceGroup, AudioEndpoint};
pub use self::render::format_sample_rate;
pub use self::usb::{UsbDescriptor, UsbDeviceInfo, UsbDeviceType, UsbInterfaceDescriptor, UsbInterfaceType};
use self::audio::{audio_list, audio_list_spec};
use self::usb::{usb_list, usb_list_spec};

verus! {

/// A display.
#[derive(Debug, Clone)]
pub struct MonitorInfo {
    pub name: String,
    pub width: u32,
    pub height: u32,
    pub refresh_rate: Option<u32>,
    pub primary: bool,
    pub x: i32,
    pub y: i32,
}

/// What the display enumeration reports of one display.
#[derive(Debug, Clone)]
pub struct DisplayReport {
    pub name: String,
    pub width: u32,
    pub height: u32,
    pub is_primary: bool,
    pub x: i32,
    pub y: i32,
}

/// A camera.
#[derive(Debug, Clone)]
pub struct CameraInfo {
    pub name: String,
}

/// The devices snapshot.
#[derive(Debug, Clone)]
pub struct DevicesList {
    pub monitors: Vec<MonitorInfo>,
    pub audio: Vec<AudioDeviceInfo>,
    pub cameras: Vec<CameraInfo>,
    pub usb: Vec<UsbDeviceInfo>,
}

/// `m` lists the display `d`, of `count` displays: a lone display is the
/// primary one; the refresh rate is not known.
pub open spec fn monitor_of(d: DisplayReport, count: nat, m: MonitorInfo) -> bool {
    &&& m.name == d.name
    &&& m.width == d.width
    &&& m.height == d.height
    &&& m.refresh_rate == None::<u32>
    &&& m.primary == (if count == 1 { true } else { d.is_primary })
    &&& m.x == d.x
    &&& m.y == d.y
}

impl DevicesList {
    /// The monitors for the enumerated displays, in order.
    pub fn monitors_from(displays: Vec<DisplayReport>) -> (r: Vec<MonitorInfo>)
        ensures
            r@.len() == displays@.len(),
            forall|i: int|
                0 <= i < r@.len() ==> monitor_of(displays@[i], displays@.len(), #[trigger] r@[i]),
    {
        let count = displays.len();
        let mut r: Vec<MonitorInfo> = Vec::new();
        let mut i: usize = 0;
        while i < displays.len()
            invariant
                i <= displays@.len(),
                count == displays@.len(),
                r@.len() == i,
                forall|k: int| 0 <= k < i ==> monitor_of(displays@[k], count as nat, #[trigger] r@[k]),
            decreases displays@.len() - i,
        {
            let d = &displays[i];
            r.push(
                MonitorInfo {
                    name: d.name.clone(),
                    width: d.width,
                    height: d.height,
                    refresh_rate: None,
                    primary: if count == 1 {
                        true
                    } else {
                        d.is_primary
                    },
                    x: d.x,
                    y: d.y,
                },
            );
            i += 1;
        }
        r
    }

    /// The cameras for the enumerated camera names, in order.
    pub fn cameras_from(names: Vec<String>) -> (r: Vec<CameraInfo>)
        ensures
            r@.len() == names@.len(),
            forall|i: int| 0 <= i < r@.len() ==> #[trigger] r@[i].name == names@[i],
    {
        let mut r: Vec<CameraInfo> = Vec::new();
        let mut i: usize = 0;
        while i < names.len()
            invariant
                i <= names@.len(),
                r@.len() == i,
                forall|k: int| 0 <= k < i ==> #[trigger] r@[k].name == names@[k],
            decreases names@.len() - i,
        {
            r.push(CameraInfo { name: names[i].clone() });
            i += 1;
        }
        r
    }

    /// The snapshot for what the enumerations reported: monitors, the audio
    /// list, cameras and the USB list, each built from its report.
    pub fn from_reports(
        displays: Vec<DisplayReport>,
        audio_inputs: &Vec<AudioEndpointReport>,
        default_input: &Option<String>,
        audio_outputs: &Vec<AudioEndpointReport>,
        default_output: &Option<String>,
        camera_names: Vec<String>,
        usb_devices: Vec<UsbDescriptor>,
    ) -> (r: DevicesList)
        ensures
            r.monitors@.len() == displays@.len(),
            forall|i: int|
                0 <= i < r.monitors@.len() ==> monitor_of(
                    displays@[i],
                    displays@.len(),
                    #[trigger] r.monitors@[i],
                ),
            audio_list_spec(
                audio_inputs@,
                *default_input,
                audio_outputs@,
                *default_output,
                r.audio@,
            ),
            r.cameras@.len() == camera_names@.len(),
            forall|i: int| 0 <= i < r.cameras@.len() ==> #[trigger] r.cameras@[i].name == camera_names@[i],
            usb_list_spec(usb_devices@, r.usb@),
    {
        DevicesList {
            monitors: Self::monitors_from(displays),
            audio: audio_list(audio_inputs, default_input, audio_outputs, default_output),
            cameras: Self::cameras_from(camera_names),
            usb: usb_list(usb_devices),
        }
    }
}

} // verus!
