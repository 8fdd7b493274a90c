use vstd::prelude::*;

use crate::camera::Camera;
use crate::scalar::Scalar;
use crate::transform::{identity_entry, in_matrix, Transform};

verus! {

/// Bit pattern of 32 mm, the default focal length.
pub const DEFAULT_FOCAL_LENGTH_BITS: u64 = 0x3FA0_624D_D2F1_A9FC;

/// Bit pattern of 50 mm, the default sensor width and height.
pub const DEFAULT_SENSOR_SIZE_BITS: u64 = 0x3FA9_9999_9999_999A;

/// Whether `cam` is the camera the panel starts with: at the origin with the
/// identity rotation, a 32 mm focal length, a 50 mm by 50 mm sensor and 1200
/// by 800 pixels.
pub open spec fn is_default_camera(cam: Camera) -> bool {
    &&& forall|r: int, c: int| in_matrix(r, c) ==> #[trigger] cam.pose.entry(r, c) == identity_entry(r, c)
    &&& cam.focal_length.bits == DEFAULT_FOCAL_LENGTH_BITS
    &&& cam.sensor_width.bits == DEFAULT_SENSOR_SIZE_BITS
    &&& cam.sensor_height.bits == DEFAULT_SENSOR_SIZE_BITS
    &&& cam.width_resolution == 1200
    &&& cam.height_resolution == 800
}

/// What the camera panel reports: a new value for one camera setting.
#[derive(Debug, Clone, Copy, PartialEq, Eq, Structural)]
pub enum CameraConfigMessage {
    FocalLengthChanged(Scalar),
    SensorWidthChanged(Scalar),
    SensorHeightChanged(Scalar),
    ResolutionWidthChanged(u32),
    ResolutionHeightChanged(u32),
}

/// The camera a message leaves: the one setting it names takes the new
/// value, every other setting is kept.
pub open spec fn configured(cam: Camera, message: CameraConfigMessage) -> Camera {
    match message {
        CameraConfigMessage::FocalLengthChanged(f) => Camera { focal_length: f, ..cam },
        CameraConfigMessage::SensorWidthChanged(w) => Camera { sensor_width: w, ..cam },
        CameraConfigMessage::SensorHeightChanged(h) => Camera { sensor_height: h, ..cam },
        CameraConfigMessage::ResolutionWidthChanged(w) => Camera { width_resolution: w, ..cam },
        CameraConfigMessage::ResolutionHeightChanged(h) => Camera { height_resolution: h, ..cam },
    }
}


/// Whether two messages change the same camera setting.
pub open spec fn same_setting(a: CameraConfigMessage, b: CameraConfigMessage) -> bool {
    ||| a is FocalLengthChanged && b is FocalLengthChanged
    ||| a is SensorWidthChanged && b is SensorWidthChanged
    ||| a is SensorHeightChanged && b is SensorHeightChanged
    ||| a is ResolutionWidthChanged && b is ResolutionWidthChanged
    ||| a is ResolutionHeightChanged && b is ResolutionHeightChanged
}

/// Of two changes to the same setting, the later one decides it.
pub proof fn law_latest_change_wins(cam: Camera, first: CameraConfigMessage, second: CameraConfigMessage)
    requires
        same_setting(first, second),
    ensures
        configured(configured(cam, first), second) == configured(cam, second),
{
}

/// Changes to different settings can be applied in either order.
pub proof fn law_changes_commute(cam: Camera, a: CameraConfigMessage, b: CameraConfigMessage)
    requires
        !same_setting(a, b),
    ensures
        configured(configured(cam, a), b) == configured(configured(cam, b), a),
{
}


/// A message sets the one setting it names to the value it carries and keeps
/// every other part of the camera.
pub proof fn law_change_sets_named_setting(cam: Camera, message: CameraConfigMessage)
    ensures
        configured(cam, message).pose == cam.pose,
        configured(cam, message).focal_length == match message {
            CameraConfigMessage::FocalLengthChanged(f) => f,
            _ => cam.focal_length,
        },
        configured(cam, message).sensor_width == match message {
            CameraConfigMessage::SensorWidthChanged(w) => w,
            _ => cam.sensor_width,
        },
        configured(cam, message).sensor_height == match message {
            CameraConfigMessage::SensorHeightChanged(h) => h,
            _ => cam.sensor_height,
        },
        configured(cam, message).width_resolution == match message {
            CameraConfigMessage::ResolutionWidthChanged(w) => w,
            _ => cam.width_resolution,
        },
        configured(cam, message).height_resolution == match message {
            CameraConfigMessage::ResolutionHeightChanged(h) => h,
            _ => cam.height_resolution,
        },
{
}

/// The state of the camera panel: the camera it edits.
#[derive(Debug, Clone, Copy)]
pub struct CameraConfigWidget {
    pub cam: Camera,
}

impl CameraConfigWidget {
    /// Applies a message to the edited camera.
    pub fn update(&mut self, message: CameraConfigMessage)
        ensures
            final(self).cam == configured(old(self).cam, message),
    {
        match message {
            CameraConfigMessage::FocalLengthChanged(focal) => self.cam.focal_length = focal,
            CameraConfigMessage::SensorWidthChanged(width) => self.cam.sensor_width = width,
            CameraConfigMessage::SensorHeightChanged(height) => self.cam.sensor_height = height,
            CameraConfigMessage::ResolutionWidthChanged(width) => self.cam.width_resolution = width,
            CameraConfigMessage::ResolutionHeightChanged(height) => self.cam.height_resolution =
            height,
        }
    }
}

impl Default for CameraConfigWidget {
    /// The default camera (see `is_default_camera`).
    fn default() -> (w: CameraConfigWidget)
        ensures
            is_default_camera(w.cam),
    {
        CameraConfigWidget {
            cam: Camera {
                pose: Transform::new(),
                focal_length: Scalar { bits: DEFAULT_FOCAL_LENGTH_BITS },
                sensor_width: Scalar { bits: DEFAULT_SENSOR_SIZE_BITS },
                sensor_height: Scalar { bits: DEFAULT_SENSOR_SIZE_BITS },
                width_resolution: 1200,
                height_resolution: 800,
            },
        }
    }
}

} // verus!
