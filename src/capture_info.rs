//! What a capture file says about the device it was made on.
use vstd::prelude::*;

use core::time::Duration;
use vstd::string::StringExecFns;

verus! {

/// The device, system and tool that made a capture, and the offset from boot
/// time to wall-clock time.
#[derive(Debug)]
pub struct CaptureInfo {
    pub model: String,
    pub os: String,
    pub fingerprint: String,
    pub kernel_version: String,
    pub capture_app: String,
    pub timeshift: Duration,
}

/// The operating-system name recorded for an Android release.
pub fn android_os_name(version: &str) -> (r: String)
    ensures
        r@ == "Android "@ + version@,
{
    String::from_str("Android ").concat(version)
}

impl CaptureInfo {
    /// Assembles the record from what the system reported.
    pub fn from_parts(
        model: String,
        android_version: &str,
        fingerprint: String,
        kernel_version: String,
        capture_app: String,
        timeshift: Duration,
    ) -> (r: Self)
        ensures
            r.model == model,
            r.os@ == "Android "@ + android_version@,
            r.fingerprint == fingerprint,
            r.kernel_version == kernel_version,
            r.capture_app == capture_app,
            r.timeshift == timeshift,
    {
        let os = android_os_name(android_version);
        CaptureInfo { model, os, fingerprint, kernel_version, capture_app, timeshift }
    }

    pub fn get_model(&self) -> (r: &str)
        ensures
            r@ == self.model@,
    {
        self.model.as_str()
    }

    pub fn get_os(&self) -> (r: &str)
        ensures
            r@ == self.os@,
    {
        self.os.as_str()
    }

    pub fn get_fingerprint(&self) -> (r: &str)
        ensures
            r@ == self.fingerprint@,
    {
        self.fingerprint.as_str()
    }

    pub fn get_kernel_version(&self) -> (r: &str)
        ensures
            r@ == self.kernel_version@,
    {
        self.kernel_version.as_str()
    }

    pub fn get_capture_app(&self) -> (r: &str)
        ensures
            r@ == self.capture_app@,
    {
        self.capture_app.as_str()
    }

    pub fn get_timeshift(&self) -> (r: &Duration)
        ensures
            *r == self.timeshift,
    {
        &self.timeshift
    }
}

} // verus!
