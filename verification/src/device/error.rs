//! Why opening or querying a device failed.

use vstd::prelude::*;
use vstd::string::StringExecFns;

use crate::geometry::{captured_backtrace_text, capture_backtrace};
use crate::ports::io_error_text;

verus! {

/// What went wrong, with the I/O layer's error where there is one.
#[derive(Debug)]
enum DeviceErrorKind {
    Open(std::io::Error),
    NotBlockDevice,
    Geometry(std::io::Error),
    Unsupported,
}

/// Which kind of device failure an error is.
#[derive(Clone, Copy, Debug, PartialEq, Eq, Structural)]
pub enum DeviceFault {
    /// The path could not be opened read-only.
    Open,
    /// The path exists but is not a block device.
    NotBlockDevice,
    /// The device's geometry could not be queried.
    Geometry,
    /// No native device layer exists for this platform.
    Unsupported,
}

/// The fixed text that follows the path in a device error: the whole of it
/// for the kinds that carry no I/O error, the part before the I/O layer's
/// own words for the others.
pub open spec fn device_fault_text(fault: DeviceFault) -> Seq<char> {
    match fault {
        DeviceFault::Open => "cannot open read-only: "@,
        DeviceFault::NotBlockDevice => "not a block device (raw images go through ImageSource)"@,
        DeviceFault::Geometry => "cannot query geometry: "@,
        DeviceFault::Unsupported => "no native device HAL for this platform yet"@,
    }
}

/// The start of a device error's message.
pub open spec fn device_message_head(path: Seq<char>, fault: DeviceFault) -> Seq<char> {
    "device "@ + path + ": "@ + device_fault_text(fault)
}

/// Opening or querying the device at a path failed.
#[derive(Debug)]
pub struct DeviceError {
    path: String,
    kind: DeviceErrorKind,
    backtrace: std::backtrace::Backtrace,
}

impl DeviceError {
    /// The path the failure concerns.
    pub closed spec fn location(&self) -> Seq<char> {
        self.path@
    }

    /// Which kind of failure it is.
    pub closed spec fn fault(&self) -> DeviceFault {
        match self.kind {
            DeviceErrorKind::Open(_) => DeviceFault::Open,
            DeviceErrorKind::NotBlockDevice => DeviceFault::NotBlockDevice,
            DeviceErrorKind::Geometry(_) => DeviceFault::Geometry,
            DeviceErrorKind::Unsupported => DeviceFault::Unsupported,
        }
    }

    fn with_kind(path: &str, kind: DeviceErrorKind) -> (r: Self)
        ensures
            r.location() == path@,
            r.kind == kind,
    {
        DeviceError { path: String::from_str(path), kind, backtrace: capture_backtrace() }
    }

    /// `path` could not be opened read-only.
    pub fn open(path: &str, source: std::io::Error) -> (r: Self)
        ensures
            r.location() == path@,
            r.fault() == DeviceFault::Open,
    {
        Self::with_kind(path, DeviceErrorKind::Open(source))
    }

    /// `path` exists but is not a block device.
    pub fn not_block_device(path: &str) -> (r: Self)
        ensures
            r.location() == path@,
            r.fault() == DeviceFault::NotBlockDevice,
    {
        Self::with_kind(path, DeviceErrorKind::NotBlockDevice)
    }

    /// The geometry of `path` could not be queried.
    pub fn geometry(path: &str, source: std::io::Error) -> (r: Self)
        ensures
            r.location() == path@,
            r.fault() == DeviceFault::Geometry,
    {
        Self::with_kind(path, DeviceErrorKind::Geometry(source))
    }

    /// This platform has no native device layer.
    pub fn unsupported(path: &str) -> (r: Self)
        ensures
            r.location() == path@,
            r.fault() == DeviceFault::Unsupported,
    {
        Self::with_kind(path, DeviceErrorKind::Unsupported)
    }

    /// The path of the device the failure concerns.
    pub fn path(&self) -> (r: &str)
        ensures
            r@ == self.location(),
    {
        self.path.as_str()
    }

    /// Whether the path exists but is not a block device.
    pub fn is_not_block_device(&self) -> (r: bool)
        ensures
            r == (self.fault() == DeviceFault::NotBlockDevice),
    {
        match self.kind {
            DeviceErrorKind::NotBlockDevice => true,
            _ => false,
        }
    }

    /// The backtrace this error holds, captured when it was made.
    pub closed spec fn trace(&self) -> std::backtrace::Backtrace {
        self.backtrace
    }

    /// The backtrace captured where the failure was detected.
    pub fn backtrace(&self) -> (r: &std::backtrace::Backtrace)
        ensures
            *r == self.trace(),
    {
        &self.backtrace
    }

    /// What went wrong, in words: [`device_message_head`], then the I/O
    /// layer's text where there is one, then the backtrace on a line of its
    /// own when one was captured. The head is stated; the I/O text and the
    /// backtrace are not.
    pub fn message(&self) -> (r: String)
        ensures
            device_message_head(self.location(), self.fault()).len() <= r@.len(),
            r@.subrange(0, device_message_head(self.location(), self.fault()).len() as int)
                == device_message_head(self.location(), self.fault()),
    {
        let mut s = String::from_str("device ");
        s.append(self.path.as_str());
        s.append(": ");
        match &self.kind {
            DeviceErrorKind::Open(_) => s.append("cannot open read-only: "),
            DeviceErrorKind::NotBlockDevice => s.append("not a block device (raw images go through ImageSource)"),
            DeviceErrorKind::Geometry(_) => s.append("cannot query geometry: "),
            DeviceErrorKind::Unsupported => s.append("no native device HAL for this platform yet"),
        }
        let ghost head = s@;
        assert(head =~= device_message_head(self.location(), self.fault()));
        match &self.kind {
            DeviceErrorKind::Open(source) => {
                let t = io_error_text(source);
                s.append(t.as_str());
            },
            DeviceErrorKind::Geometry(source) => {
                let t = io_error_text(source);
                s.append(t.as_str());
            },
            _ => {},
        }
        match captured_backtrace_text(&self.backtrace) {
            Some(text) => {
                s.append("\n");
                s.append(text.as_str());
            },
            None => {},
        }
        assert(s@.subrange(0, head.len() as int) =~= head);
        s
    }
}

} // verus!
