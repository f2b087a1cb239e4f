//! Which platform backend an application runs on.

use vstd::prelude::*;

verus! {

/// The operating system that a program is built for.
#[derive(Clone, Copy, Debug, PartialEq, Eq, Structural)]
pub enum TargetOs {
    Linux,
    FreeBsd,
    MacOs,
    Windows,
    /// Any other.
    Other,
}

/// A platform backend.
#[derive(Clone, Copy, Debug, PartialEq, Eq, Structural)]
pub enum Backend {
    /// Wayland and X11.
    Linux,
    MacOs,
    Windows,
}

/// The backends that a build carries.
#[derive(Clone, Copy, Debug, PartialEq, Eq, Structural)]
pub struct Backends {
    pub linux: bool,
    pub macos: bool,
    pub windows: bool,
}

/// A backend, and whether it goes without a display.
#[derive(Clone, Copy, Debug, PartialEq, Eq, Structural)]
pub struct PlatformChoice {
    pub backend: Backend,
    pub headless: bool,
}

/// A renderer that needs no display.
#[derive(Clone, Copy, Debug, PartialEq, Eq, Structural)]
pub enum HeadlessRenderer {
    Metal,
}

impl Backends {
    /// What there is so far: the Linux backend alone.
    pub fn available() -> (r: Self)
        ensures
            r == (Backends { linux: true, macos: false, windows: false }),
    {
        Backends { linux: true, macos: false, windows: false }
    }

    /// The backend for an operating system, if the build carries one.
    pub open spec fn backend_for(self, os: TargetOs) -> Option<Backend> {
        match os {
            TargetOs::Linux if self.linux => Some(Backend::Linux),
            TargetOs::FreeBsd if self.linux => Some(Backend::Linux),
            TargetOs::MacOs if self.macos => Some(Backend::MacOs),
            TargetOs::Windows if self.windows => Some(Backend::Windows),
            _ => None,
        }
    }

    pub open spec fn platform_for(self, os: TargetOs, headless: bool) -> Option<PlatformChoice> {
        match self.backend_for(os) {
            Some(backend) => Some(PlatformChoice { backend, headless }),
            None => None,
        }
    }
}

/// The default platform for an operating system; none, where the build carries no backend for it.
pub fn current_platform(os: TargetOs, backends: Backends, headless: bool) -> (r: Option<
    PlatformChoice,
>)
    ensures
        r == backends.platform_for(os, headless),
{
    let (carried, backend) = match os {
        TargetOs::Linux => (backends.linux, Backend::Linux),
        TargetOs::FreeBsd => (backends.linux, Backend::Linux),
        TargetOs::MacOs => (backends.macos, Backend::MacOs),
        TargetOs::Windows => (backends.windows, Backend::Windows),
        TargetOs::Other => (false, Backend::Linux),
    };
    if carried {
        Some(PlatformChoice { backend, headless })
    } else {
        None
    }
}

/// The platform whose background executor is used: one without a display.
pub fn background_executor(os: TargetOs, backends: Backends) -> (r: Option<PlatformChoice>)
    ensures
        r == backends.platform_for(os, true),
{
    current_platform(os, backends, true)
}

/// The platform for an application with windows.
pub fn application(os: TargetOs, backends: Backends) -> (r: Option<PlatformChoice>)
    ensures
        r == backends.platform_for(os, false),
{
    current_platform(os, backends, false)
}

/// The platform for an application without windows.
pub fn headless(os: TargetOs, backends: Backends) -> (r: Option<PlatformChoice>)
    ensures
        r == backends.platform_for(os, true),
{
    current_platform(os, backends, true)
}

/// The headless renderer for an operating system, if the build carries one.
pub fn current_headless_renderer(os: TargetOs, backends: Backends) -> (r: Option<HeadlessRenderer>)
    ensures
        r == if backends.backend_for(os) == Some(Backend::MacOs) {
            Some(HeadlessRenderer::Metal)
        } else {
            None
        },
{
    match os {
        TargetOs::MacOs if backends.macos => Some(HeadlessRenderer::Metal),
        _ => None,
    }
}

} // verus!
