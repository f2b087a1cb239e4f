//! Which backend goes with which operating system.

use crate::platform::{
    application, background_executor, current_headless_renderer, current_platform, headless,
    Backend, Backends, HeadlessRenderer, PlatformChoice, TargetOs,
};
use vstd::prelude::*;

verus! {

/// Linux and FreeBSD run on the Linux backend, macOS and Windows on their own, each where the build
/// carries it. No other system runs on any.
pub proof fn systems_run_on_their_own_backend(
    os: TargetOs,
    backends: Backends,
    without_display: bool,
    choice: Option<PlatformChoice>,
)
    requires
        call_ensures(current_platform, (os, backends, without_display), choice),
    ensures
        choice matches Some(platform) ==> platform.headless == without_display,
        os == TargetOs::Linux || os == TargetOs::FreeBsd ==> {
            &&& choice is Some <==> backends.linux
            &&& choice matches Some(platform) ==> platform.backend == Backend::Linux
        },
        os == TargetOs::MacOs ==> {
            &&& choice is Some <==> backends.macos
            &&& choice matches Some(platform) ==> platform.backend == Backend::MacOs
        },
        os == TargetOs::Windows ==> {
            &&& choice is Some <==> backends.windows
            &&& choice matches Some(platform) ==> platform.backend == Backend::Windows
        },
        os == TargetOs::Other ==> choice is None,
{
}

/// Applications run on the current platform with a display; headless ones and background executors
/// on the current platform without one.
pub proof fn applications_run_on_the_current_platform(
    os: TargetOs,
    backends: Backends,
    with_display: Option<PlatformChoice>,
    without_display: Option<PlatformChoice>,
    choices: (Option<PlatformChoice>, Option<PlatformChoice>, Option<PlatformChoice>),
)
    requires
        call_ensures(current_platform, (os, backends, false), with_display),
        call_ensures(current_platform, (os, backends, true), without_display),
        call_ensures(application, (os, backends), choices.0),
        call_ensures(headless, (os, backends), choices.1),
        call_ensures(background_executor, (os, backends), choices.2),
    ensures
        choices.0 == with_display,
        choices.1 == without_display,
        choices.2 == without_display,
{
}

/// Only macOS has a headless renderer, where the build carries its backend: Metal.
pub proof fn only_macos_renders_headless(
    os: TargetOs,
    backends: Backends,
    renderer: Option<HeadlessRenderer>,
)
    requires
        call_ensures(current_headless_renderer, (os, backends), renderer),
    ensures
        renderer is Some <==> os == TargetOs::MacOs && backends.macos,
        renderer matches Some(metal) ==> metal == HeadlessRenderer::Metal,
{
}

/// What there is runs on Linux and FreeBSD, and nowhere else.
pub proof fn available_backends_run_on_linux_and_freebsd(
    os: TargetOs,
    available: Backends,
    without_display: bool,
    choice: Option<PlatformChoice>,
)
    requires
        call_ensures(Backends::available, (), available),
        call_ensures(current_platform, (os, available, without_display), choice),
    ensures
        choice is Some <==> os == TargetOs::Linux || os == TargetOs::FreeBsd,
        available == (Backends { linux: true, macos: false, windows: false }),
{
}

} // verus!
