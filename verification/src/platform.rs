//! The platform the app runs on, as the parts that depend on it see it.
use vstd::prelude::*;

verus! {

/// The operating system the app was built for.
#[derive(PartialEq, Eq, Structural, Clone, Copy)]
pub enum HostOs {
    MacOs,
    Windows,
    Other,
}

/// The processor the app was built for.
#[derive(PartialEq, Eq, Structural, Clone, Copy)]
pub enum HostArch {
    Aarch64,
    X86_64,
    Other,
}

/// The target triple in the name of the bundled transcription worker: the
/// Apple triples on macOS, `unknown` elsewhere.
pub fn host_triple(os: HostOs, arch: HostArch) -> (t: &'static str)
    ensures
        t@ == match (os, arch) {
            (HostOs::MacOs, HostArch::Aarch64) => "aarch64-apple-darwin"@,
            (HostOs::MacOs, HostArch::X86_64) => "x86_64-apple-darwin"@,
            _ => "unknown"@,
        },
{
    match (os, arch) {
        (HostOs::MacOs, HostArch::Aarch64) => "aarch64-apple-darwin",
        (HostOs::MacOs, HostArch::X86_64) => "x86_64-apple-darwin",
        _ => "unknown",
    }
}

} // verus!
