//! The errors of SDK discovery and provisioning that the library decides.
use vstd::prelude::*;

use crate::provision::MissingPrerequisites;

verus! {

/// Why the revng SDK could not be discovered or provisioned.
#[derive(Debug)]
pub enum Error {
    /// A provisioning step exited unsuccessfully; its output is in `log`.
    BuildStep { step: String, log: String },
    /// The cache directory was marked provisioned but lacks the toolchain.
    CorruptCache(String),
    /// `llvm-config` reported a major version other than the pinned one.
    LlvmMajor { found: u32 },
    /// `llvm-config` printed something other than three lines with a version.
    LlvmVersion { output: String },
    /// A header directory named by `variable` does not hold the marker header.
    MissingInclude { variable: String, path: String },
    /// A path the SDK needs does not exist.
    MissingPath(String),
    /// The compiler does not provide a runtime library.
    MissingRuntime { compiler: String, name: String },
    /// Neither `REVNG_BUILD_CACHE` nor `HOME` names a cache directory.
    NoCacheRoot,
    /// `REVNG_SDK` is set but `REVNG_LLVM` is not.
    NoLlvm,
    /// `REVNG_LLVM` is set but `REVNG_SDK` is not.
    NoSdk,
    /// Tools or headers needed to provision the SDK are missing.
    Preflight(MissingPrerequisites),
    /// The target is neither Linux nor macOS on aarch64.
    UnsupportedTarget { arch: String, os: String },
}

} // verus!
