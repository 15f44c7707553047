//! Host platforms the bundler can target, and the runtime file names that
//! belong to each.

use vstd::prelude::*;

verus! {

/// A supported operating-system and architecture pair.
#[derive(Debug, Clone, Copy, PartialEq, Eq, Structural)]
pub enum Platform {
    LinuxX64,
    LinuxArm64,
    MacosX64,
    MacosArm64,
    WindowsX64,
    WindowsArm64,
}

impl Platform {
    /// Whether this platform uses drive letters and `.exe` suffixes.
    pub fn is_windows(&self) -> (r: bool)
        ensures
            r == (*self == Platform::WindowsX64 || *self == Platform::WindowsArm64),
    {
        match self {
            Platform::WindowsX64 | Platform::WindowsArm64 => true,
            _ => false,
        }
    }

    /// The platform a host reports, if it is one the bundler supports.
    pub fn from_os_arch(os: &str, arch: &str) -> (r: Option<Platform>)
        ensures
            r == spec_platform_of(os@, arch@),
    {
        let linux = crate::strutil::str_eq(os, "linux");
        let macos = crate::strutil::str_eq(os, "macos");
        let windows = crate::strutil::str_eq(os, "windows");
        let x64 = crate::strutil::str_eq(arch, "x86_64");
        let arm = crate::strutil::str_eq(arch, "aarch64");
        if linux && x64 {
            Some(Platform::LinuxX64)
        } else if linux && arm {
            Some(Platform::LinuxArm64)
        } else if macos && x64 {
            Some(Platform::MacosX64)
        } else if macos && arm {
            Some(Platform::MacosArm64)
        } else if windows && x64 {
            Some(Platform::WindowsX64)
        } else if windows && arm {
            Some(Platform::WindowsArm64)
        } else {
            None
        }
    }
}

/// Which platform a given os / arch pair names, if any.
pub open spec fn spec_platform_of(os: Seq<char>, arch: Seq<char>) -> Option<Platform> {
    if os == "linux"@ && arch == "x86_64"@ {
        Some(Platform::LinuxX64)
    } else if os == "linux"@ && arch == "aarch64"@ {
        Some(Platform::LinuxArm64)
    } else if os == "macos"@ && arch == "x86_64"@ {
        Some(Platform::MacosX64)
    } else if os == "macos"@ && arch == "aarch64"@ {
        Some(Platform::MacosArm64)
    } else if os == "windows"@ && arch == "x86_64"@ {
        Some(Platform::WindowsX64)
    } else if os == "windows"@ && arch == "aarch64"@ {
        Some(Platform::WindowsArm64)
    } else {
        None
    }
}

impl Platform {
    /// The published archive name of the runtime for this platform and
    /// version.
    pub fn node_archive_name(&self, version: &str) -> (r: String)
        ensures
            r@ == "node-v"@ + version@ + spec_archive_suffix(*self),
    {
        let mut r = String::from_str("node-v");
        r.append(version);
        match self {
            Platform::LinuxX64 => r.append("-linux-x64.tar.xz"),
            Platform::LinuxArm64 => r.append("-linux-arm64.tar.xz"),
            Platform::MacosX64 => r.append("-darwin-x64.tar.xz"),
            Platform::MacosArm64 => r.append("-darwin-arm64.tar.xz"),
            Platform::WindowsX64 => r.append("-win-x64.7z"),
            Platform::WindowsArm64 => r.append("-win-arm64.7z"),
        }
        r
    }

    /// The runtime executable's path inside an unpacked runtime tree.
    pub fn node_executable_path(&self) -> (r: String)
        ensures
            self.is_windows_spec() ==> r@ == "node.exe"@,
            !self.is_windows_spec() ==> r@ == "bin/node"@,
    {
        match self {
            Platform::WindowsX64 | Platform::WindowsArm64 => String::from_str("node.exe"),
            _ => String::from_str("bin/node"),
        }
    }

    /// Whether this platform uses drive letters and `.exe` suffixes.
    pub open spec fn is_windows_spec(&self) -> bool {
        *self == Platform::WindowsX64 || *self == Platform::WindowsArm64
    }

    /// The short human label of this platform.
    pub fn label(&self) -> (r: String)
        ensures
            r@ == spec_platform_label(*self),
    {
        match self {
            Platform::LinuxX64 => String::from_str("linux-x64"),
            Platform::LinuxArm64 => String::from_str("linux-arm64"),
            Platform::MacosX64 => String::from_str("darwin-x64"),
            Platform::MacosArm64 => String::from_str("darwin-arm64"),
            Platform::WindowsX64 => String::from_str("win32-x64"),
            Platform::WindowsArm64 => String::from_str("win32-arm64"),
        }
    }
}

/// The platform-dependent tail of the runtime archive name.
pub open spec fn spec_archive_suffix(p: Platform) -> Seq<char> {
    match p {
        Platform::LinuxX64 => "-linux-x64.tar.xz"@,
        Platform::LinuxArm64 => "-linux-arm64.tar.xz"@,
        Platform::MacosX64 => "-darwin-x64.tar.xz"@,
        Platform::MacosArm64 => "-darwin-arm64.tar.xz"@,
        Platform::WindowsX64 => "-win-x64.7z"@,
        Platform::WindowsArm64 => "-win-arm64.7z"@,
    }
}

/// The short human label of a platform.
pub open spec fn spec_platform_label(p: Platform) -> Seq<char> {
    match p {
        Platform::LinuxX64 => "linux-x64"@,
        Platform::LinuxArm64 => "linux-arm64"@,
        Platform::MacosX64 => "darwin-x64"@,
        Platform::MacosArm64 => "darwin-arm64"@,
        Platform::WindowsX64 => "win32-x64"@,
        Platform::WindowsArm64 => "win32-arm64"@,
    }
}

/// The Rust target triple the native build uses for a platform.
pub fn get_target_triple(platform: &Platform) -> (r: String)
    ensures
        r@ == spec_target_triple(*platform),
{
    match platform {
        Platform::MacosX64 => String::from_str("x86_64-apple-darwin"),
        Platform::MacosArm64 => String::from_str("aarch64-apple-darwin"),
        Platform::LinuxX64 => String::from_str("x86_64-unknown-linux-gnu"),
        Platform::LinuxArm64 => String::from_str("aarch64-unknown-linux-gnu"),
        Platform::WindowsX64 => String::from_str("x86_64-pc-windows-msvc"),
        Platform::WindowsArm64 => String::from_str("aarch64-pc-windows-msvc"),
    }
}

/// The Rust target triple of a platform.
pub open spec fn spec_target_triple(p: Platform) -> Seq<char> {
    match p {
        Platform::MacosX64 => "x86_64-apple-darwin"@,
        Platform::MacosArm64 => "aarch64-apple-darwin"@,
        Platform::LinuxX64 => "x86_64-unknown-linux-gnu"@,
        Platform::LinuxArm64 => "aarch64-unknown-linux-gnu"@,
        Platform::WindowsX64 => "x86_64-pc-windows-msvc"@,
        Platform::WindowsArm64 => "aarch64-pc-windows-msvc"@,
    }
}

} // verus!
