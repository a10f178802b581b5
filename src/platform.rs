//! The Java runtime of the extractor: where it is kept, and the platform
//! name under which it is fetched.
use vstd::prelude::*;

verus! {

/// An operating system and an architecture, as the Adoptium API names them.
#[derive(Debug, Clone, Copy)]
pub struct Platform {
    pub os: &'static str,
    pub arch: &'static str,
}

/// Why a target has no runtime download.
#[derive(Debug, Clone, Copy, PartialEq, Eq, Structural)]
pub enum PlatformError {
    UnsupportedOperatingSystem,
    UnsupportedArchitecture,
}

/// The Adoptium name of a Rust target operating system.
pub open spec fn os_name(target_os: Seq<char>) -> Option<Seq<char>> {
    if target_os == "linux"@ {
        Some("linux"@)
    } else if target_os == "macos"@ {
        Some("mac"@)
    } else if target_os == "windows"@ {
        Some("windows"@)
    } else {
        None
    }
}

/// The Adoptium name of a Rust target architecture.
pub open spec fn arch_name(target_arch: Seq<char>) -> Option<Seq<char>> {
    if target_arch == "x86_64"@ {
        Some("x64"@)
    } else if target_arch == "aarch64"@ {
        Some("aarch64"@)
    } else {
        None
    }
}

impl Platform {
    /// The platform of a Rust target, given by its `target_os` and
    /// `target_arch` names.
    pub fn detect(target_os: &str, target_arch: &str) -> (r: Result<Platform, PlatformError>)
        ensures
            os_name(target_os@) is None ==> r == Err::<Platform, PlatformError>(PlatformError::UnsupportedOperatingSystem),
            os_name(target_os@) is Some && arch_name(target_arch@) is None ==> r == Err::<Platform, PlatformError>(PlatformError::UnsupportedArchitecture),
            r matches Ok(p) ==> os_name(target_os@) == Some(p.os@) && arch_name(target_arch@) == Some(p.arch@),
            os_name(target_os@) is Some && arch_name(target_arch@) is Some ==> r is Ok,
    {
        let os: &'static str = if crate::text::str_eq(target_os, "linux") {
            "linux"
        } else if crate::text::str_eq(target_os, "macos") {
            "mac"
        } else if crate::text::str_eq(target_os, "windows") {
            "windows"
        } else {
            return Err(PlatformError::UnsupportedOperatingSystem);
        };
        let arch: &'static str = if crate::text::str_eq(target_arch, "x86_64") {
            "x64"
        } else if crate::text::str_eq(target_arch, "aarch64") {
            "aarch64"
        } else {
            return Err(PlatformError::UnsupportedArchitecture);
        };
        Ok(Platform { os, arch })
    }

    /// The download address of the latest general-availability JRE of
    /// `version` for this platform.
    pub fn adoptium_url(&self, version: &str) -> (r: String)
        ensures
            r@ == "https://api.adoptium.net/v3/binary/latest/"@ + version@ + "/ga/"@ + self.os@ + "/"@
                + self.arch@ + "/jre/hotspot/normal/eclipse"@,
    {
        let mut s = String::from_str("https://api.adoptium.net/v3/binary/latest/");
        s.append(version);
        s.append("/ga/");
        s.append(self.os);
        s.append("/");
        s.append(self.arch);
        s.append("/jre/hotspot/normal/eclipse");
        s
    }

    /// Windows downloads are zip archives; the others are tar.gz.
    pub fn is_zip(&self) -> (r: bool)
        ensures
            r == (self.os@ == "windows"@),
    {
        crate::text::str_eq(self.os, "windows")
    }
}

/// Where the Java runtime of the extractor is kept.
#[derive(Debug, Clone)]
pub struct JreManager {
    pub data_dir: String,
}

impl JreManager {
    /// A manager over the data directory `data_dir`.
    pub fn new(data_dir: &str) -> (r: JreManager)
        ensures
            r.data_dir@ == data_dir@,
    {
        JreManager { data_dir: String::from_str(data_dir) }
    }

    /// The directory the runtime is installed in.
    pub fn jre_path(&self) -> (r: String)
        ensures
            r@ == self.data_dir@ + "/jre"@,
    {
        let mut s = self.data_dir.clone();
        s.append("/jre");
        s
    }

    /// The java executable inside the runtime (`java.exe` on Windows).
    pub fn java_binary_path(&self, windows: bool) -> (r: String)
        ensures
            r@ == self.data_dir@ + "/jre"@ + (if windows { "/bin/java.exe"@ } else { "/bin/java"@ }),
    {
        let mut s = self.jre_path();
        if windows {
            s.append("/bin/java.exe");
        } else {
            s.append("/bin/java");
        }
        s
    }
}

} // verus!
