use vstd::prelude::*;
use crate::text::chars_eq_str;

verus! {

/// Leaf names of cache, temp, log and build-output folders that are never backed up.
pub open spec fn is_noise_name(n: Seq<char>) -> bool {
    n == "temp"@
    || n == "tmp"@
    || n == "cache"@
    || n == "code cache"@
    || n == "gpucache"@
    || n == "logs"@
    || n == "log"@
    || n == "node_modules"@
    || n == "target"@
    || n == "bin"@
    || n == "obj"@
    || n == "dist"@
    || n == "build"@
    || n == ".venv"@
    || n == "venv"@
    || n == "env"@
    || n == "__pycache__"@
    || n == "site-packages"@
    || n == "distlib"@
}

pub fn is_noise_name_exec(n: &[char]) -> (r: bool)
    ensures
        r == is_noise_name(n@),
{
    chars_eq_str(n, "temp")
        || chars_eq_str(n, "tmp")
        || chars_eq_str(n, "cache")
        || chars_eq_str(n, "code cache")
        || chars_eq_str(n, "gpucache")
        || chars_eq_str(n, "logs")
        || chars_eq_str(n, "log")
        || chars_eq_str(n, "node_modules")
        || chars_eq_str(n, "target")
        || chars_eq_str(n, "bin")
        || chars_eq_str(n, "obj")
        || chars_eq_str(n, "dist")
        || chars_eq_str(n, "build")
        || chars_eq_str(n, ".venv")
        || chars_eq_str(n, "venv")
        || chars_eq_str(n, "env")
        || chars_eq_str(n, "__pycache__")
        || chars_eq_str(n, "site-packages")
        || chars_eq_str(n, "distlib")
}

/// File names that mark an Android virtual device folder.
pub open spec fn is_avd_marker_name(n: Seq<char>) -> bool {
    n == "config.ini"@
    || n == "hardware-qemu.ini"@
    || n == "userdata-qemu.img"@
    || n == "cache.img"@
    || n == "sdcard.img"@
    || n == "multiinstance.lock"@
}

pub fn is_avd_marker_name_exec(n: &[char]) -> (r: bool)
    ensures
        r == is_avd_marker_name(n@),
{
    chars_eq_str(n, "config.ini")
        || chars_eq_str(n, "hardware-qemu.ini")
        || chars_eq_str(n, "userdata-qemu.img")
        || chars_eq_str(n, "cache.img")
        || chars_eq_str(n, "sdcard.img")
        || chars_eq_str(n, "multiinstance.lock")
}

/// Folder names that make up an Android SDK.
pub open spec fn is_sdk_component_name(n: Seq<char>) -> bool {
    n == "platforms"@
    || n == "platform-tools"@
    || n == "build-tools"@
    || n == "cmdline-tools"@
    || n == "emulator"@
    || n == "skins"@
    || n == "sources"@
    || n == "system-images"@
    || n == "ndk"@
    || n == "extras"@
    || n == "licenses"@
    || n == "patcher"@
}

pub fn is_sdk_component_name_exec(n: &[char]) -> (r: bool)
    ensures
        r == is_sdk_component_name(n@),
{
    chars_eq_str(n, "platforms")
        || chars_eq_str(n, "platform-tools")
        || chars_eq_str(n, "build-tools")
        || chars_eq_str(n, "cmdline-tools")
        || chars_eq_str(n, "emulator")
        || chars_eq_str(n, "skins")
        || chars_eq_str(n, "sources")
        || chars_eq_str(n, "system-images")
        || chars_eq_str(n, "ndk")
        || chars_eq_str(n, "extras")
        || chars_eq_str(n, "licenses")
        || chars_eq_str(n, "patcher")
}

/// Folder names too generic to carry meaning for a personal-data candidate.
pub open spec fn is_generic_user_container(n: Seq<char>) -> bool {
    n == "files"@
    || n == "data"@
    || n == "backup"@
    || n == "backups"@
    || n == "work"@
    || n == "workspace"@
    || n == "images"@
    || n == "media"@
    || n == "misc"@
    || n == "other"@
    || n == "others"@
}

pub fn is_generic_user_container_exec(n: &[char]) -> (r: bool)
    ensures
        r == is_generic_user_container(n@),
{
    chars_eq_str(n, "files")
        || chars_eq_str(n, "data")
        || chars_eq_str(n, "backup")
        || chars_eq_str(n, "backups")
        || chars_eq_str(n, "work")
        || chars_eq_str(n, "workspace")
        || chars_eq_str(n, "images")
        || chars_eq_str(n, "media")
        || chars_eq_str(n, "misc")
        || chars_eq_str(n, "other")
        || chars_eq_str(n, "others")
}

/// Folder names typical of application data.
pub open spec fn is_app_data_directory_name(n: Seq<char>) -> bool {
    n == "config"@
    || n == "configs"@
    || n == "data"@
    || n == "backup"@
    || n == "backups"@
    || n == "db"@
    || n == "database"@
    || n == "databases"@
    || n == "sqlite"@
    || n == "login"@
    || n == "profiles"@
    || n == "profile"@
    || n == "head_imgs"@
    || n == "finderlive"@
    || n == "nt_db"@
    || n == "nt_data"@
}

pub fn is_app_data_directory_name_exec(n: &[char]) -> (r: bool)
    ensures
        r == is_app_data_directory_name(n@),
{
    chars_eq_str(n, "config")
        || chars_eq_str(n, "configs")
        || chars_eq_str(n, "data")
        || chars_eq_str(n, "backup")
        || chars_eq_str(n, "backups")
        || chars_eq_str(n, "db")
        || chars_eq_str(n, "database")
        || chars_eq_str(n, "databases")
        || chars_eq_str(n, "sqlite")
        || chars_eq_str(n, "login")
        || chars_eq_str(n, "profiles")
        || chars_eq_str(n, "profile")
        || chars_eq_str(n, "head_imgs")
        || chars_eq_str(n, "finderlive")
        || chars_eq_str(n, "nt_db")
        || chars_eq_str(n, "nt_data")
}

/// Exact file names typical of application data.
pub open spec fn is_app_data_exact_file_name(n: Seq<char>) -> bool {
    n == "global_config"@
    || n == "client_config"@
    || n == "lock.ini"@
}

pub fn is_app_data_exact_file_name_exec(n: &[char]) -> (r: bool)
    ensures
        r == is_app_data_exact_file_name(n@),
{
    chars_eq_str(n, "global_config")
        || chars_eq_str(n, "client_config")
        || chars_eq_str(n, "lock.ini")
}

/// Folder names too generic to name an application.
pub open spec fn is_generic_container(n: Seq<char>) -> bool {
    n == "app"@
    || n == "apps"@
    || n == "application"@
    || n == "bin"@
    || n == "debug"@
    || n == "release"@
    || n == "current"@
    || n == "latest"@
    || n == "tools"@
    || n == "x64"@
    || n == "x86"@
    || n == "win64"@
    || n == "win32"@
    || n == "amd64"@
    || n == "arm64"@
}

pub fn is_generic_container_exec(n: &[char]) -> (r: bool)
    ensures
        r == is_generic_container(n@),
{
    chars_eq_str(n, "app")
        || chars_eq_str(n, "apps")
        || chars_eq_str(n, "application")
        || chars_eq_str(n, "bin")
        || chars_eq_str(n, "debug")
        || chars_eq_str(n, "release")
        || chars_eq_str(n, "current")
        || chars_eq_str(n, "latest")
        || chars_eq_str(n, "tools")
        || chars_eq_str(n, "x64")
        || chars_eq_str(n, "x86")
        || chars_eq_str(n, "win64")
        || chars_eq_str(n, "win32")
        || chars_eq_str(n, "amd64")
        || chars_eq_str(n, "arm64")
}

/// Names of generic launcher executables.
pub open spec fn is_generic_launcher(n: Seq<char>) -> bool {
    n == "app"@
    || n == "launcher"@
    || n == "launch"@
    || n == "start"@
    || n == "run"@
    || n == "helper"@
    || n == "bootstrap"@
}

pub fn is_generic_launcher_exec(n: &[char]) -> (r: bool)
    ensures
        r == is_generic_launcher(n@),
{
    chars_eq_str(n, "app")
        || chars_eq_str(n, "launcher")
        || chars_eq_str(n, "launch")
        || chars_eq_str(n, "start")
        || chars_eq_str(n, "run")
        || chars_eq_str(n, "helper")
        || chars_eq_str(n, "bootstrap")
}

/// Folder names that a portable application keeps next to its executable.
pub open spec fn is_portable_support_directory(n: Seq<char>) -> bool {
    n == "config"@
    || n == "configs"@
    || n == "data"@
    || n == "plugins"@
    || n == "plugin"@
    || n == "resources"@
    || n == "resource"@
    || n == "themes"@
    || n == "theme"@
    || n == "locale"@
    || n == "locales"@
    || n == "lang"@
    || n == "language"@
    || n == "extensions"@
    || n == "extension"@
    || n == "profiles"@
    || n == "profile"@
}

pub fn is_portable_support_directory_exec(n: &[char]) -> (r: bool)
    ensures
        r == is_portable_support_directory(n@),
{
    chars_eq_str(n, "config")
        || chars_eq_str(n, "configs")
        || chars_eq_str(n, "data")
        || chars_eq_str(n, "plugins")
        || chars_eq_str(n, "plugin")
        || chars_eq_str(n, "resources")
        || chars_eq_str(n, "resource")
        || chars_eq_str(n, "themes")
        || chars_eq_str(n, "theme")
        || chars_eq_str(n, "locale")
        || chars_eq_str(n, "locales")
        || chars_eq_str(n, "lang")
        || chars_eq_str(n, "language")
        || chars_eq_str(n, "extensions")
        || chars_eq_str(n, "extension")
        || chars_eq_str(n, "profiles")
        || chars_eq_str(n, "profile")
}

/// Folder names that mark a source tree rather than an application.
pub open spec fn is_development_marker_directory(n: Seq<char>) -> bool {
    n == ".git"@
    || n == ".github"@
    || n == ".idea"@
    || n == ".vscode"@
    || n == "src"@
    || n == "test"@
    || n == "tests"@
    || n == "example"@
    || n == "examples"@
    || n == ".venv"@
    || n == "venv"@
    || n == "env"@
    || n == "node_modules"@
    || n == "site-packages"@
    || n == "distlib"@
    || n == "__pycache__"@
}

pub fn is_development_marker_directory_exec(n: &[char]) -> (r: bool)
    ensures
        r == is_development_marker_directory(n@),
{
    chars_eq_str(n, ".git")
        || chars_eq_str(n, ".github")
        || chars_eq_str(n, ".idea")
        || chars_eq_str(n, ".vscode")
        || chars_eq_str(n, "src")
        || chars_eq_str(n, "test")
        || chars_eq_str(n, "tests")
        || chars_eq_str(n, "example")
        || chars_eq_str(n, "examples")
        || chars_eq_str(n, ".venv")
        || chars_eq_str(n, "venv")
        || chars_eq_str(n, "env")
        || chars_eq_str(n, "node_modules")
        || chars_eq_str(n, "site-packages")
        || chars_eq_str(n, "distlib")
        || chars_eq_str(n, "__pycache__")
}

/// File names that mark a source tree rather than an application.
pub open spec fn is_development_marker_file(n: Seq<char>) -> bool {
    n == "cargo.toml"@
    || n == "cargo.lock"@
    || n == "package.json"@
    || n == "package-lock.json"@
    || n == "pnpm-lock.yaml"@
    || n == "yarn.lock"@
    || n == "pyproject.toml"@
    || n == "poetry.lock"@
    || n == "requirements.txt"@
    || n == "setup.py"@
    || n == "setup.cfg"@
    || n == "go.mod"@
    || n == ".gitignore"@
}

pub fn is_development_marker_file_exec(n: &[char]) -> (r: bool)
    ensures
        r == is_development_marker_file(n@),
{
    chars_eq_str(n, "cargo.toml")
        || chars_eq_str(n, "cargo.lock")
        || chars_eq_str(n, "package.json")
        || chars_eq_str(n, "package-lock.json")
        || chars_eq_str(n, "pnpm-lock.yaml")
        || chars_eq_str(n, "yarn.lock")
        || chars_eq_str(n, "pyproject.toml")
        || chars_eq_str(n, "poetry.lock")
        || chars_eq_str(n, "requirements.txt")
        || chars_eq_str(n, "setup.py")
        || chars_eq_str(n, "setup.cfg")
        || chars_eq_str(n, "go.mod")
        || chars_eq_str(n, ".gitignore")
}

/// Top-level folders of a drive that the portable search never enters.
pub open spec fn is_search_skip_directory(n: Seq<char>) -> bool {
    n == "windows"@
    || n == "program files"@
    || n == "program files (x86)"@
    || n == "programdata"@
    || n == "$recycle.bin"@
    || n == "system volume information"@
    || n == "recovery"@
    || n == "msocache"@
    || n == "perf logs"@
}

pub fn is_search_skip_directory_exec(n: &[char]) -> (r: bool)
    ensures
        r == is_search_skip_directory(n@),
{
    chars_eq_str(n, "windows")
        || chars_eq_str(n, "program files")
        || chars_eq_str(n, "program files (x86)")
        || chars_eq_str(n, "programdata")
        || chars_eq_str(n, "$recycle.bin")
        || chars_eq_str(n, "system volume information")
        || chars_eq_str(n, "recovery")
        || chars_eq_str(n, "msocache")
        || chars_eq_str(n, "perf logs")
}

/// Executable stems of Python distlib launchers.
pub open spec fn is_distlib_launcher_stem(n: Seq<char>) -> bool {
    n == "t32"@
    || n == "t64"@
    || n == "w32"@
    || n == "w64"@
}

pub fn is_distlib_launcher_stem_exec(n: &[char]) -> (r: bool)
    ensures
        r == is_distlib_launcher_stem(n@),
{
    chars_eq_str(n, "t32")
        || chars_eq_str(n, "t64")
        || chars_eq_str(n, "w32")
        || chars_eq_str(n, "w64")
}

/// Executable stems of Python toolchain wrappers.
pub open spec fn is_python_wrapper_exact(n: Seq<char>) -> bool {
    n == "python"@
    || n == "pythonw"@
    || n == "py"@
    || n == "pyw"@
    || n == "pip"@
    || n == "wheel"@
    || n == "easy_install"@
    || n == "idle"@
    || n == "f2py"@
}

pub fn is_python_wrapper_exact_exec(n: &[char]) -> (r: bool)
    ensures
        r == is_python_wrapper_exact(n@),
{
    chars_eq_str(n, "python")
        || chars_eq_str(n, "pythonw")
        || chars_eq_str(n, "py")
        || chars_eq_str(n, "pyw")
        || chars_eq_str(n, "pip")
        || chars_eq_str(n, "wheel")
        || chars_eq_str(n, "easy_install")
        || chars_eq_str(n, "idle")
        || chars_eq_str(n, "f2py")
}

/// Path component names that mark a Python environment.
pub open spec fn is_python_toolchain_segment(n: Seq<char>) -> bool {
    n == ".venv"@
    || n == "venv"@
    || n == "env"@
    || n == "scripts"@
    || n == "site-packages"@
    || n == "distlib"@
    || n == "__pypackages__"@
}

pub fn is_python_toolchain_segment_exec(n: &[char]) -> (r: bool)
    ensures
        r == is_python_toolchain_segment(n@),
{
    chars_eq_str(n, ".venv")
        || chars_eq_str(n, "venv")
        || chars_eq_str(n, "env")
        || chars_eq_str(n, "scripts")
        || chars_eq_str(n, "site-packages")
        || chars_eq_str(n, "distlib")
        || chars_eq_str(n, "__pypackages__")
}

/// Path component names of places where portable applications are usually kept.
pub open spec fn is_curated_portable_segment(n: Seq<char>) -> bool {
    n == "portableapps"@
    || n == "tools"@
    || n == "apps"@
}

pub fn is_curated_portable_segment_exec(n: &[char]) -> (r: bool)
    ensures
        r == is_curated_portable_segment(n@),
{
    chars_eq_str(n, "portableapps")
        || chars_eq_str(n, "tools")
        || chars_eq_str(n, "apps")
}

} // verus!

verus! {
/// File extensions of documents.
pub open spec fn is_document_extension(n: Seq<char>) -> bool {
    n == "doc"@
    || n == "docx"@
    || n == "xls"@
    || n == "xlsx"@
    || n == "ppt"@
    || n == "pptx"@
    || n == "pdf"@
    || n == "txt"@
    || n == "md"@
    || n == "csv"@
    || n == "rtf"@
    || n == "xmind"@
}

pub fn is_document_extension_exec(n: &[char]) -> (r: bool)
    ensures
        r == is_document_extension(n@),
{
    chars_eq_str(n, "doc")
        || chars_eq_str(n, "docx")
        || chars_eq_str(n, "xls")
        || chars_eq_str(n, "xlsx")
        || chars_eq_str(n, "ppt")
        || chars_eq_str(n, "pptx")
        || chars_eq_str(n, "pdf")
        || chars_eq_str(n, "txt")
        || chars_eq_str(n, "md")
        || chars_eq_str(n, "csv")
        || chars_eq_str(n, "rtf")
        || chars_eq_str(n, "xmind")
}

/// File extensions of images, video and audio.
pub open spec fn is_media_extension(n: Seq<char>) -> bool {
    n == "jpg"@
    || n == "jpeg"@
    || n == "png"@
    || n == "webp"@
    || n == "bmp"@
    || n == "gif"@
    || n == "tif"@
    || n == "tiff"@
    || n == "heic"@
    || n == "psd"@
    || n == "kra"@
    || n == "mp4"@
    || n == "mkv"@
    || n == "mov"@
    || n == "avi"@
    || n == "wmv"@
    || n == "mp3"@
    || n == "flac"@
    || n == "wav"@
    || n == "m4a"@
}

pub fn is_media_extension_exec(n: &[char]) -> (r: bool)
    ensures
        r == is_media_extension(n@),
{
    chars_eq_str(n, "jpg")
        || chars_eq_str(n, "jpeg")
        || chars_eq_str(n, "png")
        || chars_eq_str(n, "webp")
        || chars_eq_str(n, "bmp")
        || chars_eq_str(n, "gif")
        || chars_eq_str(n, "tif")
        || chars_eq_str(n, "tiff")
        || chars_eq_str(n, "heic")
        || chars_eq_str(n, "psd")
        || chars_eq_str(n, "kra")
        || chars_eq_str(n, "mp4")
        || chars_eq_str(n, "mkv")
        || chars_eq_str(n, "mov")
        || chars_eq_str(n, "avi")
        || chars_eq_str(n, "wmv")
        || chars_eq_str(n, "mp3")
        || chars_eq_str(n, "flac")
        || chars_eq_str(n, "wav")
        || chars_eq_str(n, "m4a")
}

/// File extensions of compressed archives.
pub open spec fn is_archive_extension(n: Seq<char>) -> bool {
    n == "zip"@
    || n == "7z"@
    || n == "rar"@
    || n == "tar"@
    || n == "gz"@
    || n == "bz2"@
    || n == "xz"@
    || n == "zst"@
}

pub fn is_archive_extension_exec(n: &[char]) -> (r: bool)
    ensures
        r == is_archive_extension(n@),
{
    chars_eq_str(n, "zip")
        || chars_eq_str(n, "7z")
        || chars_eq_str(n, "rar")
        || chars_eq_str(n, "tar")
        || chars_eq_str(n, "gz")
        || chars_eq_str(n, "bz2")
        || chars_eq_str(n, "xz")
        || chars_eq_str(n, "zst")
}

/// File extensions of disk images and virtual machines.
pub open spec fn is_disk_image_extension(n: Seq<char>) -> bool {
    n == "iso"@
    || n == "img"@
    || n == "vhd"@
    || n == "vhdx"@
    || n == "vmdk"@
    || n == "qcow2"@
    || n == "vdi"@
    || n == "ova"@
    || n == "ovf"@
}

pub fn is_disk_image_extension_exec(n: &[char]) -> (r: bool)
    ensures
        r == is_disk_image_extension(n@),
{
    chars_eq_str(n, "iso")
        || chars_eq_str(n, "img")
        || chars_eq_str(n, "vhd")
        || chars_eq_str(n, "vhdx")
        || chars_eq_str(n, "vmdk")
        || chars_eq_str(n, "qcow2")
        || chars_eq_str(n, "vdi")
        || chars_eq_str(n, "ova")
        || chars_eq_str(n, "ovf")
}

/// File extensions of application databases and settings.
pub open spec fn is_app_data_extension(n: Seq<char>) -> bool {
    n == "db"@
    || n == "sqlite"@
    || n == "sqlite3"@
    || n == "dat"@
    || n == "json"@
    || n == "ini"@
    || n == "cfg"@
    || n == "wal"@
    || n == "shm"@
    || n == "xml"@
}

pub fn is_app_data_extension_exec(n: &[char]) -> (r: bool)
    ensures
        r == is_app_data_extension(n@),
{
    chars_eq_str(n, "db")
        || chars_eq_str(n, "sqlite")
        || chars_eq_str(n, "sqlite3")
        || chars_eq_str(n, "dat")
        || chars_eq_str(n, "json")
        || chars_eq_str(n, "ini")
        || chars_eq_str(n, "cfg")
        || chars_eq_str(n, "wal")
        || chars_eq_str(n, "shm")
        || chars_eq_str(n, "xml")
}

/// File extensions of a portable application's libraries and settings.
pub open spec fn is_support_file_extension(n: Seq<char>) -> bool {
    n == "dll"@
    || n == "ini"@
    || n == "json"@
    || n == "yaml"@
    || n == "toml"@
    || n == "db"@
}

pub fn is_support_file_extension_exec(n: &[char]) -> (r: bool)
    ensures
        r == is_support_file_extension(n@),
{
    chars_eq_str(n, "dll")
        || chars_eq_str(n, "ini")
        || chars_eq_str(n, "json")
        || chars_eq_str(n, "yaml")
        || chars_eq_str(n, "toml")
        || chars_eq_str(n, "db")
}

/// File extensions of a portable application's data.
pub open spec fn is_data_file_extension(n: Seq<char>) -> bool {
    n == "dat"@
    || n == "sqlite"@
    || n == "xml"@
}

pub fn is_data_file_extension_exec(n: &[char]) -> (r: bool)
    ensures
        r == is_data_file_extension(n@),
{
    chars_eq_str(n, "dat")
        || chars_eq_str(n, "sqlite")
        || chars_eq_str(n, "xml")
}

} // verus!
