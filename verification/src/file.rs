//! Paths and filesystem queries around the download directory. The
//! queries themselves are thin trusted wrappers over the platform; the
//! path arithmetic on top of them is verified.

use vstd::prelude::*;

verus! {

/// Relies on `dirs_next::home_dir`: the user's home directory as the
/// platform reports it, or nothing when the platform knows none. The
/// result depends on the environment, so nothing is promised of it.
#[verifier::external_body]
fn home_dir() -> (r: Option<String>) {
    dirs_next::home_dir().map(|p| p.to_string_lossy().to_string())
}

/// Relies on `std::path::Path::exists`: whether the path points at an
/// entity on disk right now. The result depends on the filesystem, so
/// nothing is promised of it.
#[verifier::external_body]
pub(crate) fn path_exists(path: &str) -> (r: bool) {
    std::path::Path::new(path).exists()
}

/// Relies on `std::path::Path::is_dir`: whether the path points at a
/// directory on disk right now. The result depends on the filesystem,
/// so nothing is promised of it.
#[verifier::external_body]
fn dir_exists(path: &str) -> (r: bool) {
    std::path::Path::new(path).is_dir()
}

/// Relies on `std::path::Path::read_dir` (and `DirEntry::path` to name
/// each entry): the entries of the directory as full paths, or nothing
/// when the directory cannot be read. The listing depends on the disk,
/// so nothing is promised of it.
#[verifier::external_body]
fn read_dir_paths(dir: &str) -> (r: Option<Vec<String>>) {
    match std::path::Path::new(dir).read_dir() {
        Err(_) => None,
        Ok(entries) => {
            let mut files = Vec::new();
            for entry in entries.flatten() {
                files.push(entry.path().to_string_lossy().to_string());
            }
            Some(files)
        },
    }
}

/// Relies on `std::path::Path::metadata` (and `Metadata::len`): the
/// length of the file in bytes, or nothing when it cannot be read. The
/// result depends on the disk, so nothing is promised of it.
#[verifier::external_body]
pub(crate) fn file_len(path: &str) -> (r: Option<u64>) {
    std::path::Path::new(path).metadata().ok().map(|m| m.len())
}

/// The full paths of the entries of `dir`: an empty list when `dir` is
/// no directory, and nothing at all when the directory exists but
/// cannot be read — that case is fatal for a caller, not an empty scan.
pub fn list_files_in_dir(dir: &str) -> (r: Option<Vec<String>>) {
    if !dir_exists(dir) {
        Some(Vec::new())
    } else {
        read_dir_paths(dir)
    }
}

/// The download directory of one package under a home directory:
/// `<home>/.xupg/module/downloads/<app>`.
pub open spec fn spec_download_dir(home: Seq<char>, app: Seq<char>) -> Seq<char> {
    home + "/.xupg/module/downloads/"@ + app
}

/// Where a file of one package is stored under a home directory.
pub open spec fn spec_download_path(home: Seq<char>, app: Seq<char>, file: Seq<char>) -> Seq<
    char,
> {
    spec_download_dir(home, app) + "/"@ + file
}

/// Builds the download directory path of `app_name` under `home`.
pub fn download_dir_under(home: &str, app_name: &str) -> (r: String)
    ensures
        r@ == spec_download_dir(home@, app_name@),
{
    let mut s = home.to_owned();
    s.append("/.xupg/module/downloads/");
    s.append(app_name);
    s
}

/// The download directory of `app_name` under the current home
/// directory, or nothing when the platform reports no home.
pub fn get_download_dir(app_name: &str) -> (r: Option<String>)
    ensures
        r matches Some(p) ==> exists|h: Seq<char>| p@ == spec_download_dir(h, app_name@),
{
    match home_dir() {
        Some(home) => {
            let dir = download_dir_under(home.as_str(), app_name);
            proof {
                assert(dir@ == spec_download_dir(home@, app_name@));
            }
            Some(dir)
        },
        None => None,
    }
}

/// The download path of `file_name` of `app_name` under the current
/// home directory, or nothing when the platform reports no home.
pub fn get_download_path(app_name: &str, file_name: &str) -> (r: Option<String>)
    ensures
        r matches Some(p) ==> exists|h: Seq<char>|
            p@ == spec_download_path(h, app_name@, file_name@),
{
    match get_download_dir(app_name) {
        Some(mut dir) => {
            let ghost h = choose|h: Seq<char>| dir@ == spec_download_dir(h, app_name@);
            dir.append("/");
            dir.append(file_name);
            proof {
                assert(dir@ == spec_download_path(h, app_name@, file_name@));
            }
            Some(dir)
        },
        None => None,
    }
}

/// One download to perform: a source address and the file it should end
/// up in. Consumed exactly once by the downloader.
#[derive(Clone, Debug)]
pub struct DownloadInfo {
    pub url: String,
    pub dest: String,
}

/// The mathematical value of a `DownloadInfo`.
pub ghost struct DownloadInfoV {
    pub url: Seq<char>,
    pub dest: Seq<char>,
}

impl View for DownloadInfo {
    type V = DownloadInfoV;

    open spec fn view(&self) -> DownloadInfoV {
        DownloadInfoV { url: self.url@, dest: self.dest@ }
    }
}

impl DownloadInfo {
    pub fn new(url: String, dest: String) -> (r: Self)
        ensures
            r@ == (DownloadInfoV { url: url@, dest: dest@ }),
    {
        DownloadInfo { url, dest }
    }

    pub fn url(&self) -> (r: &str)
        ensures
            r@ == self@.url,
    {
        self.url.as_str()
    }
}

} // verus!
