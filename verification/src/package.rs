//! The version registry: the supported package kinds, the `Version`
//! records they collect, and the installer entry point that validates a
//! requested version before its archive is extracted.

use vstd::prelude::*;

use crate::file::file_len;
use crate::file::get_download_dir;
use crate::file::list_files_in_dir;
use crate::file::path_exists;
use crate::strmap::StringMap;
use crate::text::dec_digits;
use crate::text::ends_with;
use crate::text::find_char;
use crate::text::first_ix;
use crate::text::has_char;
use crate::text::is_suffix_of;
use crate::text::last_ix;
use crate::text::lemma_first_ix_unique;
use crate::text::lemma_last_ix_unique;
use crate::text::rfind_char;
use crate::text::u64_to_dec;

verus! {

/// The package kinds this tool manages.
#[derive(Clone, Copy, PartialEq, Eq, Structural, Debug)]
pub enum SupportedPackages {
    PHP,
    MySQL,
    PHPMyAdmin,
}

impl SupportedPackages {
    /// The display name of the package kind.
    pub open spec fn spec_name(self) -> Seq<char> {
        match self {
            SupportedPackages::PHP => "PHP"@,
            SupportedPackages::MySQL => "MySQL"@,
            SupportedPackages::PHPMyAdmin => "PHPMyAdmin"@,
        }
    }

    /// The name in capitals, as some messages print it.
    pub open spec fn spec_name_upper(self) -> Seq<char> {
        match self {
            SupportedPackages::PHP => "PHP"@,
            SupportedPackages::MySQL => "MYSQL"@,
            SupportedPackages::PHPMyAdmin => "PHPMYADMIN"@,
        }
    }

    /// The lowercase name, used for directory and catalog keys.
    pub open spec fn spec_name_lower(self) -> Seq<char> {
        match self {
            SupportedPackages::PHP => "php"@,
            SupportedPackages::MySQL => "mysql"@,
            SupportedPackages::PHPMyAdmin => "phpmyadmin"@,
        }
    }

    pub fn get_name(&self) -> (r: &'static str)
        ensures
            r@ == self.spec_name(),
    {
        match self {
            SupportedPackages::PHP => "PHP",
            SupportedPackages::MySQL => "MySQL",
            SupportedPackages::PHPMyAdmin => "PHPMyAdmin",
        }
    }

    /// The name in lowercase. The names are fixed, so the folding is
    /// written out rather than computed.
    pub fn get_name_lower(&self) -> (r: &'static str)
        ensures
            r@ == self.spec_name_lower(),
    {
        match self {
            SupportedPackages::PHP => "php",
            SupportedPackages::MySQL => "mysql",
            SupportedPackages::PHPMyAdmin => "phpmyadmin",
        }
    }

    /// The name in capitals. The names are fixed, so the folding is
    /// written out rather than computed.
    pub fn get_name_upper(&self) -> (r: &'static str)
        ensures
            r@ == self.spec_name_upper(),
    {
        match self {
            SupportedPackages::PHP => "PHP",
            SupportedPackages::MySQL => "MYSQL",
            SupportedPackages::PHPMyAdmin => "PHPMYADMIN",
        }
    }

    /// Every supported package kind, in a fixed order.
    pub fn iter() -> (r: Vec<SupportedPackages>)
        ensures
            r@ =~= seq![
                SupportedPackages::PHP,
                SupportedPackages::MySQL,
                SupportedPackages::PHPMyAdmin,
            ],
    {
        let mut r: Vec<SupportedPackages> = Vec::new();
        r.push(SupportedPackages::PHP);
        r.push(SupportedPackages::MySQL);
        r.push(SupportedPackages::PHPMyAdmin);
        r
    }
}

/// The size text of a local archive: its length in whole megabytes.
pub open spec fn spec_size_mb_text(size_bytes: u64) -> Seq<char> {
    dec_digits((size_bytes / 1024 / 1024) as nat) + " MB"@
}

/// One version known to a registry: either a local archive on disk
/// (`offline`) or a remote address still to be downloaded.
pub struct Version {
    name: String,
    version: String,
    location: String,
    size: String,
    offline: bool,
}

/// The mathematical value of a `Version`.
pub ghost struct VersionV {
    pub name: Seq<char>,
    pub version: Seq<char>,
    pub location: Seq<char>,
    pub size: Seq<char>,
    pub offline: bool,
}

impl View for Version {
    type V = VersionV;

    closed spec fn view(&self) -> VersionV {
        VersionV {
            name: self.name@,
            version: self.version@,
            location: self.location@,
            size: self.size@,
            offline: self.offline,
        }
    }
}

impl Version {
    /// A version whose archive already lies on disk; its size text is
    /// computed from the file length in bytes.
    pub fn new_local(name: String, version: String, location: String, size_bytes: u64) -> (r:
        Version)
        ensures
            r@ == (VersionV {
                name: name@,
                version: version@,
                location: location@,
                size: spec_size_mb_text(size_bytes),
                offline: true,
            }),
    {
        let mut size = u64_to_dec(size_bytes / 1024 / 1024);
        size.append(" MB");
        Version { name, version, location, size, offline: true }
    }

    /// A version known only from the catalog; its location is a remote
    /// address and its size is whatever the catalog supplied.
    pub fn new_online(name: String, version: String, location: String, size: Option<String>) -> (r:
        Version)
        ensures
            r@.name == name@,
            r@.version == version@,
            r@.location == location@,
            r@.offline == false,
            match size {
                Some(s) => r@.size == s@,
                None => r@.size == "Unknown"@,
            },
    {
        let size = match size {
            Some(s) => s,
            None => "Unknown".to_owned(),
        };
        Version { name, version, location, size, offline: false }
    }

    pub fn get_name(&self) -> (r: &str)
        ensures
            r@ == self@.name,
    {
        self.name.as_str()
    }

    pub fn get_version(&self) -> (r: &str)
        ensures
            r@ == self@.version,
    {
        self.version.as_str()
    }

    pub fn get_location(&self) -> (r: &str)
        ensures
            r@ == self@.location,
    {
        self.location.as_str()
    }

    pub fn get_size(&self) -> (r: &str)
        ensures
            r@ == self@.size,
    {
        self.size.as_str()
    }

    pub fn is_offline(&self) -> (r: bool)
        ensures
            r == self@.offline,
    {
        self.offline
    }
}

/// Why an installation was refused or abandoned.
#[derive(Debug)]
pub enum AppInstallError {
    PathDoesNotExist(String),
    VersionNotAvailable(String),
    UnAvailableOffline,
    InstallFailed,
}

/// The mathematical value of an `AppInstallError`.
pub ghost enum AppInstallErrorV {
    PathDoesNotExist(Seq<char>),
    VersionNotAvailable(Seq<char>),
    UnAvailableOffline,
    InstallFailed,
}

impl View for AppInstallError {
    type V = AppInstallErrorV;

    open spec fn view(&self) -> AppInstallErrorV {
        match self {
            AppInstallError::PathDoesNotExist(p) => AppInstallErrorV::PathDoesNotExist(p@),
            AppInstallError::VersionNotAvailable(v) => AppInstallErrorV::VersionNotAvailable(v@),
            AppInstallError::UnAvailableOffline => AppInstallErrorV::UnAvailableOffline,
            AppInstallError::InstallFailed => AppInstallErrorV::InstallFailed,
        }
    }
}

/// The message text of an error.
pub open spec fn spec_error_message(e: AppInstallErrorV) -> Seq<char> {
    match e {
        AppInstallErrorV::PathDoesNotExist(p) => "Path "@ + p + " does not exist"@,
        AppInstallErrorV::VersionNotAvailable(v) => "Version "@ + v + " is not available"@,
        AppInstallErrorV::UnAvailableOffline => "Version is not available offline"@,
        AppInstallErrorV::InstallFailed => "Installation failed"@,
    }
}

impl AppInstallError {
    /// The human-readable description of the error.
    pub fn message(&self) -> (r: String)
        ensures
            r@ == spec_error_message(self@),
    {
        match self {
            AppInstallError::PathDoesNotExist(p) => {
                let mut s = "Path ".to_owned();
                s.append(p.as_str());
                s.append(" does not exist");
                s
            },
            AppInstallError::VersionNotAvailable(v) => {
                let mut s = "Version ".to_owned();
                s.append(v.as_str());
                s.append(" is not available");
                s
            },
            AppInstallError::UnAvailableOffline => "Version is not available offline".to_owned(),
            AppInstallError::InstallFailed => "Installation failed".to_owned(),
        }
    }
}

/// What a validated installation still has to do: extract `archive`
/// into `target`, reporting progress when asked to.
pub struct InstallJob {
    pub archive: String,
    pub target: String,
    pub with_progress: bool,
}

/// The mathematical value of an `InstallJob`.
pub ghost struct InstallJobV {
    pub archive: Seq<char>,
    pub target: Seq<char>,
    pub with_progress: bool,
}

impl View for InstallJob {
    type V = InstallJobV;

    open spec fn view(&self) -> InstallJobV {
        InstallJobV {
            archive: self.archive@,
            target: self.target@,
            with_progress: self.with_progress,
        }
    }
}

/// The installer's validation, as a function of the registry contents
/// and the already-answered path query: the version must be registered,
/// then the target must exist, then the version must be local; only
/// then is there a job to run.
pub open spec fn spec_install_plan(
    m: Map<Seq<char>, VersionV>,
    version: Seq<char>,
    target: Seq<char>,
    target_exists: bool,
    with_progress: bool,
) -> Result<InstallJobV, AppInstallErrorV> {
    if !m.contains_key(version) {
        Err(AppInstallErrorV::VersionNotAvailable(version))
    } else if !target_exists {
        Err(AppInstallErrorV::PathDoesNotExist(target))
    } else if !m[version].offline {
        Err(AppInstallErrorV::UnAvailableOffline)
    } else {
        Ok(InstallJobV { archive: m[version].location, target, with_progress })
    }
}

/// The version check comes before the path check: a version missing
/// from the registry is refused as unavailable whether or not the
/// target path exists.
pub proof fn lemma_version_check_precedes_path_check(
    m: Map<Seq<char>, VersionV>,
    version: Seq<char>,
    target: Seq<char>,
    target_exists: bool,
    with_progress: bool,
)
    requires
        !m.contains_key(version),
    ensures
        spec_install_plan(m, version, target, target_exists, with_progress) == Err::<
            InstallJobV,
            AppInstallErrorV,
        >(AppInstallErrorV::VersionNotAvailable(version)),
{
}

/// A registry of versions of one package kind, keyed by version string.
/// Inserting an existing version string replaces its record.
pub struct Package {
    name: SupportedPackages,
    versions: StringMap<Version>,
}

impl View for Package {
    type V = Map<Seq<char>, VersionV>;

    closed spec fn view(&self) -> Map<Seq<char>, VersionV> {
        self.versions@
    }
}

impl Package {
    pub closed spec fn wf(self) -> bool {
        self.versions.wf()
    }

    /// Which package kind this registry is for.
    pub closed spec fn kind(self) -> SupportedPackages {
        self.name
    }

    /// The version strings in insertion order.
    pub closed spec fn version_seq(self) -> Seq<Seq<char>> {
        self.versions.key_seq()
    }

    pub fn new(name: SupportedPackages) -> (r: Package)
        ensures
            r.wf(),
            r.kind() == name,
            r@ == Map::<Seq<char>, VersionV>::empty(),
            r.version_seq() == Seq::<Seq<char>>::empty(),
    {
        Package { name, versions: StringMap::new() }
    }

    pub fn get_name(&self) -> (r: &'static str)
        ensures
            r@ == self.kind().spec_name(),
    {
        self.name.get_name()
    }

    /// Inserts one version record, keyed by its version string; an
    /// existing record under that string is replaced.
    pub fn add_version(&mut self, version: Version)
        requires
            old(self).wf(),
        ensures
            final(self).wf(),
            final(self).kind() == old(self).kind(),
            final(self)@ == old(self)@.insert(version@.version, version@),
    {
        let key = version.get_version().to_owned();
        self.versions.insert(key, version);
    }

    pub fn get_version<'a>(&'a self, version: &str) -> (r: Option<&'a Version>)
        requires
            self.wf(),
        ensures
            match r {
                Some(v) => self@.contains_key(version@) && v@ == self@[version@],
                None => !self@.contains_key(version@),
            },
    {
        self.versions.get(version)
    }

    pub fn has_version(&self, version: &str) -> (r: bool)
        requires
            self.wf(),
        ensures
            r == self@.contains_key(version@),
    {
        self.versions.contains(version)
    }

    pub fn remove_version(&mut self, version: &str)
        requires
            old(self).wf(),
        ensures
            final(self).wf(),
            final(self).kind() == old(self).kind(),
            final(self)@ == old(self)@.remove(version@),
    {
        self.versions.remove(version);
    }

    /// The version strings with their records, in insertion order.
    pub fn iter<'a>(&'a self) -> (r: Vec<(&'a String, &'a Version)>)
        requires
            self.wf(),
        ensures
            r@.len() == self.version_seq().len(),
            forall|i: int|
                0 <= i < r@.len() ==> #[trigger] r@[i].0@ == self.version_seq()[i]
                    && self@.contains_key(self.version_seq()[i]) && r@[i].1@
                    == self@[self.version_seq()[i]],
    {
        self.versions.iter()
    }

    /// The version records, in insertion order of their version strings.
    pub fn vec<'a>(&'a self) -> (r: Vec<&'a Version>)
        requires
            self.wf(),
        ensures
            r@.len() == self.version_seq().len(),
            forall|i: int|
                0 <= i < r@.len() ==> self@.contains_key(#[trigger] self.version_seq()[i])
                    && r@[i]@ == self@[self.version_seq()[i]],
    {
        let r = self.versions.values();
        proof {
            assert forall|i: int|
                0 <= i < r@.len() implies self@.contains_key(#[trigger] self.version_seq()[i])
                && r@[i]@ == self@[self.version_seq()[i]] by {
                self.versions.lemma_wf_entries();
                crate::strmap::lemma_map_of_get(self.versions.entries(), i);
            }
        }
        r
    }

    /// Validates `version` against the registry, with the outcome of
    /// the target-path query supplied by the caller, and yields the
    /// extraction job exactly when every check passes.
    pub fn install_plan(
        &self,
        version: &str,
        target_path: &str,
        target_exists: bool,
        with_progress: bool,
    ) -> (r: Result<InstallJob, AppInstallError>)
        requires
            self.wf(),
        ensures
            match r {
                Ok(job) => spec_install_plan(
                    self@,
                    version@,
                    target_path@,
                    target_exists,
                    with_progress,
                ) == Ok::<InstallJobV, AppInstallErrorV>(job@),
                Err(e) => spec_install_plan(
                    self@,
                    version@,
                    target_path@,
                    target_exists,
                    with_progress,
                ) == Err::<InstallJobV, AppInstallErrorV>(e@),
            },
    {
        if !self.has_version(version) {
            return Err(AppInstallError::VersionNotAvailable(version.to_owned()));
        }
        if !target_exists {
            return Err(AppInstallError::PathDoesNotExist(target_path.to_owned()));
        }
        let info = match self.get_version(version) {
            Some(info) => info,
            None => {
                return Err(AppInstallError::VersionNotAvailable(version.to_owned()));
            },
        };
        if !info.is_offline() {
            return Err(AppInstallError::UnAvailableOffline);
        }
        Ok(
            InstallJob {
                archive: info.get_location().to_owned(),
                target: target_path.to_owned(),
                with_progress,
            },
        )
    }

    /// The installer entry point: checks the version, then asks the
    /// filesystem whether the target path exists, then checks that the
    /// version is local. On success the extraction job is handed back
    /// to be run; the registry itself never changes.
    pub fn install_version(&self, version: &str, target_path: &str, with_progress: bool) -> (r:
        Result<InstallJob, AppInstallError>)
        requires
            self.wf(),
        ensures
            !self@.contains_key(version@) ==> (r matches Err(e) && e@
                == AppInstallErrorV::VersionNotAvailable(version@)),
            r matches Ok(job) ==> self@.contains_key(version@) && self@[version@].offline && job@
                == (InstallJobV {
                archive: self@[version@].location,
                target: target_path@,
                with_progress,
            }),
            r matches Err(e) ==> match e@ {
                AppInstallErrorV::VersionNotAvailable(v) => v == version@ && !self@.contains_key(
                    version@,
                ),
                AppInstallErrorV::PathDoesNotExist(p) => p == target_path@ && self@.contains_key(
                    version@,
                ),
                AppInstallErrorV::UnAvailableOffline => self@.contains_key(version@)
                    && !self@[version@].offline,
                AppInstallErrorV::InstallFailed => false,
            },
    {
        if !self.has_version(version) {
            return Err(AppInstallError::VersionNotAvailable(version.to_owned()));
        }
        let target_exists = path_exists(target_path);
        self.install_plan(version, target_path, target_exists, with_progress)
    }
}

// ---------------------------------------------------------------------
// Scanning the download directory for local versions
// ---------------------------------------------------------------------

/// The file-name component of a path: what follows the last `/`.
pub open spec fn spec_base_name(path: Seq<char>) -> Seq<char> {
    if has_char(path, '/') {
        path.skip(last_ix(path, '/') + 1)
    } else {
        path
    }
}

/// The extension of a file name: what follows the last `.`, except that
/// a dot in the leading position marks a hidden file, not an extension.
pub open spec fn spec_extension(name: Seq<char>) -> Option<Seq<char>> {
    if has_char(name, '.') && last_ix(name, '.') > 0 {
        Some(name.skip(last_ix(name, '.') + 1))
    } else {
        None
    }
}

/// The version token of a file name: what stands between the first
/// hyphen and the second, or the end of the name.
pub open spec fn spec_version_token(name: Seq<char>) -> Seq<char>
    recommends
        has_char(name, '-'),
{
    let rest = name.skip(first_ix(name, '-') + 1);
    if has_char(rest, '-') {
        rest.take(first_ix(rest, '-'))
    } else {
        rest
    }
}

/// The version encoded in an archive file name of the form
/// `<package>-<version>.<ext>`: the token after the first hyphen, with
/// the extension suffix stripped from its end. A name without a hyphen
/// or without an extension encodes no version.
pub open spec fn spec_version_of_filename(path: Seq<char>) -> Option<Seq<char>> {
    let name = spec_base_name(path);
    match spec_extension(name) {
        None => None,
        Some(ext) => {
            if !has_char(name, '-') {
                None
            } else {
                let tok = spec_version_token(name);
                let suffix = seq!['.'] + ext;
                if is_suffix_of(suffix, tok) {
                    Some(tok.take(tok.len() - suffix.len()))
                } else {
                    Some(tok)
                }
            }
        },
    }
}

/// Extracts the version from an archive file name, as
/// `spec_version_of_filename` describes it.
#[verifier::rlimit(50)]
pub fn parse_version_filename(path: &str) -> (r: Option<String>)
    ensures
        match r {
            Some(v) => spec_version_of_filename(path@) == Some(v@),
            None => spec_version_of_filename(path@) is None,
        },
{
    let n = path.unicode_len();
    let name: &str = match rfind_char(path, '/') {
        Some(i) => {
            proof {
                lemma_last_ix_unique(path@, '/', i as int);
            }
            path.substring_char(i + 1, n)
        },
        None => path,
    };
    proof {
        assert(name@ =~= spec_base_name(path@));
    }
    let nn = name.unicode_len();
    let dash: usize = match find_char(name, '-') {
        Some(d) => {
            proof {
                lemma_first_ix_unique(name@, '-', d as int);
            }
            d
        },
        None => {
            return None;
        },
    };
    let dot: usize = match rfind_char(name, '.') {
        Some(d) => {
            proof {
                lemma_last_ix_unique(name@, '.', d as int);
            }
            d
        },
        None => {
            return None;
        },
    };
    if dot == 0 {
        return None;
    }
    let ext = name.substring_char(dot + 1, nn);
    let rest = name.substring_char(dash + 1, nn);
    proof {
        assert(rest@ =~= name@.skip(dash + 1));
    }
    let tok: &str = match find_char(rest, '-') {
        Some(j) => {
            proof {
                lemma_first_ix_unique(rest@, '-', j as int);
            }
            rest.substring_char(0, j)
        },
        None => rest,
    };
    proof {
        assert(tok@ =~= spec_version_token(name@));
    }
    let mut suffix = ".".to_owned();
    suffix.append(ext);
    proof {
        reveal_strlit(".");
        assert(suffix@ =~= seq!['.'] + name@.skip(dot + 1));
    }
    let tl = tok.unicode_len();
    let sl = suffix.as_str().unicode_len();
    if ends_with(tok, suffix.as_str()) {
        let ver = tok.substring_char(0, tl - sl);
        proof {
            assert(ver@ =~= tok@.take(tok@.len() - suffix@.len()));
        }
        Some(ver.to_owned())
    } else {
        Some(tok.to_owned())
    }
}

/// The extension of the file a path names, as
/// `spec_extension(spec_base_name(path))` describes it.
pub fn extension_of(path: &str) -> (r: Option<String>)
    ensures
        match r {
            Some(ext) => spec_extension(spec_base_name(path@)) == Some(ext@),
            None => spec_extension(spec_base_name(path@)) is None,
        },
{
    let n = path.unicode_len();
    let name: &str = match rfind_char(path, '/') {
        Some(i) => {
            proof {
                lemma_last_ix_unique(path@, '/', i as int);
            }
            path.substring_char(i + 1, n)
        },
        None => path,
    };
    proof {
        assert(name@ =~= spec_base_name(path@));
    }
    let nn = name.unicode_len();
    match rfind_char(name, '.') {
        Some(d) => {
            proof {
                lemma_last_ix_unique(name@, '.', d as int);
            }
            if d == 0 {
                None
            } else {
                let ext = name.substring_char(d + 1, nn);
                proof {
                    assert(ext@ =~= name@.skip(d + 1));
                }
                Some(ext.to_owned())
            }
        },
        None => None,
    }
}

/// Parsing recovers the version from an archive name built the way the
/// downloader names its files: for a non-empty package name and a
/// version both free of hyphens and separators, and a non-empty
/// extension free of dots, hyphens and separators,
/// `<pkg>-<version>.<ext>` parses back to exactly that version — so a
/// downloaded archive is found again as a local version on the next
/// scan. (A version string that itself holds a hyphen, such as
/// `8-beta`, is cut at it by the naming convention and stands outside
/// this law.)
#[verifier::rlimit(80)]
pub proof fn lemma_filename_version_round_trip(pkg: Seq<char>, version: Seq<char>, ext: Seq<char>)
    requires
        pkg.len() > 0,
        !has_char(pkg, '/'),
        !has_char(pkg, '-'),
        !has_char(version, '/'),
        !has_char(version, '-'),
        ext.len() > 0,
        !has_char(ext, '/'),
        !has_char(ext, '-'),
        !has_char(ext, '.'),
    ensures
        spec_version_of_filename(pkg + "-"@ + version + "."@ + ext) == Some(version),
{
    reveal_strlit("-");
    reveal_strlit(".");
    let name = pkg + "-"@ + version + "."@ + ext;
    let pl = pkg.len() as int;
    let vl = version.len() as int;
    let el = ext.len() as int;
    assert(name.len() == pl + 1 + vl + 1 + el);
    assert forall|j: int| 0 <= j < name.len() implies name[j] == (if j < pl {
        pkg[j]
    } else if j == pl {
        '-'
    } else if j < pl + 1 + vl {
        version[j - pl - 1]
    } else if j == pl + 1 + vl {
        '.'
    } else {
        ext[j - pl - 2 - vl]
    }) by {}
    // no separator occurs, so the name is its own base name
    assert(!has_char(name, '/')) by {
        if has_char(name, '/') {
            let j = choose|j: int| 0 <= j < name.len() && name[j] == '/';
            if j < pl {
                assert(has_char(pkg, '/'));
            } else if pl < j < pl + 1 + vl {
                assert(has_char(version, '/'));
            } else if j > pl + 1 + vl {
                assert(has_char(ext, '/'));
            }
        }
    }
    assert(spec_base_name(name) == name);
    // the first hyphen is the separator after the package name
    assert(name[pl] == '-');
    assert(has_char(name, '-'));
    assert forall|j: int| 0 <= j < pl implies name[j] != '-' by {
        if pkg[j] == '-' {
            assert(has_char(pkg, '-'));
        }
    }
    lemma_first_ix_unique(name, '-', pl);
    // the last dot is the separator before the extension
    let d = pl + 1 + vl;
    assert(name[d] == '.');
    assert(has_char(name, '.'));
    assert forall|j: int| d < j < name.len() implies name[j] != '.' by {
        if ext[j - pl - 2 - vl] == '.' {
            assert(has_char(ext, '.'));
        }
    }
    lemma_last_ix_unique(name, '.', d);
    assert(name.skip(d + 1) =~= ext);
    // the version token runs from the hyphen to the end of the name
    let rest = name.skip(pl + 1);
    assert(rest =~= version + "."@ + ext);
    assert(!has_char(rest, '-')) by {
        if has_char(rest, '-') {
            let j = choose|j: int| 0 <= j < rest.len() && rest[j] == '-';
            assert(rest[j] == name[j + pl + 1]);
            if j < vl {
                assert(has_char(version, '-'));
            } else if j > vl {
                assert(has_char(ext, '-'));
            }
        }
    }
    assert(spec_version_token(name) == rest);
    // the extension suffix is stripped from the token's end
    let suffix = seq!['.'] + ext;
    assert(rest.skip(rest.len() - suffix.len()) =~= suffix);
    assert(is_suffix_of(suffix, rest));
    assert(rest.take(rest.len() - suffix.len()) =~= version);
}

/// One file found in a download directory: its full path and its
/// length in bytes.
pub struct LocalFile {
    pub path: String,
    pub size_bytes: u64,
}

/// The mathematical value of a `LocalFile`.
pub ghost struct LocalFileV {
    pub path: Seq<char>,
    pub size_bytes: u64,
}

impl View for LocalFile {
    type V = LocalFileV;

    open spec fn view(&self) -> LocalFileV {
        LocalFileV { path: self.path@, size_bytes: self.size_bytes }
    }
}

/// The views of a sequence of scanned files.
pub open spec fn file_views(s: Seq<LocalFile>) -> Seq<LocalFileV> {
    s.map_values(|f: LocalFile| f@)
}

/// The views of a sequence of version records.
pub open spec fn version_views(s: Seq<Version>) -> Seq<VersionV> {
    s.map_values(|v: Version| v@)
}

/// The version record one scanned archive yields.
pub open spec fn spec_local_version(pkg: Seq<char>, ver: Seq<char>, f: LocalFileV) -> VersionV {
    VersionV {
        name: pkg,
        version: ver,
        location: f.path,
        size: spec_size_mb_text(f.size_bytes),
        offline: true,
    }
}

/// The local versions a directory scan yields, in scan order: one per
/// file whose name encodes a version.
pub open spec fn spec_local_versions(pkg: Seq<char>, files: Seq<LocalFileV>) -> Seq<VersionV>
    decreases files.len(),
{
    if files.len() == 0 {
        Seq::empty()
    } else {
        spec_local_versions(pkg, files.drop_last()) + (match spec_version_of_filename(
            files.last().path,
        ) {
            Some(v) => seq![spec_local_version(pkg, v, files.last())],
            None => Seq::empty(),
        })
    }
}

/// The paths of the scanned files whose names encode no version, in
/// scan order.
pub open spec fn spec_unrecognized(files: Seq<LocalFileV>) -> Seq<Seq<char>>
    decreases files.len(),
{
    if files.len() == 0 {
        Seq::empty()
    } else {
        spec_unrecognized(files.drop_last()) + (match spec_version_of_filename(
            files.last().path,
        ) {
            Some(_) => Seq::empty(),
            None => seq![files.last().path],
        })
    }
}

/// What a scan of a download directory found: the versions encoded in
/// well-formed archive names, and the paths whose names fit no version,
/// reported rather than silently skipped.
pub struct LocalScan {
    pub versions: Vec<Version>,
    pub unrecognized: Vec<String>,
}

/// Builds version records from scanned files: a pure function of the
/// directory contents.
pub fn local_versions_from(pkg_name: &str, files: &Vec<LocalFile>) -> (r: LocalScan)
    ensures
        version_views(r.versions@) == spec_local_versions(pkg_name@, file_views(files@)),
        r.unrecognized.deep_view() == spec_unrecognized(file_views(files@)),
{
    let n = files.len();
    let mut versions: Vec<Version> = Vec::new();
    let mut unrecognized: Vec<String> = Vec::new();
    let mut i: usize = 0;
    while i < n
        invariant
            i <= n,
            n == files@.len(),
            version_views(versions@) == spec_local_versions(pkg_name@, file_views(files@).take(
                i as int,
            )),
            unrecognized.deep_view() == spec_unrecognized(file_views(files@).take(i as int)),
        decreases n - i,
    {
        proof {
            assert(file_views(files@).take(i + 1).drop_last() =~= file_views(files@).take(
                i as int,
            ));
            assert(file_views(files@).take(i + 1).last() == files@[i as int]@);
        }
        let path = files[i].path.clone();
        match parse_version_filename(path.as_str()) {
            Some(ver) => {
                let v = Version::new_local(
                    pkg_name.to_owned(),
                    ver,
                    path,
                    files[i].size_bytes,
                );
                versions.push(v);
                proof {
                    assert(version_views(versions@) =~= spec_local_versions(
                        pkg_name@,
                        file_views(files@).take(i + 1),
                    ));
                    assert(unrecognized.deep_view() =~= spec_unrecognized(
                        file_views(files@).take(i + 1),
                    ));
                }
            },
            None => {
                unrecognized.push(path);
                proof {
                    assert(version_views(versions@) =~= spec_local_versions(
                        pkg_name@,
                        file_views(files@).take(i + 1),
                    ));
                    assert(unrecognized.deep_view() =~= spec_unrecognized(
                        file_views(files@).take(i + 1),
                    ));
                }
            },
        }
        i = i + 1;
    }
    proof {
        assert(file_views(files@).take(n as int) =~= file_views(files@));
    }
    LocalScan { versions, unrecognized }
}

impl SupportedPackages {
    /// Scans this package's download directory and yields the local
    /// versions its archive names encode, or nothing when the home
    /// directory is unknown or the directory cannot be read. The
    /// records are a pure function of the files the scan found.
    pub fn get_local_versions(&self) -> (r: Option<LocalScan>)
        ensures
            r matches Some(scan) ==> exists|files: Seq<LocalFileV>|
                version_views(scan.versions@) == spec_local_versions(self.spec_name(), files)
                    && scan.unrecognized.deep_view() == spec_unrecognized(files),
    {
        let dir = match get_download_dir(self.get_name_lower()) {
            Some(d) => d,
            None => {
                return None;
            },
        };
        let entries = match list_files_in_dir(dir.as_str()) {
            Some(e) => e,
            None => {
                return None;
            },
        };
        let mut files: Vec<LocalFile> = Vec::new();
        let mut i: usize = 0;
        while i < entries.len()
            decreases entries.len() - i,
        {
            let path = entries[i].clone();
            let size_bytes = match file_len(path.as_str()) {
                Some(s) => s,
                None => 0,
            };
            files.push(LocalFile { path, size_bytes });
            i = i + 1;
        }
        let scan = local_versions_from(self.get_name(), &files);
        proof {
            let files_v = file_views(files@);
            assert(version_views(scan.versions@) == spec_local_versions(
                self.spec_name(),
                files_v,
            ));
        }
        Some(scan)
    }
}

// ---------------------------------------------------------------------
// Bulk insertion and its laws
// ---------------------------------------------------------------------

/// Inserting a sequence of version records into a registry map, first
/// to last, each keyed by its version string.
pub open spec fn add_all(m: Map<Seq<char>, VersionV>, vs: Seq<VersionV>) -> Map<
    Seq<char>,
    VersionV,
>
    decreases vs.len(),
{
    if vs.len() == 0 {
        m
    } else {
        add_all(m.insert(vs[0].version, vs[0]), vs.drop_first())
    }
}

proof fn lemma_add_all_push(m: Map<Seq<char>, VersionV>, vs: Seq<VersionV>, x: VersionV)
    ensures
        add_all(m, vs.push(x)) == add_all(m, vs).insert(x.version, x),
    decreases vs.len(),
{
    if vs.len() == 0 {
        assert(vs.push(x)[0] == x);
        assert(vs.push(x).drop_first() =~= Seq::<VersionV>::empty());
        assert(add_all(m, vs.push(x)) == add_all(
            m.insert(x.version, x),
            vs.push(x).drop_first(),
        ));
        assert(add_all(m.insert(x.version, x), Seq::<VersionV>::empty()) == m.insert(
            x.version,
            x,
        ));
    } else {
        assert(vs.push(x)[0] == vs[0]);
        assert(vs.push(x).drop_first() =~= vs.drop_first().push(x));
        lemma_add_all_push(m.insert(vs[0].version, vs[0]), vs.drop_first(), x);
    }
}

/// Whether some record in `vs` carries the version string `k`.
pub open spec fn has_vkey(vs: Seq<VersionV>, k: Seq<char>) -> bool {
    exists|i: int| 0 <= i < vs.len() && vs[i].version == k
}

/// The index of the last record carrying `k`; meaningful only when
/// `has_vkey(vs, k)` holds.
pub open spec fn last_vkey(vs: Seq<VersionV>, k: Seq<char>) -> int {
    choose|i: int|
        0 <= i < vs.len() && vs[i].version == k && (forall|j: int|
            i < j < vs.len() ==> vs[j].version != k)
}

proof fn lemma_last_vkey_from(vs: Seq<VersionV>, k: Seq<char>, w: int)
    requires
        0 <= w < vs.len(),
        vs[w].version == k,
    ensures
        exists|i: int|
            0 <= i < vs.len() && vs[i].version == k && (forall|j: int|
                i < j < vs.len() ==> vs[j].version != k),
    decreases vs.len() - w,
{
    if exists|j: int| w < j < vs.len() && vs[j].version == k {
        let w2 = choose|j: int| w < j < vs.len() && vs[j].version == k;
        lemma_last_vkey_from(vs, k, w2);
    } else {
        assert(0 <= w < vs.len() && vs[w].version == k && (forall|j: int|
            w < j < vs.len() ==> vs[j].version != k));
    }
}

proof fn lemma_last_vkey(vs: Seq<VersionV>, k: Seq<char>)
    requires
        has_vkey(vs, k),
    ensures
        0 <= last_vkey(vs, k) < vs.len(),
        vs[last_vkey(vs, k)].version == k,
        forall|j: int| last_vkey(vs, k) < j < vs.len() ==> vs[j].version != k,
{
    let w = choose|i: int| 0 <= i < vs.len() && vs[i].version == k;
    lemma_last_vkey_from(vs, k, w);
}

proof fn lemma_last_vkey_unique(vs: Seq<VersionV>, k: Seq<char>, i: int)
    requires
        0 <= i < vs.len(),
        vs[i].version == k,
        forall|j: int| i < j < vs.len() ==> vs[j].version != k,
    ensures
        last_vkey(vs, k) == i,
{
    assert(has_vkey(vs, k));
    lemma_last_vkey(vs, k);
}

/// What `add_all` leaves under one key: the last record carrying that
/// key, or whatever the starting map had.
proof fn lemma_add_all_point(m: Map<Seq<char>, VersionV>, vs: Seq<VersionV>, k: Seq<char>)
    ensures
        has_vkey(vs, k) ==> add_all(m, vs).contains_key(k) && add_all(m, vs)[k] == vs[last_vkey(
            vs,
            k,
        )],
        !has_vkey(vs, k) ==> add_all(m, vs).contains_key(k) == m.contains_key(k) && (
        m.contains_key(k) ==> add_all(m, vs)[k] == m[k]),
    decreases vs.len(),
{
    if vs.len() > 0 {
        let m1 = m.insert(vs[0].version, vs[0]);
        let rest = vs.drop_first();
        lemma_add_all_point(m1, rest, k);
        if has_vkey(rest, k) {
            lemma_last_vkey(rest, k);
            let l = last_vkey(rest, k);
            assert(rest[l] == vs[l + 1]);
            assert forall|j: int| l + 1 < j < vs.len() implies vs[j].version != k by {
                assert(rest[j - 1] == vs[j]);
            }
            lemma_last_vkey_unique(vs, k, l + 1);
        } else if vs[0].version == k {
            assert forall|j: int| 0 < j < vs.len() implies vs[j].version != k by {
                if vs[j].version == k {
                    assert(rest[j - 1] == vs[j]);
                }
            }
            lemma_last_vkey_unique(vs, k, 0);
        } else {
            if has_vkey(vs, k) {
                let j = choose|i: int| 0 <= i < vs.len() && vs[i].version == k;
                assert(rest[j - 1] == vs[j]);
            }
        }
    }
}

/// Loading the same scanned versions into a registry twice leaves the
/// registry exactly as loading them once does: the records are a pure
/// function of the directory contents, so a re-scan of an unchanged
/// directory changes nothing.
pub proof fn lemma_add_all_idempotent(m: Map<Seq<char>, VersionV>, vs: Seq<VersionV>)
    ensures
        add_all(add_all(m, vs), vs) == add_all(m, vs),
{
    let m1 = add_all(m, vs);
    let m2 = add_all(m1, vs);
    assert forall|k: Seq<char>| #[trigger] m1.dom().contains(k) implies m2.dom().contains(k)
        && m2[k] == m1[k] by {
        lemma_add_all_point(m, vs, k);
        lemma_add_all_point(m1, vs, k);
    }
    assert forall|k: Seq<char>| #[trigger] m2.dom().contains(k) implies m1.dom().contains(
        k,
    ) by {
        lemma_add_all_point(m, vs, k);
        lemma_add_all_point(m1, vs, k);
    }
    assert(m2.dom() =~= m1.dom());
    assert(m2 =~= m1);
}

impl Package {
    /// Inserts every record of `versions`, first to last, each keyed by
    /// its version string; a later record replaces an earlier one with
    /// the same version string.
    pub fn add_versions(&mut self, versions: Vec<Version>)
        requires
            old(self).wf(),
        ensures
            final(self).wf(),
            final(self).kind() == old(self).kind(),
            final(self)@ == add_all(old(self)@, version_views(versions@)),
    {
        let ghost all = version_views(versions@);
        let mut versions = versions;
        let ghost done: int = 0;
        while versions.len() > 0
            invariant
                self.wf(),
                self.kind() == old(self).kind(),
                0 <= done <= all.len(),
                version_views(versions@) =~= all.skip(done),
                self@ == add_all(old(self)@, all.take(done)),
            decreases versions@.len(),
        {
            let ghost prev = versions@;
            let v = versions.remove(0);
            proof {
                assert(version_views(prev).len() == prev.len());
                assert(all.skip(done).len() == all.len() - done);
                assert(done < all.len());
                assert(v@ == version_views(prev)[0]);
                assert(v@ == all[done]);
                lemma_add_all_push(old(self)@, all.take(done), all[done]);
                assert(all.take(done).push(all[done]) =~= all.take(done + 1));
                assert forall|j: int| 0 <= j < versions@.len() implies version_views(versions@)[j]
                    == all.skip(done + 1)[j] by {
                    assert(versions@[j] == prev[j + 1]);
                    assert(version_views(prev)[j + 1] == prev[j + 1]@);
                }
                assert(version_views(versions@) =~= all.skip(done + 1));
            }
            self.add_version(v);
            proof {
                done = done + 1;
            }
        }
        proof {
            assert(all.take(done) =~= all);
        }
    }

    /// Scans the package's download directory and inserts every local
    /// version found there, reporting the file names that encode no
    /// version; yields nothing (and changes nothing) when the scan
    /// itself was impossible.
    pub fn load_local_versions(&mut self) -> (r: Option<Vec<String>>)
        requires
            old(self).wf(),
        ensures
            final(self).wf(),
            final(self).kind() == old(self).kind(),
            r is None ==> final(self)@ == old(self)@,
            r matches Some(unrecognized) ==> exists|files: Seq<LocalFileV>|
                final(self)@ == add_all(
                    old(self)@,
                    spec_local_versions(old(self).kind().spec_name(), files),
                ) && unrecognized.deep_view() == spec_unrecognized(files),
    {
        let kind = self.name;
        match kind.get_local_versions() {
            None => None,
            Some(scan) => {
                self.add_versions(scan.versions);
                Some(scan.unrecognized)
            },
        }
    }
}

} // verus!
