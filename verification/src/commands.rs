//! The command layer's decisions: classifying the host platform,
//! building the version tables that `list` shows (sorted newest first),
//! and planning the downloads that `get` performs. Reading the
//! environment, fetching the catalog and moving the bytes stay outside
//! the library; everything here is a function of the values handed in.

use vstd::multiset::Multiset;
use vstd::prelude::*;

use crate::api::ReleaseInfoV;
use crate::api::Releases;
use crate::api::ToolVersions;
use crate::file::download_dir_under;
use crate::file::path_exists;
use crate::file::spec_download_path;
use crate::file::DownloadInfo;
use crate::file::DownloadInfoV;
use crate::package::extension_of;
use crate::package::spec_base_name;
use crate::package::spec_extension;
use crate::package::SupportedPackages;
use crate::package::Version;
use crate::text::lemma_lex_lt_asymmetric;
use crate::text::lemma_lex_lt_transitive;
use crate::text::lex_lt;
use crate::text::str_eq_chars;
use crate::text::str_lt;

verus! {

// ---------------------------------------------------------------------
// Sorting version tables, newest first
// ---------------------------------------------------------------------

/// A table row is sorted by its first column, the version string.
/// Descending means no later row's key comes lexicographically after an
/// earlier row's key.
pub open spec fn sorted_desc(s: Seq<(Seq<char>, Seq<char>)>) -> bool {
    forall|i: int, j: int| 0 <= i < j < s.len() ==> !lex_lt(s[i].0, s[j].0)
}

/// Inserting a row into a descending-sorted sequence: it goes in front
/// of the first row whose key is strictly smaller, and after rows with
/// an equal key, so equal keys keep their relative order.
pub open spec fn insert_desc(
    s: Seq<(Seq<char>, Seq<char>)>,
    x: (Seq<char>, Seq<char>),
) -> Seq<(Seq<char>, Seq<char>)>
    decreases s.len(),
{
    if s.len() == 0 {
        seq![x]
    } else if lex_lt(s[0].0, x.0) {
        seq![x] + s
    } else {
        seq![s[0]] + insert_desc(s.drop_first(), x)
    }
}

/// Sorting a table by descending version key: insertion sort, stable
/// for rows with equal keys.
pub open spec fn sort_desc(s: Seq<(Seq<char>, Seq<char>)>) -> Seq<(Seq<char>, Seq<char>)>
    decreases s.len(),
{
    if s.len() == 0 {
        Seq::empty()
    } else {
        insert_desc(sort_desc(s.drop_last()), s.last())
    }
}

proof fn lemma_insert_desc_multiset(s: Seq<(Seq<char>, Seq<char>)>, x: (Seq<char>, Seq<char>))
    ensures
        insert_desc(s, x).len() == s.len() + 1,
        insert_desc(s, x).to_multiset() == s.to_multiset().insert(x),
    decreases s.len(),
{
    broadcast use vstd::seq_lib::group_to_multiset_ensures;

    if s.len() == 0 {
        assert(insert_desc(s, x) =~= Seq::<(Seq<char>, Seq<char>)>::empty().push(x));
        assert(s.to_multiset() =~= Multiset::<(Seq<char>, Seq<char>)>::empty());
    } else if lex_lt(s[0].0, x.0) {
        vstd::seq_lib::lemma_multiset_commutative(seq![x], s);
        assert(s + seq![x] =~= s.push(x));
    } else {
        lemma_insert_desc_multiset(s.drop_first(), x);
        let t = insert_desc(s.drop_first(), x);
        vstd::seq_lib::lemma_multiset_commutative(seq![s[0]], t);
        assert(t + seq![s[0]] =~= t.push(s[0]));
        assert(s =~= seq![s[0]] + s.drop_first());
        vstd::seq_lib::lemma_multiset_commutative(seq![s[0]], s.drop_first());
        assert(s.drop_first() + seq![s[0]] =~= s.drop_first().push(s[0]));
        assert((seq![s[0]] + t).to_multiset() =~= s.drop_first().to_multiset().insert(
            x,
        ).insert(s[0]));
        assert(s.to_multiset().insert(x) =~= s.drop_first().to_multiset().insert(s[0]).insert(
            x,
        ));
        assert(s.drop_first().to_multiset().insert(x).insert(s[0])
            =~= s.drop_first().to_multiset().insert(s[0]).insert(x));
    }
}

proof fn lemma_insert_desc_sorted(s: Seq<(Seq<char>, Seq<char>)>, x: (Seq<char>, Seq<char>))
    requires
        sorted_desc(s),
    ensures
        sorted_desc(insert_desc(s, x)),
    decreases s.len(),
{
    broadcast use vstd::seq_lib::group_to_multiset_ensures;

    if s.len() == 0 {
    } else if lex_lt(s[0].0, x.0) {
        let r = seq![x] + s;
        assert forall|i: int, j: int| 0 <= i < j < r.len() implies !lex_lt(r[i].0, r[j].0) by {
            if i == 0 {
                assert(r[j] == s[j - 1]);
                if j == 1 {
                    lemma_lex_lt_asymmetric(s[0].0, x.0);
                } else {
                    assert(!lex_lt(s[0].0, s[j - 1].0));
                    if lex_lt(x.0, s[j - 1].0) {
                        lemma_lex_lt_transitive(s[0].0, x.0, s[j - 1].0);
                    }
                }
            } else {
                assert(r[i] == s[i - 1] && r[j] == s[j - 1]);
            }
        }
    } else {
        assert(sorted_desc(s.drop_first())) by {
            assert(forall|i: int|
                0 <= i < s.drop_first().len() ==> s.drop_first()[i] == s[i + 1]);
        }
        lemma_insert_desc_sorted(s.drop_first(), x);
        lemma_insert_desc_multiset(s.drop_first(), x);
        let t = insert_desc(s.drop_first(), x);
        let r = seq![s[0]] + t;
        assert forall|i: int, j: int| 0 <= i < j < r.len() implies !lex_lt(r[i].0, r[j].0) by {
            if i == 0 {
                assert(r[j] == t[j - 1]);
                assert(t.contains(t[j - 1]));
                assert(t.to_multiset().contains(t[j - 1]));
                assert(s.drop_first().to_multiset().insert(x).contains(t[j - 1]));
                if t[j - 1] == x {
                    // the new row's key is not above the head's
                } else {
                    assert(s.drop_first().to_multiset().contains(t[j - 1]));
                    assert(s.drop_first().contains(t[j - 1]));
                    let w = choose|w: int|
                        0 <= w < s.drop_first().len() && s.drop_first()[w] == t[j - 1];
                    assert(s[w + 1] == t[j - 1]);
                    assert(!lex_lt(s[0].0, s[w + 1].0));
                }
            } else {
                assert(r[i] == t[i - 1] && r[j] == t[j - 1]);
            }
        }
    }
}

/// The sorted table: the same rows, in descending key order.
pub proof fn lemma_sort_desc_permutes(s: Seq<(Seq<char>, Seq<char>)>)
    ensures
        sorted_desc(sort_desc(s)),
        sort_desc(s).len() == s.len(),
        sort_desc(s).to_multiset() == s.to_multiset(),
    decreases s.len(),
{
    broadcast use vstd::seq_lib::group_to_multiset_ensures;

    if s.len() > 0 {
        lemma_sort_desc_permutes(s.drop_last());
        lemma_insert_desc_sorted(sort_desc(s.drop_last()), s.last());
        lemma_insert_desc_multiset(sort_desc(s.drop_last()), s.last());
        assert(s.drop_last().push(s.last()) =~= s);
    }
}

proof fn lemma_insert_desc_at_end(s: Seq<(Seq<char>, Seq<char>)>, x: (Seq<char>, Seq<char>))
    requires
        forall|i: int| 0 <= i < s.len() ==> !lex_lt(s[i].0, x.0),
    ensures
        insert_desc(s, x) == s.push(x),
    decreases s.len(),
{
    if s.len() == 0 {
        assert(insert_desc(s, x) =~= s.push(x));
    } else {
        assert(forall|i: int| 0 <= i < s.drop_first().len() ==> s.drop_first()[i] == s[i + 1]);
        lemma_insert_desc_at_end(s.drop_first(), x);
        assert(seq![s[0]] + s.drop_first().push(x) =~= s.push(x));
    }
}

/// Sorting a sequence that is already in descending order gives it
/// back unchanged.
pub proof fn lemma_sort_desc_of_sorted(s: Seq<(Seq<char>, Seq<char>)>)
    requires
        sorted_desc(s),
    ensures
        sort_desc(s) == s,
    decreases s.len(),
{
    if s.len() > 0 {
        assert(sorted_desc(s.drop_last())) by {
            assert(forall|i: int| 0 <= i < s.drop_last().len() ==> s.drop_last()[i] == s[i]);
        }
        lemma_sort_desc_of_sorted(s.drop_last());
        assert(forall|i: int|
            0 <= i < s.drop_last().len() ==> !lex_lt(s.drop_last()[i].0, s.last().0));
        lemma_insert_desc_at_end(s.drop_last(), s.last());
        assert(s.drop_last().push(s.last()) =~= s);
    }
}

/// Sorting is idempotent: the descending order is total (any two keys
/// compare, by `lemma_lex_lt_connected`), so sorting a sorted table
/// again yields the very same sequence.
pub proof fn lemma_sort_desc_idempotent(s: Seq<(Seq<char>, Seq<char>)>)
    ensures
        sort_desc(sort_desc(s)) == sort_desc(s),
{
    lemma_sort_desc_permutes(s);
    lemma_sort_desc_of_sorted(sort_desc(s));
}

/// Sorts table rows by version string, newest (largest) first. Rows
/// with equal version strings keep their relative order.
pub fn sort_rows_desc(rows: &Vec<(String, String)>) -> (r: Vec<(String, String)>)
    ensures
        r.deep_view() == sort_desc(rows.deep_view()),
{
    let n = rows.len();
    let mut r: Vec<(String, String)> = Vec::new();
    let mut i: usize = 0;
    while i < n
        invariant
            i <= n,
            n == rows@.len(),
            r.deep_view() == sort_desc(rows.deep_view().take(i as int)),
        decreases n - i,
    {
        proof {
            assert(rows.deep_view().take(i + 1).drop_last() =~= rows.deep_view().take(i as int));
            assert(rows.deep_view().take(i + 1).last() == rows.deep_view()[i as int]);
            assert(rows.deep_view()[i as int] == (rows@[i as int].0@, rows@[i as int].1@));
        }
        let row = (rows[i].0.clone(), rows[i].1.clone());
        let m = r.len();
        let mut j: usize = 0;
        loop
            invariant_except_break
                j <= m,
                m == r@.len(),
                r.deep_view().len() == m,
                forall|k: int| 0 <= k < j ==> !lex_lt(r.deep_view()[k].0, row.0@),
                forall|k: int| 0 <= k < m ==> r.deep_view()[k] == (r@[k].0@, r@[k].1@),
            ensures
                j <= m,
                m == r@.len(),
                forall|k: int| 0 <= k < j ==> !lex_lt(r.deep_view()[k].0, row.0@),
                j < m ==> lex_lt(r.deep_view()[j as int].0, row.0@),
            decreases m - j,
        {
            if j == m {
                break ;
            }
            if str_lt(r[j].0.as_str(), row.0.as_str()) {
                assert(r.deep_view()[j as int].0 == r@[j as int].0@);
                break ;
            }
            j = j + 1;
        }
        proof {
            lemma_insert_desc_split(r.deep_view(), row.deep_view(), j as int);
            assert(row.deep_view() == (row.0@, row.1@));
        }
        r.insert(j, row);
        proof {
            assert(r.deep_view() =~= sort_desc(rows.deep_view().take(i + 1)));
        }
        i = i + 1;
    }
    proof {
        assert(rows.deep_view().take(n as int) =~= rows.deep_view());
    }
    r
}

/// Where the scan of the insertion sort stops is where `insert_desc`
/// puts the new row.
proof fn lemma_insert_desc_split(
    s: Seq<(Seq<char>, Seq<char>)>,
    x: (Seq<char>, Seq<char>),
    j: int,
)
    requires
        0 <= j <= s.len(),
        forall|k: int| 0 <= k < j ==> !lex_lt(s[k].0, x.0),
        j < s.len() ==> lex_lt(s[j].0, x.0),
    ensures
        insert_desc(s, x) == s.take(j) + seq![x] + s.skip(j),
    decreases j,
{
    if j == 0 {
        if s.len() == 0 {
            assert(insert_desc(s, x) =~= s.take(0) + seq![x] + s.skip(0));
        } else {
            assert(insert_desc(s, x) == seq![x] + s);
            assert(seq![x] + s =~= s.take(0) + seq![x] + s.skip(0));
        }
    } else {
        assert(!lex_lt(s[0].0, x.0));
        assert(forall|k: int|
            0 <= k < s.drop_first().len() ==> s.drop_first()[k] == s[k + 1]);
        lemma_insert_desc_split(s.drop_first(), x, j - 1);
        assert(seq![s[0]] + (s.drop_first().take(j - 1) + seq![x] + s.drop_first().skip(j - 1))
            =~= s.take(j) + seq![x] + s.skip(j));
    }
}

// ---------------------------------------------------------------------
// The host platform
// ---------------------------------------------------------------------

/// The platform name this tool recognizes, or nothing on another host.
pub open spec fn spec_platform_of(os: Seq<char>) -> Option<Seq<char>> {
    if os == "windows"@ || os == "linux"@ || os == "macos"@ {
        Some(os)
    } else {
        None
    }
}

/// Classifies a host operating system name: only the three supported
/// platforms come back, anything else is unsupported.
pub fn platform_from_os(os: &str) -> (r: Option<String>)
    ensures
        match r {
            Some(p) => spec_platform_of(os@) == Some(p@),
            None => spec_platform_of(os@) is None,
        },
{
    if str_eq_chars(os, "windows") || str_eq_chars(os, "linux") || str_eq_chars(os, "macos") {
        Some(os.to_owned())
    } else {
        None
    }
}

// ---------------------------------------------------------------------
// The version table of one tool
// ---------------------------------------------------------------------

/// The rows of one tool's table: each version string with its release
/// date, in the catalog's own order.
pub open spec fn spec_tool_rows(tv: ToolVersions) -> Seq<(Seq<char>, Seq<char>)> {
    Seq::new(
        tv.version_seq().len(),
        |i: int| (tv.version_seq()[i], tv@[tv.version_seq()[i]].release_date),
    )
}

/// Whether the rows restate exactly the entries of a version mapping:
/// every row is an entry, every version has a row, and no version has
/// two.
pub open spec fn rows_match(
    rows: Seq<(Seq<char>, Seq<char>)>,
    m: Map<Seq<char>, ReleaseInfoV>,
) -> bool {
    &&& forall|i: int|
        0 <= i < rows.len() ==> m.contains_key((#[trigger] rows[i]).0)
            && m[rows[i].0].release_date == rows[i].1
    &&& forall|k: Seq<char>|
        #[trigger] m.contains_key(k) ==> exists|i: int| 0 <= i < rows.len() && rows[i].0 == k
    &&& forall|i: int, j: int| 0 <= i < j < rows.len() ==> rows[i].0 != rows[j].0
}

/// Builds the displayed table of one tool: every version with its
/// release date, sorted newest first.
pub fn tool_version_rows(tv: &ToolVersions) -> (r: Vec<(String, String)>)
    requires
        tv.wf(),
    ensures
        r.deep_view() == sort_desc(spec_tool_rows(*tv)),
        rows_match(spec_tool_rows(*tv), tv@),
{
    let items = tv.iter();
    let n = items.len();
    let mut rows: Vec<(String, String)> = Vec::new();
    let mut i: usize = 0;
    while i < n
        invariant
            i <= n,
            n == items@.len(),
            rows@.len() == i,
            forall|k: int|
                0 <= k < i ==> (#[trigger] rows@[k]).0@ == items@[k].0@ && rows@[k].1@
                    == items@[k].1@.release_date,
        decreases n - i,
    {
        rows.push((items[i].0.clone(), items[i].1.release_date.clone()));
        i = i + 1;
    }
    proof {
        assert forall|k: int| 0 <= k < rows@.len() implies #[trigger] rows.deep_view()[k] == (
            rows@[k].0@,
            rows@[k].1@,
        ) by {}
        assert(rows.deep_view() =~= spec_tool_rows(*tv));
        tv.lemma_keys();
        assert forall|k: Seq<char>| #[trigger] tv@.contains_key(k) implies exists|j: int|
            0 <= j < spec_tool_rows(*tv).len() && spec_tool_rows(*tv)[j].0 == k by {
            assert(tv.version_seq().contains(k));
            let j = choose|j: int|
                0 <= j < tv.version_seq().len() && tv.version_seq()[j] == k;
            assert(spec_tool_rows(*tv)[j].0 == k);
        }
    }
    sort_rows_desc(&rows)
}

// ---------------------------------------------------------------------
// The list command's decision
// ---------------------------------------------------------------------

/// The table `list` shows for one package: its header pair and one row
/// per version. Online, the catalog decides the rows, sorted newest
/// first; offline, the locally scanned versions do, in scan order. The
/// platform and the catalog are handed in by the caller, which read
/// them from the host and the network.
pub fn get_app_list(
    package: &SupportedPackages,
    online: bool,
    platform: Option<&str>,
    catalog: Option<&Releases>,
    local: &Vec<Version>,
) -> (r: Result<((String, String), Vec<(String, String)>), String>)
    requires
        catalog matches Some(c) ==> c.wf(),
    ensures
        platform is None ==> (r matches Err(e) && e@ == "Platform not supported"@),
        platform matches Some(p) ==> (online ==> match catalog {
            None => r matches Err(e) && e@ == "Failed to fetch data"@,
            Some(c) => {
                if !c@.contains_key(p@) {
                    r matches Err(e) && e@ == "Platform not supported"@
                } else if !c@[p@].contains_key(package.spec_name_lower()) {
                    r matches Err(e) && e@ == package.spec_name_upper()
                        + " not available for this platform"@
                } else {
                    r matches Ok(t) && t.0.0@ == "Version"@ && t.0.1@ == "Release Date"@
                        && exists|rows0: Seq<(Seq<char>, Seq<char>)>|
                        rows_match(rows0, c@[p@][package.spec_name_lower()]) && t.1.deep_view()
                            == sort_desc(rows0)
                }
            },
        }),
        platform is Some && !online ==> (r matches Ok(t) && t.0.0@ == "Version"@ && t.0.1@
            == "Location"@ && t.1.deep_view() == Seq::new(
            local@.len(),
            |i: int| (local@[i]@.version, local@[i]@.location),
        )),
{
    let p = match platform {
        Some(p) => p,
        None => {
            return Err("Platform not supported".to_owned());
        },
    };
    if online {
        let c = match catalog {
            Some(c) => c,
            None => {
                return Err("Failed to fetch data".to_owned());
            },
        };
        let plat = match c.get(p) {
            Some(x) => x,
            None => {
                return Err("Platform not supported".to_owned());
            },
        };
        let tool = match plat.get(package.get_name_lower()) {
            Some(t) => t,
            None => {
                let mut msg = package.get_name_upper().to_owned();
                msg.append(" not available for this platform");
                return Err(msg);
            },
        };
        let rows = tool_version_rows(tool);
        proof {
            assert(rows_match(spec_tool_rows(*tool), c@[p@][package.spec_name_lower()]));
        }
        Ok((("Version".to_owned(), "Release Date".to_owned()), rows))
    } else {
        let n = local.len();
        let mut rows: Vec<(String, String)> = Vec::new();
        let mut i: usize = 0;
        while i < n
            invariant
                i <= n,
                n == local@.len(),
                rows@.len() == i,
                forall|k: int|
                    0 <= k < i ==> (#[trigger] rows@[k]).0@ == local@[k]@.version && rows@[k].1@
                        == local@[k]@.location,
            decreases n - i,
        {
            rows.push((local[i].get_version().to_owned(), local[i].get_location().to_owned()));
            i = i + 1;
        }
        proof {
            assert forall|k: int| 0 <= k < rows@.len() implies #[trigger] rows.deep_view()[k]
                == (rows@[k].0@, rows@[k].1@) by {}
            assert(rows.deep_view() =~= Seq::new(
                local@.len(),
                |i: int| (local@[i]@.version, local@[i]@.location),
            ));
        }
        Ok((("Version".to_owned(), "Location".to_owned()), rows))
    }
}

// ---------------------------------------------------------------------
// The get command's decision
// ---------------------------------------------------------------------

/// What planning one requested version yields, apart from the disk:
/// the version must be in the tool's mapping, and its address must
/// name a file with an extension, which gives the archive its name
/// under the download directory.
pub open spec fn spec_version_plan(
    m: Map<Seq<char>, ReleaseInfoV>,
    pkg: Seq<char>,
    home: Seq<char>,
    version: Seq<char>,
) -> Result<DownloadInfoV, Seq<char>> {
    if !m.contains_key(version) {
        Err("Version not available "@ + version)
    } else {
        match spec_extension(spec_base_name(m[version].url)) {
            None => Err("Invalid download URL "@ + m[version].url),
            Some(ext) => {
                let fname = pkg + "-"@ + version + "."@ + ext;
                Ok(
                    DownloadInfoV {
                        url: m[version].url,
                        dest: spec_download_path(home, pkg, fname),
                    },
                )
            },
        }
    }
}

/// Whether one per-version outcome is the right one: a version that
/// does not resolve carries its own error message; one that resolves
/// carries its task, unless its destination file already lay on disk,
/// which is refused with a message naming exactly that destination.
pub open spec fn version_outcome_matches(
    m: Map<Seq<char>, ReleaseInfoV>,
    pkg: Seq<char>,
    home: Seq<char>,
    version: Seq<char>,
    outcome: Result<DownloadInfo, String>,
) -> bool {
    match spec_version_plan(m, pkg, home, version) {
        Err(msg) => match outcome {
            Ok(_) => false,
            Err(e) => e@ == msg,
        },
        Ok(task) => match outcome {
            Ok(t) => t@ == task,
            Err(e) => e@ == "File already exists "@ + task.dest,
        },
    }
}

/// Plans the downloads of the requested versions of one package. The
/// platform must be supported and listed, the package must be known
/// there and the home directory known; then every requested version
/// gets an outcome of its own, in request order — its download task,
/// or why it has none — and one version that does not resolve never
/// stops the others. A version whose archive already lies in the
/// download directory is refused rather than overwritten. The caller
/// runs the tasks that resolved and reports the rest; nothing is
/// transferred here.
pub fn get_app(
    package: &SupportedPackages,
    versions: &Vec<String>,
    platform: Option<&str>,
    catalog: Option<&Releases>,
    home: Option<&str>,
) -> (r: Result<Vec<Result<DownloadInfo, String>>, String>)
    requires
        catalog matches Some(c) ==> c.wf(),
    ensures
        platform is None ==> (r matches Err(e) && e@ == "Platform not supported"@),
        platform matches Some(p) ==> match catalog {
            None => r matches Err(e) && e@ == "Failed to fetch data"@,
            Some(c) => {
                if !c@.contains_key(p@) {
                    r matches Err(e) && e@ == "Platform not supported"@
                } else if !c@[p@].contains_key(package.spec_name_lower()) {
                    r matches Err(e) && e@ == package.spec_name_upper()
                        + " not available for this platform"@
                } else {
                    match home {
                        None => r matches Err(e) && e@ == "Could not determine home directory"@,
                        Some(h) => {
                            &&& (versions@.len() == 0 ==> (r matches Err(e) && e@
                                == "No files to download"@))
                            &&& (versions@.len() > 0 ==> (r matches Ok(outcomes)
                                && outcomes@.len() == versions@.len() && (forall|i: int|
                                0 <= i < versions@.len() ==> version_outcome_matches(
                                    c@[p@][package.spec_name_lower()],
                                    package.spec_name_lower(),
                                    h@,
                                    versions.deep_view()[i],
                                    #[trigger] outcomes@[i],
                                ))))
                        },
                    }
                }
            },
        },
{
    let p = match platform {
        Some(p) => p,
        None => {
            return Err("Platform not supported".to_owned());
        },
    };
    let c = match catalog {
        Some(c) => c,
        None => {
            return Err("Failed to fetch data".to_owned());
        },
    };
    let plat = match c.get(p) {
        Some(x) => x,
        None => {
            return Err("Platform not supported".to_owned());
        },
    };
    let lower = package.get_name_lower();
    let tool = match plat.get(lower) {
        Some(t) => t,
        None => {
            let mut msg = package.get_name_upper().to_owned();
            msg.append(" not available for this platform");
            return Err(msg);
        },
    };
    let h = match home {
        Some(h) => h,
        None => {
            return Err("Could not determine home directory".to_owned());
        },
    };
    if versions.len() == 0 {
        return Err("No files to download".to_owned());
    }
    let dir = download_dir_under(h, lower);
    let ghost m = tool@;
    let ghost pkg = package.spec_name_lower();
    let ghost vs = versions.deep_view();
    let n = versions.len();
    let mut outcomes: Vec<Result<DownloadInfo, String>> = Vec::new();
    let mut i: usize = 0;
    while i < n
        invariant
            i <= n,
            n == versions@.len(),
            vs == versions.deep_view(),
            vs.len() == n,
            tool.wf(),
            m == tool@,
            pkg == package.spec_name_lower(),
            lower@ == pkg,
            dir@ == crate::file::spec_download_dir(h@, pkg),
            outcomes@.len() == i,
            forall|j: int|
                0 <= j < i ==> version_outcome_matches(m, pkg, h@, vs[j], #[trigger] outcomes@[j]),
        decreases n - i,
    {
        proof {
            assert(vs[i as int] == versions@[i as int]@);
        }
        let version = &versions[i];
        match tool.get(version.as_str()) {
            None => {
                let mut msg = "Version not available ".to_owned();
                msg.append(version.as_str());
                outcomes.push(Err(msg));
            },
            Some(info) => {
                match extension_of(info.url.as_str()) {
                    None => {
                        let mut msg = "Invalid download URL ".to_owned();
                        msg.append(info.url.as_str());
                        outcomes.push(Err(msg));
                    },
                    Some(ext) => {
                        let mut fname = lower.to_owned();
                        fname.append("-");
                        fname.append(version.as_str());
                        fname.append(".");
                        fname.append(ext.as_str());
                        let mut target = dir.clone();
                        target.append("/");
                        target.append(fname.as_str());
                        proof {
                            assert(target@ == spec_download_path(h@, pkg, fname@));
                        }
                        if path_exists(target.as_str()) {
                            let mut msg = "File already exists ".to_owned();
                            msg.append(target.as_str());
                            outcomes.push(Err(msg));
                        } else {
                            outcomes.push(Ok(DownloadInfo::new(info.url.clone(), target)));
                        }
                    },
                }
            },
        }
        i = i + 1;
    }
    Ok(outcomes)
}

// ---------------------------------------------------------------------
// The xampp command's default target
// ---------------------------------------------------------------------

/// The default xampp PHP directory when no path is given: `xampp/php`
/// under the filesystem root of the home directory — the root prefix
/// of an absolute home, joined with `/xampp/php`.
pub open spec fn spec_xampp_php_path(home: Seq<char>) -> Seq<char> {
    if home.len() > 0 && home[0] == '/' {
        "/"@ + "/xampp/php"@
    } else {
        "/xampp/php"@
    }
}

/// Builds the default xampp PHP directory from the home directory.
pub fn xampp_php_path(home: &str) -> (r: String)
    ensures
        r@ == spec_xampp_php_path(home@),
{
    if home.unicode_len() > 0 && home.get_char(0) == '/' {
        let mut s = "/".to_owned();
        s.append("/xampp/php");
        s
    } else {
        "/xampp/php".to_owned()
    }
}

// ---------------------------------------------------------------------
// Table layout
// ---------------------------------------------------------------------

/// The width of each of the two table columns: the longest cell of the
/// column, header included, in characters.
pub fn column_widths(headers: &(String, String), rows: &Vec<(String, String)>) -> (r: (
    usize,
    usize,
))
    ensures
        r.0 >= headers.0@.len() && r.1 >= headers.1@.len(),
        forall|i: int|
            0 <= i < rows@.len() ==> r.0 >= (#[trigger] rows@[i]).0@.len() && r.1
                >= rows@[i].1@.len(),
        r.0 == headers.0@.len() || exists|i: int|
            0 <= i < rows@.len() && r.0 == (#[trigger] rows@[i]).0@.len(),
        r.1 == headers.1@.len() || exists|i: int|
            0 <= i < rows@.len() && r.1 == (#[trigger] rows@[i]).1@.len(),
{
    let mut w0 = headers.0.as_str().unicode_len();
    let mut w1 = headers.1.as_str().unicode_len();
    let n = rows.len();
    let mut i: usize = 0;
    while i < n
        invariant
            i <= n,
            n == rows@.len(),
            w0 >= headers.0@.len(),
            w1 >= headers.1@.len(),
            forall|k: int|
                0 <= k < i ==> w0 >= (#[trigger] rows@[k]).0@.len() && w1 >= rows@[k].1@.len(),
            w0 == headers.0@.len() || exists|k: int|
                0 <= k < i && w0 == (#[trigger] rows@[k]).0@.len(),
            w1 == headers.1@.len() || exists|k: int|
                0 <= k < i && w1 == (#[trigger] rows@[k]).1@.len(),
        decreases n - i,
    {
        let c0 = rows[i].0.as_str().unicode_len();
        if c0 > w0 {
            w0 = c0;
        }
        let c1 = rows[i].1.as_str().unicode_len();
        if c1 > w1 {
            w1 = c1;
        }
        i = i + 1;
    }
    (w0, w1)
}

} // verus!
