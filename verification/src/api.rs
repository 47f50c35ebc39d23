//! The release catalog: an immutable, in-memory tree mapping platform
//! name to tool name to version string to release metadata. It is built
//! once per invocation from a fetched catalog document and only read
//! afterwards; fetching itself is I/O and stays outside the library.

use vstd::prelude::*;

use crate::strmap::StringMap;

verus! {

/// Metadata of one released version: its download address and the date
/// it was released, both kept verbatim from the catalog document.
pub struct ReleaseInfo {
    pub url: String,
    pub release_date: String,
}

/// The mathematical value of a `ReleaseInfo`.
pub ghost struct ReleaseInfoV {
    pub url: Seq<char>,
    pub release_date: Seq<char>,
}

impl View for ReleaseInfo {
    type V = ReleaseInfoV;

    open spec fn view(&self) -> ReleaseInfoV {
        ReleaseInfoV { url: self.url@, release_date: self.release_date@ }
    }
}

impl ReleaseInfo {
    pub fn new(url: String, release_date: String) -> (r: Self)
        ensures
            r@ == (ReleaseInfoV { url: url@, release_date: release_date@ }),
    {
        ReleaseInfo { url, release_date }
    }
}

/// The versions of one tool: version string to release metadata.
pub struct ToolVersions {
    versions: StringMap<ReleaseInfo>,
}

impl View for ToolVersions {
    type V = Map<Seq<char>, ReleaseInfoV>;

    closed spec fn view(&self) -> Map<Seq<char>, ReleaseInfoV> {
        self.versions@
    }
}

impl ToolVersions {
    pub closed spec fn wf(self) -> bool {
        self.versions.wf()
    }

    /// The version strings in insertion order.
    pub closed spec fn version_seq(self) -> Seq<Seq<char>> {
        self.versions.key_seq()
    }

    pub fn new() -> (r: Self)
        ensures
            r.wf(),
            r@ == Map::<Seq<char>, ReleaseInfoV>::empty(),
    {
        ToolVersions { versions: StringMap::new() }
    }

    pub fn insert(&mut self, version: String, info: ReleaseInfo)
        requires
            old(self).wf(),
        ensures
            final(self).wf(),
            final(self)@ == old(self)@.insert(version@, info@),
    {
        self.versions.insert(version, info);
    }

    pub fn get<'a>(&'a self, version: &str) -> (r: Option<&'a ReleaseInfo>)
        requires
            self.wf(),
        ensures
            match r {
                Some(info) => self@.contains_key(version@) && info@ == self@[version@],
                None => !self@.contains_key(version@),
            },
    {
        self.versions.get(version)
    }

    /// The version strings are pairwise distinct, and they are exactly
    /// the keys of the mapping.
    pub proof fn lemma_keys(self)
        requires
            self.wf(),
        ensures
            forall|i: int, j: int|
                0 <= i < j < self.version_seq().len() ==> self.version_seq()[i]
                    != self.version_seq()[j],
            forall|k: Seq<char>| self@.contains_key(k) <==> self.version_seq().contains(k),
    {
        self.versions.lemma_wf_entries();
        self.versions.lemma_view_keys();
    }

    /// Every version string with its metadata, in insertion order.
    pub fn iter<'a>(&'a self) -> (r: Vec<(&'a String, &'a ReleaseInfo)>)
        requires
            self.wf(),
        ensures
            r@.len() == self.version_seq().len(),
            forall|i: int|
                0 <= i < r@.len() ==> #[trigger] r@[i].0@ == self.version_seq()[i]
                    && self@.contains_key(self.version_seq()[i]) && r@[i].1@
                    == self@[self.version_seq()[i]],
    {
        self.versions.iter()
    }
}

/// The tools known for one platform, by lowercase tool name.
pub struct Platform {
    tools: StringMap<ToolVersions>,
}

impl View for Platform {
    type V = Map<Seq<char>, Map<Seq<char>, ReleaseInfoV>>;

    closed spec fn view(&self) -> Map<Seq<char>, Map<Seq<char>, ReleaseInfoV>> {
        self.tools@
    }
}

impl Platform {
    pub closed spec fn wf(self) -> bool {
        &&& self.tools.wf()
        &&& forall|i: int|
            0 <= i < self.tools.val_seq().len() ==> (#[trigger] self.tools.val_seq()[i]).wf()
    }

    pub fn new() -> (r: Self)
        ensures
            r.wf(),
            r@ == Map::<Seq<char>, Map<Seq<char>, ReleaseInfoV>>::empty(),
    {
        Platform { tools: StringMap::new() }
    }

    pub fn insert(&mut self, tool: String, versions: ToolVersions)
        requires
            old(self).wf(),
            versions.wf(),
        ensures
            final(self).wf(),
            final(self)@ == old(self)@.insert(tool@, versions@),
    {
        self.tools.insert(tool, versions);
    }

    pub fn get<'a>(&'a self, tool: &str) -> (r: Option<&'a ToolVersions>)
        requires
            self.wf(),
        ensures
            match r {
                Some(tv) => self@.contains_key(tool@) && tv@ == self@[tool@] && tv.wf(),
                None => !self@.contains_key(tool@),
            },
    {
        self.tools.get(tool)
    }
}

/// The whole catalog: platform name to that platform's tools.
pub struct Releases {
    platforms: StringMap<Platform>,
}

impl View for Releases {
    type V = Map<Seq<char>, Map<Seq<char>, Map<Seq<char>, ReleaseInfoV>>>;

    closed spec fn view(&self) -> Map<Seq<char>, Map<Seq<char>, Map<Seq<char>, ReleaseInfoV>>> {
        self.platforms@
    }
}

impl Releases {
    pub closed spec fn wf(self) -> bool {
        &&& self.platforms.wf()
        &&& forall|i: int|
            0 <= i < self.platforms.val_seq().len() ==> (
            #[trigger] self.platforms.val_seq()[i]).wf()
    }

    pub fn new() -> (r: Self)
        ensures
            r.wf(),
            r@ == Map::<Seq<char>, Map<Seq<char>, Map<Seq<char>, ReleaseInfoV>>>::empty(),
    {
        Releases { platforms: StringMap::new() }
    }

    pub fn insert(&mut self, platform: String, tools: Platform)
        requires
            old(self).wf(),
            tools.wf(),
        ensures
            final(self).wf(),
            final(self)@ == old(self)@.insert(platform@, tools@),
    {
        self.platforms.insert(platform, tools);
    }

    pub fn get<'a>(&'a self, platform: &str) -> (r: Option<&'a Platform>)
        requires
            self.wf(),
        ensures
            match r {
                Some(p) => self@.contains_key(platform@) && p@ == self@[platform@] && p.wf(),
                None => !self@.contains_key(platform@),
            },
    {
        self.platforms.get(platform)
    }
}

/// What a three-level catalog lookup yields: the release metadata of
/// `version` of `tool` on `platform`, or nothing when any level is absent.
pub open spec fn spec_resolve(
    catalog: Map<Seq<char>, Map<Seq<char>, Map<Seq<char>, ReleaseInfoV>>>,
    platform: Seq<char>,
    tool: Seq<char>,
    version: Seq<char>,
) -> Option<ReleaseInfoV> {
    if catalog.contains_key(platform) && catalog[platform].contains_key(tool)
        && catalog[platform][tool].contains_key(version) {
        Some(catalog[platform][tool][version])
    } else {
        None
    }
}

/// Pure three-level lookup. Absence at any level yields `None` rather
/// than an error, so a caller can tell "nothing to report" apart from a
/// failed catalog fetch.
pub fn resolve<'a>(
    catalog: &'a Releases,
    platform: &str,
    tool: &str,
    version: &str,
) -> (r: Option<&'a ReleaseInfo>)
    requires
        catalog.wf(),
    ensures
        match r {
            Some(info) => spec_resolve(catalog@, platform@, tool@, version@) == Some(info@),
            None => spec_resolve(catalog@, platform@, tool@, version@) is None,
        },
{
    match catalog.get(platform) {
        Some(p) => match p.get(tool) {
            Some(tv) => tv.get(version),
            None => None,
        },
        None => None,
    }
}

} // verus!
