use vstd::prelude::*;
use vstd::string::StringExecFns;
use std::sync::Arc;
use crate::cache::{lookup, stored, Cache, CacheEntry};
use crate::coalescer::{joined, joined_all, lemma_overlapping_callers_share_one_run, runs_work, Coalescer};
use crate::common::{url_encode, url_encoded};
use crate::config::{config_key, safe_key, PackageConfig};
use crate::keyed::StringMap;
use crate::request::PackageFileRequest;

verus! {

/// Where the archive of one published version can be downloaded.
#[derive(Debug, Clone, PartialEq, Eq)]
pub struct TarballUrl(String);

impl View for TarballUrl {
    type V = Seq<char>;

    closed spec fn view(&self) -> Seq<char> {
        self.0@
    }
}

impl TarballUrl {
    pub fn new(url: String) -> (r: TarballUrl)
        ensures
            r@ == url@,
    {
        TarballUrl(url)
    }

    pub fn to_string(&self) -> (r: String)
        ensures
            r@ == self@,
    {
        self.0.clone()
    }

    fn duplicate(&self) -> (r: TarballUrl)
        ensures
            r@ == self@,
    {
        TarballUrl(self.0.clone())
    }
}

/// A manifest as the registry sends it: the tarball of each version, and the
/// time each version was published. Each version is held once.
pub struct NpmPackageManifest {
    versions: StringMap<TarballUrl>,
    time: StringMap<String>,
}

impl NpmPackageManifest {
    pub closed spec fn wf(&self) -> bool {
        self.versions.wf() && self.time.wf()
    }

    /// The tarball URL of each version.
    pub closed spec fn tarballs(&self) -> Map<Seq<char>, Seq<char>> {
        self.versions@.map_values(|u: TarballUrl| u@)
    }

    /// The publication time of each version, as the registry wrote it.
    pub closed spec fn times(&self) -> Map<Seq<char>, Seq<char>> {
        self.time@.map_values(|t: String| t@)
    }

    pub fn new() -> (r: NpmPackageManifest)
        ensures
            r.wf(),
            r.tarballs() == Map::<Seq<char>, Seq<char>>::empty(),
            r.times() == Map::<Seq<char>, Seq<char>>::empty(),
    {
        let r = NpmPackageManifest { versions: StringMap::new(), time: StringMap::new() };
        assert(r.tarballs() =~= Map::<Seq<char>, Seq<char>>::empty());
        assert(r.times() =~= Map::<Seq<char>, Seq<char>>::empty());
        r
    }

    /// Records the tarball of `version`, replacing an earlier one.
    pub fn add_version(&mut self, version: String, tarball: TarballUrl)
        requires
            old(self).wf(),
        ensures
            final(self).wf(),
            final(self).tarballs() == old(self).tarballs().insert(version@, tarball@),
            final(self).times() == old(self).times(),
    {
        let ghost v = version@;
        let ghost t = tarball@;
        self.versions.insert(version, tarball);
        assert(self.tarballs() =~= old(self).tarballs().insert(v, t));
    }

    /// Records when `version` was published, replacing an earlier time.
    pub fn add_time(&mut self, version: String, time: String)
        requires
            old(self).wf(),
        ensures
            final(self).wf(),
            final(self).times() == old(self).times().insert(version@, time@),
            final(self).tarballs() == old(self).tarballs(),
    {
        let ghost v = version@;
        let ghost t = time@;
        self.time.insert(version, time);
        assert(self.times() =~= old(self).times().insert(v, t));
    }
}

/// A semantic version, `MAJOR.MINOR.PATCH[-PRE][+BUILD]`.
#[derive(Debug, Clone, PartialEq, Eq)]
pub struct Version {
    pub major: u64,
    pub minor: u64,
    pub patch: u64,
    pub pre: String,
    pub build: String,
}

/// The fields `semver::Version::parse` finds in a text: major, minor, patch,
/// pre-release and build metadata; `None` where it rejects the text.
pub uninterp spec fn semver_fields(text: Seq<char>) -> Option<(u64, u64, u64, Seq<char>, Seq<char>)>;

/// The pre-release part of what `semver_fields` found.
pub open spec fn prerelease_of(f: Option<(u64, u64, u64, Seq<char>, Seq<char>)>) -> Seq<char> {
    match f {
        Some((_, _, _, pre, _)) => pre,
        None => Seq::empty(),
    }
}

/// Relies on `semver::Version::parse`: whether a text is a version, and which,
/// depends on the text alone.
#[verifier::external_body]
fn parse_version(text: &str) -> (r: Option<Version>)
    ensures
        match r {
            Some(v) => semver_fields(text@) == Some((v.major, v.minor, v.patch, v.pre@, v.build@)),
            None => semver_fields(text@) is None,
        },
{
    match semver::Version::parse(text) {
        Ok(v) => Some(
            Version {
                major: v.major,
                minor: v.minor,
                patch: v.patch,
                pre: v.pre.as_str().to_string(),
                build: v.build.as_str().to_string(),
            },
        ),
        Err(_) => None,
    }
}

/// The instant, in milliseconds since the Unix epoch, that chrono reads in a
/// timestamp text as a `DateTime<Utc>`; `None` where it rejects the text.
pub uninterp spec fn utc_millis(text: Seq<char>) -> Option<i64>;

/// Relies on chrono's `DateTime<Utc>` parsing and `timestamp_millis`: the
/// instant a text denotes depends on the text alone.
#[verifier::external_body]
fn parse_timestamp(text: &str) -> (r: Option<i64>)
    ensures
        r == utc_millis(text@),
{
    match text.parse::<chrono::DateTime<chrono::Utc>>() {
        Ok(d) => Some(d.timestamp_millis()),
        Err(_) => None,
    }
}

/// `a` ranks at or above `b`: by major, then minor, then patch. Build
/// metadata does not take part in precedence.
pub open spec fn ranks_at_or_above(a: Version, b: Version) -> bool {
    a.major > b.major || (a.major == b.major && (a.minor > b.minor || (a.minor == b.minor
        && a.patch >= b.patch)))
}

/// One release of a package.
pub struct VersionManifest {
    pub version_str: String,
    pub version: Version,
    /// Milliseconds since the Unix epoch.
    pub published: i64,
    pub tarball_url: TarballUrl,
}

/// The releases of a package, newest first.
pub struct PackageManifest {
    pub versions: Vec<VersionManifest>,
    pub registry_url: String,
}

/// Whether the raw manifest's entry for `v` makes a release: it has a
/// publication time that parses, and `v` parses as a version that is no
/// pre-release.
pub open spec fn admitted(source: NpmPackageManifest, v: Seq<char>) -> bool {
    &&& source.tarballs().contains_key(v)
    &&& source.times().contains_key(v)
    &&& utc_millis(source.times()[v]) is Some
    &&& semver_fields(v) is Some
    &&& prerelease_of(semver_fields(v)).len() == 0
}

/// The release `e` is the raw manifest's entry for its version string.
#[verifier::opaque]
pub open spec fn describes(source: NpmPackageManifest, e: VersionManifest) -> bool {
    let v = e.version_str@;
    &&& admitted(source, v)
    &&& semver_fields(v) == Some(
        (e.version.major, e.version.minor, e.version.patch, e.version.pre@, e.version.build@),
    )
    &&& utc_millis(source.times()[v]) == Some(e.published)
    &&& e.tarball_url@ == source.tarballs()[v]
}

/// The releases are ordered newest first and no version string repeats.
pub open spec fn ordered_releases(vs: Seq<VersionManifest>) -> bool {
    forall|i: int, j: int|
        0 <= i < j < vs.len() ==> ranks_at_or_above(#[trigger] vs[i].version, #[trigger] vs[j].version)
            && vs[i].version_str@ != vs[j].version_str@
}

/// `m` is the normalised form of the raw manifest `source`: one release for
/// each admitted version and nothing else, each as the raw entry gives it,
/// newest first.
pub open spec fn normalized(m: PackageManifest, source: NpmPackageManifest, registry: Seq<char>) -> bool {
    &&& m.registry_url@ == registry
    &&& ordered_releases(m.versions@)
    &&& forall|i: int| 0 <= i < m.versions@.len() ==> describes(source, #[trigger] m.versions@[i])
    &&& forall|v: Seq<char>|
        admitted(source, v) ==> exists|i: int|
            0 <= i < m.versions@.len() && (#[trigger] m.versions@[i]).version_str@ == v
}

/// Where a release with version `v` goes among `vs`, newest first: after all
/// that rank at or above it.
fn insertion_point(vs: &Vec<VersionManifest>, v: &Version) -> (r: usize)
    requires
        ordered_releases(vs@),
    ensures
        r <= vs@.len(),
        forall|i: int| 0 <= i < r ==> ranks_at_or_above(#[trigger] vs@[i].version, *v),
        forall|i: int| r <= i < vs@.len() ==> ranks_at_or_above(*v, #[trigger] vs@[i].version),
{
    let mut i: usize = 0;
    while i < vs.len()
        invariant
            ordered_releases(vs@),
            i <= vs@.len(),
            forall|k: int| 0 <= k < i ==> ranks_at_or_above(#[trigger] vs@[k].version, *v),
        decreases vs@.len() - i,
    {
        let w = &vs[i].version;
        let above = w.major > v.major || (w.major == v.major && (w.minor > v.minor || (w.minor
            == v.minor && w.patch >= v.patch)));
        if !above {
            assert forall|k: int| i <= k < vs@.len() implies ranks_at_or_above(
                *v,
                #[trigger] vs@[k].version,
            ) by {
                if k > i {
                    assert(ranks_at_or_above(vs@[i as int].version, vs@[k].version));
                }
            }
            return i;
        }
        i = i + 1;
    }
    i
}

/// The release made of a raw entry with version text `version_id`, its
/// tarball, its publication time as parsed (if it parsed) and its version as
/// parsed (if it parsed): there is one when both parsed and the version is no
/// pre-release.
pub fn make_release(
    version_id: &String,
    tarball: &TarballUrl,
    published: Option<i64>,
    parsed: Option<Version>,
) -> (r: Option<VersionManifest>)
    ensures
        r is Some <==> published is Some && parsed is Some && parsed->0.pre@.len() == 0,
        r matches Some(e) ==> e.version_str@ == version_id@ && e.version == parsed->0
            && e.published == published->0 && e.tarball_url@ == tarball@,
{
    let published = match published {
        Some(p) => p,
        None => return None,
    };
    let parsed = match parsed {
        Some(v) => v,
        None => return None,
    };
    if parsed.pre.as_str().unicode_len() != 0 {
        return None;
    }
    Some(
        VersionManifest {
            version_str: version_id.clone(),
            version: parsed,
            published,
            tarball_url: tarball.duplicate(),
        },
    )
}

/// The release the raw manifest's entry for `version_id` makes, if any.
fn release_of(source: &NpmPackageManifest, version_id: &String, tarball: &TarballUrl) -> (r:
    Option<VersionManifest>)
    requires
        source.wf(),
        source.tarballs().contains_key(version_id@),
        source.tarballs()[version_id@] == tarball@,
    ensures
        r is Some <==> admitted(*source, version_id@),
        r matches Some(e) ==> describes(*source, e) && e.version_str@ == version_id@,
{
    let published = match source.time.get(version_id.as_str()) {
        Some(t) => parse_timestamp(t.as_str()),
        None => None,
    };
    let parsed = parse_version(version_id.as_str());
    let r = make_release(version_id, tarball, published, parsed);
    proof {
        reveal(describes);
    }
    r
}

/// What the normalising walk over `keys` knows after its first `i` keys.
pub open spec fn walked(
    source: NpmPackageManifest,
    keys: Seq<Seq<char>>,
    i: int,
    vs: Seq<VersionManifest>,
) -> bool {
    &&& ordered_releases(vs)
    &&& forall|p: int| 0 <= p < vs.len() ==> describes(source, #[trigger] vs[p])
    &&& forall|p: int|
        0 <= p < vs.len() ==> exists|j: int| 0 <= j < i && keys[j] == (#[trigger] vs[p]).version_str@
    &&& forall|j: int|
        0 <= j < i && admitted(source, #[trigger] keys[j]) ==> exists|p: int|
            0 <= p < vs.len() && vs[p].version_str@ == keys[j]
}

#[verifier::rlimit(40)]
proof fn lemma_walk_insert(
    source: NpmPackageManifest,
    keys: Seq<Seq<char>>,
    i: int,
    before: Seq<VersionManifest>,
    at: int,
    entry: VersionManifest,
)
    requires
        0 <= i < keys.len(),
        forall|a: int, b: int| 0 <= a < b < keys.len() ==> keys[a] != keys[b],
        walked(source, keys, i, before),
        0 <= at <= before.len(),
        forall|p: int| 0 <= p < at ==> ranks_at_or_above(#[trigger] before[p].version, entry.version),
        forall|p: int|
            at <= p < before.len() ==> ranks_at_or_above(entry.version, #[trigger] before[p].version),
        describes(source, entry),
        entry.version_str@ == keys[i],
    ensures
        walked(source, keys, i + 1, before.insert(at, entry)),
{
    let after = before.insert(at, entry);
    assert forall|p: int| 0 <= p < before.len() implies (#[trigger] before[p]).version_str@
        != keys[i] by {
        let j = choose|j: int| 0 <= j < i && keys[j] == before[p].version_str@;
        assert(keys[j] != keys[i]);
    }
    assert forall|a: int, b: int| 0 <= a < b < after.len() implies ranks_at_or_above(
        #[trigger] after[a].version,
        #[trigger] after[b].version,
    ) && after[a].version_str@ != after[b].version_str@ by {
        if b < at {
            assert(after[a] == before[a] && after[b] == before[b]);
        } else if b == at {
            assert(after[a] == before[a]);
        } else if a < at {
            assert(after[a] == before[a] && after[b] == before[b - 1]);
        } else if a == at {
            assert(after[b] == before[b - 1]);
        } else {
            assert(after[a] == before[a - 1] && after[b] == before[b - 1]);
        }
    }
    assert forall|p: int| 0 <= p < after.len() implies describes(source, #[trigger] after[p]) by {
        if p < at {
            assert(after[p] == before[p]);
        } else if p > at {
            assert(after[p] == before[p - 1]);
        }
    }
    assert forall|p: int| 0 <= p < after.len() implies exists|j: int|
        0 <= j < i + 1 && keys[j] == (#[trigger] after[p]).version_str@ by {
        if p < at {
            assert(after[p] == before[p]);
        } else if p > at {
            assert(after[p] == before[p - 1]);
        } else {
            assert(keys[i] == after[p].version_str@);
        }
    }
    assert forall|j: int| 0 <= j < i + 1 && admitted(source, #[trigger] keys[j]) implies exists|
        p: int,
    | 0 <= p < after.len() && after[p].version_str@ == keys[j] by {
        if j == i {
            assert(after[at].version_str@ == keys[j]);
        } else {
            let p = choose|p: int| 0 <= p < before.len() && before[p].version_str@ == keys[j];
            if p < at {
                assert(after[p] == before[p]);
            } else {
                assert(after[p + 1] == before[p]);
            }
        }
    }
}

impl PackageManifest {
    /// Normalises a raw manifest: versions without a parsable publication
    /// time, that do not parse, or that are pre-releases are left out; the
    /// rest are ordered newest first.
    pub fn new(source: &NpmPackageManifest, registry_url: String) -> (r: PackageManifest)
        requires
            source.wf(),
        ensures
            normalized(r, *source, registry_url@),
    {
        let mut versions: Vec<VersionManifest> = Vec::new();
        let n = source.versions.len();
        proof {
            source.versions.lemma_keys();
        }
        let ghost keys = source.versions.keys();
        let mut i: usize = 0;
        while i < n
            invariant
                source.wf(),
                n == keys.len(),
                keys == source.versions.keys(),
                i <= n,
                forall|a: int, b: int| 0 <= a < b < keys.len() ==> keys[a] != keys[b],
                walked(*source, keys, i as int, versions@),
            decreases n - i,
        {
            let (version_id, tarball) = source.versions.entry_at(i);
            let ghost before = versions@;
            match release_of(source, version_id, tarball) {
                Some(entry) => {
                    let at = insertion_point(&versions, &entry.version);
                    proof {
                        lemma_walk_insert(*source, keys, i as int, before, at as int, entry);
                    }
                    versions.insert(at, entry);
                },
                None => {
                    assert(walked(*source, keys, i + 1, versions@));
                },
            }
            i = i + 1;
        }
        proof {
            source.versions.lemma_keys();
            assert forall|v: Seq<char>| admitted(*source, v) implies exists|p: int|
                0 <= p < versions@.len() && (#[trigger] versions@[p]).version_str@ == v by {
                assert(source.versions@.contains_key(v));
                let j = choose|j: int| 0 <= j < keys.len() && keys[j] == v;
                assert(admitted(*source, keys[j]));
            }
        }
        PackageManifest { versions, registry_url }
    }

    /// The tarball of the first release whose version string is `version`.
    pub fn get_tarball_url(&self, version: &str) -> (r: Option<&TarballUrl>)
        ensures
            match r {
                Some(u) => exists|i: int|
                    0 <= i < self.versions@.len() && (#[trigger] self.versions@[i]).version_str@
                        == version@ && self.versions@[i].tarball_url == *u && forall|j: int|
                        0 <= j < i ==> (#[trigger] self.versions@[j]).version_str@ != version@,
                None => forall|i: int|
                    0 <= i < self.versions@.len() ==> (#[trigger] self.versions@[i]).version_str@
                        != version@,
            },
    {
        let wanted = version.to_owned();
        let mut i: usize = 0;
        while i < self.versions.len()
            invariant
                i <= self.versions@.len(),
                wanted@ == version@,
                forall|k: int|
                    0 <= k < i ==> (#[trigger] self.versions@[k]).version_str@ != version@,
            decreases self.versions@.len() - i,
        {
            let entry = &self.versions[i];
            if entry.version_str == wanted {
                return Some(&entry.tarball_url);
            }
            i = i + 1;
        }
        None
    }
}

/// The URL of a package's manifest: the registry followed by the
/// percent-encoded name.
pub open spec fn manifest_url_of(config: PackageConfig) -> Seq<char> {
    config.registry@ + url_encoded(config.name@)
}

/// The registry's answer that it holds no such package.
pub struct PackageNotFound {
    pub registry: String,
    pub name: String,
}

/// Whether the registry's status for a manifest request means it has the
/// package: anything but 200 means it does not.
pub fn check_manifest_status(config: &PackageConfig, status: u16) -> (r: Result<(), PackageNotFound>)
    ensures
        r is Ok <==> status == 200,
        r matches Err(e) ==> e.registry@ == config.registry@ && e.name@ == config.name@,
{
    if status == 200 {
        Ok(())
    } else {
        Err(PackageNotFound { registry: config.registry.clone(), name: config.name.clone() })
    }
}

/// Where the manifest of the configured package is fetched from.
pub fn manifest_url(config: &PackageConfig) -> (r: String)
    ensures
        r@ == manifest_url_of(*config),
{
    let mut url = config.registry.clone();
    let encoded = url_encode(config.name.as_str());
    url.append(encoded.as_str());
    url
}

/// The `Authorization` header sent to the registry: a bearer token, if the
/// package has an access token.
pub fn authorization(config: &PackageConfig) -> (r: Option<String>)
    ensures
        match config.access_token {
            Some(t) => r matches Some(h) && h@ == "Bearer "@ + t@,
            None => r is None,
        },
{
    match &config.access_token {
        Some(token) => {
            let mut header = "Bearer ".to_owned();
            header.append(token.as_str());
            Some(header)
        },
        None => None,
    }
}

/// The directories and file that serve one request.
pub struct DownloadPaths {
    /// Where the tarball of the version is unpacked.
    pub root_directory: String,
    /// The package's files inside it.
    pub package_directory: String,
    /// The file asked for.
    pub requested_file_path: String,
}

pub open spec fn root_directory_of(config: PackageConfig, request: PackageFileRequest) -> Seq<
    char,
> {
    "./.tmp/"@ + safe_key(config) + "/"@ + request.version@
}

pub open spec fn package_directory_of(config: PackageConfig, request: PackageFileRequest) -> Seq<
    char,
> {
    root_directory_of(config, request) + "/package"@
}

/// The file asked for, or the index file for an empty path.
pub open spec fn requested_file_of(config: PackageConfig, request: PackageFileRequest) -> Seq<
    char,
> {
    package_directory_of(config, request) + "/"@ + if request.path@.len() == 0 {
        config.index_file@
    } else {
        request.path@
    }
}

/// Where a tarball meant for `root_directory` is unpacked first, so that the
/// root appears only once the whole archive is out.
pub fn staging_directory(root_directory: &str) -> (r: String)
    ensures
        r@ == root_directory@ + ".partial"@,
{
    let mut staging = root_directory.to_owned();
    staging.append(".partial");
    staging
}

/// Freshness window of cached manifests, in milliseconds.
pub const MANIFEST_TIMEOUT_MS: u64 = 15000;

/// Relies on `Arc::clone`: the result points to the same allocation.
#[verifier::external_body]
fn share<T>(a: &Arc<T>) -> (r: Arc<T>)
    ensures
        r == *a,
{
    Arc::clone(a)
}

/// What a caller asking for a manifest does next.
pub enum ManifestStep<G> {
    /// A fresh manifest was cached: here it is.
    Cached(Arc<PackageManifest>),
    /// Another caller is fetching it: wait on its group.
    Wait(G),
    /// This caller fetches it, then calls `complete` or `abandon`.
    Fetch,
}

/// The manifests fetched lately and the fetches in flight, keyed by
/// package (`PackageConfig::key`). Callers share it under one lock and do the
/// fetching outside it.
pub struct ManifestRepository<G> {
    cache: Cache<Arc<PackageManifest>>,
    coalescer: Coalescer<G>,
}

impl<G> ManifestRepository<G> {
    pub closed spec fn wf(&self) -> bool {
        self.cache.wf() && self.coalescer.wf()
    }

    /// The manifests cached, fresh or stale.
    pub closed spec fn cached(&self) -> Map<Seq<char>, CacheEntry<Arc<PackageManifest>>> {
        self.cache@
    }

    pub closed spec fn timeout(&self) -> u64 {
        self.cache.timeout()
    }

    /// The open group of each fetch in flight.
    pub closed spec fn flights(&self) -> Map<Seq<char>, G> {
        self.coalescer@
    }

    pub fn new() -> (r: ManifestRepository<G>)
        ensures
            r.wf(),
            r.cached() == Map::<Seq<char>, CacheEntry<Arc<PackageManifest>>>::empty(),
            r.flights() == Map::<Seq<char>, G>::empty(),
            r.timeout() == MANIFEST_TIMEOUT_MS,
    {
        ManifestRepository { cache: Cache::new(MANIFEST_TIMEOUT_MS), coalescer: Coalescer::new() }
    }

    /// A caller with a fresh `group` asks at `now` for the manifest of
    /// `config`. A fresh cached manifest is handed out and nothing changes;
    /// otherwise the caller joins the fetch for the package, starting it if
    /// none is in flight.
    pub fn begin(&mut self, config: &PackageConfig, group: G, now: u64) -> (r: ManifestStep<G>)
        where
            G: Clone,
        requires
            old(self).wf(),
        ensures
            final(self).wf(),
            final(self).timeout() == old(self).timeout(),
            final(self).cached() == old(self).cached(),
            ({
                let key = config_key(*config);
                let hit = lookup(old(self).cached(), old(self).timeout(), key, None, now);
                match hit {
                    Some(e) => r == ManifestStep::<G>::Cached(e.value) && final(self).flights()
                        == old(self).flights(),
                    None => {
                        &&& final(self).flights() == joined(old(self).flights(), key, group)
                        &&& !(r is Cached)
                        &&& r is Fetch <==> !old(self).flights().contains_key(key)
                        &&& r matches ManifestStep::Wait(g) ==> cloned(old(self).flights()[key], g)
                    },
                }
            }),
    {
        let key = config.key();
        if let Some(entry) = self.cache.peek(key.as_str(), None, now) {
            return ManifestStep::Cached(share(&entry.value));
        }
        match self.coalescer.join(key, group) {
            Some(g) => ManifestStep::Wait(g),
            None => ManifestStep::Fetch,
        }
    }

    /// The fetch for `config` brought `raw` at `now`: the manifest is
    /// normalised and cached, and the fetch's group is closed and handed back
    /// for publishing.
    pub fn complete(&mut self, config: &PackageConfig, raw: &NpmPackageManifest, now: u64) -> (r: (
        Arc<PackageManifest>,
        Option<G>,
    ))
        requires
            old(self).wf(),
            raw.wf(),
        ensures
            final(self).wf(),
            final(self).timeout() == old(self).timeout(),
            normalized(*r.0, *raw, config.registry@),
            final(self).cached() == stored(old(self).cached(), config_key(*config), r.0, now),
            final(self).flights() == old(self).flights().remove(config_key(*config)),
            r.1 is Some <==> old(self).flights().contains_key(config_key(*config)),
            r.1 matches Some(g) ==> g == old(self).flights()[config_key(*config)],
    {
        let key = config.key();
        let manifest = Arc::new(PackageManifest::new(raw, config.registry.clone()));
        self.cache.set(key.clone(), share(&manifest), now);
        let group = self.coalescer.finish(key.as_str());
        (manifest, group)
    }

    /// The fetch for `config` failed: nothing is cached, and its group is
    /// closed and handed back for publishing the failure.
    pub fn abandon(&mut self, config: &PackageConfig) -> (r: Option<G>)
        requires
            old(self).wf(),
        ensures
            final(self).wf(),
            final(self).timeout() == old(self).timeout(),
            final(self).cached() == old(self).cached(),
            final(self).flights() == old(self).flights().remove(config_key(*config)),
            r is Some <==> old(self).flights().contains_key(config_key(*config)),
            r matches Some(g) ==> g == old(self).flights()[config_key(*config)],
    {
        let key = config.key();
        self.coalescer.finish(key.as_str())
    }
}

/// The downloads in flight, keyed by tarball URL. Callers share it under one
/// lock and download outside it.
pub struct DownloadManager<G> {
    coalescer: Coalescer<G>,
}

impl<G> DownloadManager<G> {
    pub closed spec fn wf(&self) -> bool {
        self.coalescer.wf()
    }

    /// The open group of each download in flight.
    pub closed spec fn flights(&self) -> Map<Seq<char>, G> {
        self.coalescer@
    }

    pub fn new() -> (r: DownloadManager<G>)
        ensures
            r.wf(),
            r.flights() == Map::<Seq<char>, G>::empty(),
    {
        DownloadManager { coalescer: Coalescer::new() }
    }

    /// `<tmp root>/<identifier-safe key>/<version>/package/<path or index file>`,
    /// with `./.tmp` as the tmp root.
    pub fn get_download_paths(config: &PackageConfig, request: &PackageFileRequest) -> (r:
        DownloadPaths)
        ensures
            r.root_directory@ == root_directory_of(*config, *request),
            r.package_directory@ == package_directory_of(*config, *request),
            r.requested_file_path@ == requested_file_of(*config, *request),
    {
        let mut root = "./.tmp/".to_owned();
        let key = config.identifier_safe_key();
        root.append(key.as_str());
        root.append("/");
        root.append(request.version.as_str());
        let mut package = root.clone();
        package.append("/package");
        let mut file = package.clone();
        file.append("/");
        if request.path.as_str().unicode_len() == 0 {
            file.append(config.index_file.as_str());
        } else {
            file.append(request.path.as_str());
        }
        DownloadPaths { root_directory: root, package_directory: package, requested_file_path: file }
    }

    /// A caller with a fresh `group` asks to download `tarball_url`. If a
    /// download of it is in flight the caller gets its group to wait on;
    /// else `None` tells the caller to download, then call `finish`.
    pub fn begin(&mut self, tarball_url: &TarballUrl, group: G) -> (r: Option<G>)
        where
            G: Clone,
        requires
            old(self).wf(),
        ensures
            final(self).wf(),
            final(self).flights() == joined(old(self).flights(), tarball_url@, group),
            r is None <==> !old(self).flights().contains_key(tarball_url@),
            r matches Some(g) ==> cloned(old(self).flights()[tarball_url@], g),
    {
        self.coalescer.join(tarball_url.to_string(), group)
    }

    /// The download of `tarball_url` ended: its group is closed and handed
    /// back for publishing the outcome.
    pub fn finish(&mut self, tarball_url: &TarballUrl) -> (r: Option<G>)
        requires
            old(self).wf(),
        ensures
            final(self).wf(),
            final(self).flights() == old(self).flights().remove(tarball_url@),
            r is Some <==> old(self).flights().contains_key(tarball_url@),
            r matches Some(g) ==> g == old(self).flights()[tarball_url@],
    {
        let key = tarball_url.to_string();
        self.coalescer.finish(key.as_str())
    }
}

/// Callers that ask at once for one tarball make one transfer: of callers
/// asking to download the same URL while no download of it is in flight, the
/// first downloads and every other waits on the group it opened, so all see
/// its one outcome.
pub proof fn lemma_one_transfer_per_tarball<G>(
    m: Map<Seq<char>, G>,
    tarball_url: TarballUrl,
    groups: Seq<G>,
)
    requires
        !m.contains_key(tarball_url@),
        groups.len() >= 2,
    ensures
        runs_work(m, tarball_url@, groups, 0),
        forall|i: int| 0 < i < groups.len() ==> !runs_work(m, tarball_url@, groups, i),
        forall|i: int|
            0 < i <= groups.len() ==> #[trigger] joined_all(m, tarball_url@, groups.take(i))[tarball_url@]
                == groups[0],
{
    lemma_overlapping_callers_share_one_run(m, tarball_url@, groups);
}

} // verus!
