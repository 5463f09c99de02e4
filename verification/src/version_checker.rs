//! Update checks: which published release is the latest stable one, whether
//! it is newer than the running game, and which download fits this platform.
use vstd::prelude::*;
use crate::text::{
    ends_with, has_suffix, owned, strip_leading, text_eq, trim_start_char,
};

verus! {

/// A published file of a release.
#[derive(Debug, Clone)]
pub struct GitHubAsset {
    pub name: String,
    pub browser_download_url: String,
    pub size: u64,
}

/// A published release.
#[derive(Debug, Clone)]
pub struct GitHubRelease {
    pub tag_name: String,
    pub name: String,
    pub published_at: String,
    pub html_url: String,
    pub prerelease: bool,
    pub draft: bool,
    pub assets: Vec<GitHubAsset>,
}

/// The version a release tag names: the tag without its leading `v`s.
pub open spec fn tag_version(tag: Seq<char>) -> Seq<char> {
    strip_leading(tag, 'v')
}

/// A release that is neither a pre-release nor a draft.
pub open spec fn is_stable(release: GitHubRelease) -> bool {
    !release.prerelease && !release.draft
}

/// `p` is the first stable release.
pub open spec fn first_stable_at(releases: Seq<GitHubRelease>, p: int) -> bool {
    &&& 0 <= p < releases.len()
    &&& is_stable(releases[p])
    &&& forall|j: int| 0 <= j < p ==> !is_stable(#[trigger] releases[j])
}

/// The version of the first stable release in the list (the newest, in the
/// order the releases are published), or `None` when every release is a
/// pre-release or a draft.
pub fn latest_stable_version(releases: &Vec<GitHubRelease>) -> (r: Option<String>)
    ensures
        r is None <==> forall|j: int| 0 <= j < releases@.len() ==> !is_stable(#[trigger] releases@[j]),
        forall|p: int| first_stable_at(releases@, p) ==> r is Some && r->0@ == tag_version(
            #[trigger] releases@[p].tag_name@,
        ),
{
    let mut i: usize = 0;
    while i < releases.len()
        invariant
            i <= releases@.len(),
            forall|j: int| 0 <= j < i ==> !is_stable(#[trigger] releases@[j]),
        decreases releases.len() - i,
    {
        if !releases[i].prerelease && !releases[i].draft {
            proof {
                assert forall|p: int| first_stable_at(releases@, p) implies p == i by {
                    if p < i {
                        assert(!is_stable(releases@[p]));
                    } else if p > i {
                        assert(!is_stable(releases@[i as int]));
                    }
                }
            }
            return Some(trim_start_char(releases[i].tag_name.as_str(), 'v'));
        }
        i += 1;
    }
    None
}

/// The platforms the game is published for, and the rest.
#[derive(Debug, Clone, Copy, PartialEq, Eq, Structural)]
pub enum Platform {
    Windows,
    MacOs,
    Other,
}

/// The ending of the file name of the download for a platform and build;
/// none for platforms without published downloads.
pub open spec fn asset_suffix_spec(platform: Platform, dev_build: bool) -> Option<Seq<char>> {
    match platform {
        Platform::Windows => Some(if dev_build { "dev.exe"@ } else { "release.exe"@ }),
        Platform::MacOs => Some(if dev_build { "dev-macos.dmg"@ } else { "release-macos.dmg"@ }),
        Platform::Other => None,
    }
}

/// The ending of the file name of the download for a platform and build.
pub fn asset_suffix(platform: Platform, dev_build: bool) -> (r: Option<String>)
    ensures
        match asset_suffix_spec(platform, dev_build) {
            Some(s) => r is Some && r->0@ == s,
            None => r is None,
        },
{
    match platform {
        Platform::Windows => if dev_build {
            Some(owned("dev.exe"))
        } else {
            Some(owned("release.exe"))
        },
        Platform::MacOs => if dev_build {
            Some(owned("dev-macos.dmg"))
        } else {
            Some(owned("release-macos.dmg"))
        },
        Platform::Other => None,
    }
}

/// `p` is the first release whose tag names `version`.
pub open spec fn first_tagged_at(releases: Seq<GitHubRelease>, version: Seq<char>, p: int) -> bool {
    &&& 0 <= p < releases.len()
    &&& tag_version(releases[p].tag_name@) == version
    &&& forall|j: int| 0 <= j < p ==> tag_version((#[trigger] releases[j]).tag_name@) != version
}

/// `a` is the first asset whose name ends with `suffix`.
pub open spec fn first_asset_at(assets: Seq<GitHubAsset>, suffix: Seq<char>, a: int) -> bool {
    &&& 0 <= a < assets.len()
    &&& has_suffix(assets[a].name@, suffix)
    &&& forall|j: int| 0 <= j < a ==> !has_suffix((#[trigger] assets[j]).name@, suffix)
}

/// The first asset whose name ends with `suffix`.
fn find_asset(assets: &Vec<GitHubAsset>, suffix: &str) -> (r: Option<usize>)
    ensures
        match r {
            Some(a) => first_asset_at(assets@, suffix@, a as int),
            None => forall|j: int| 0 <= j < assets@.len() ==> !has_suffix((#[trigger] assets@[j]).name@, suffix@),
        },
{
    let mut i: usize = 0;
    while i < assets.len()
        invariant
            i <= assets@.len(),
            forall|j: int| 0 <= j < i ==> !has_suffix((#[trigger] assets@[j]).name@, suffix@),
        decreases assets.len() - i,
    {
        if ends_with(assets[i].name.as_str(), suffix) {
            return Some(i);
        }
        i += 1;
    }
    None
}

/// The download link for a published version: the first release whose tag
/// names `latest_version`, and in it the first asset whose name ends with
/// `suffix`. `None` when no suffix is given (no download for this
/// platform), no release has that version, or that release has no such
/// asset.
pub fn download_url(releases: &Vec<GitHubRelease>, latest_version: &str, suffix: Option<&str>) -> (r: Option<String>)
    ensures
        suffix is None ==> r is None,
        (forall|j: int| 0 <= j < releases@.len() ==> tag_version((#[trigger] releases@[j]).tag_name@) != latest_version@) ==> r is None,
        forall|p: int|
            #![trigger first_tagged_at(releases@, latest_version@, p)]
            suffix is Some && first_tagged_at(releases@, latest_version@, p) ==> {
                let assets = releases@[p].assets@;
                &&& (forall|j: int| 0 <= j < assets.len() ==> !has_suffix((#[trigger] assets[j]).name@, suffix->0@)) ==> r is None
                &&& forall|a: int| first_asset_at(assets, suffix->0@, a) ==> r is Some
                    && r->0@ == (#[trigger] assets[a]).browser_download_url@
            },
{
    let mut i: usize = 0;
    while i < releases.len()
        invariant
            i <= releases@.len(),
            forall|j: int| 0 <= j < i ==> tag_version((#[trigger] releases@[j]).tag_name@) != latest_version@,
        decreases releases.len() - i,
    {
        let version = trim_start_char(releases[i].tag_name.as_str(), 'v');
        if text_eq(version.as_str(), latest_version) {
            proof {
                assert forall|p: int| first_tagged_at(releases@, latest_version@, p) implies p == i by {
                    if p < i {
                        assert(tag_version(releases@[p].tag_name@) != latest_version@);
                    } else if p > i {
                        assert(tag_version(releases@[i as int].tag_name@) != latest_version@);
                    }
                }
            }
            let ending = match suffix {
                Some(s) => s,
                None => {
                    return None;
                },
            };
            let assets = &releases[i].assets;
            return match find_asset(assets, ending) {
                Some(a) => {
                    proof {
                        assert forall|b: int| first_asset_at(assets@, ending@, b) implies b == a by {
                            if b < a {
                                assert(!has_suffix(assets@[b].name@, ending@));
                            } else if b > a {
                                assert(!has_suffix(assets@[a as int].name@, ending@));
                            }
                        }
                    }
                    Some(assets[a].browser_download_url.clone())
                },
                None => None,
            };
        }
        i += 1;
    }
    None
}

/// Whether the text parses as a semantic version (`semver::Version::parse`
/// succeeds on it).
pub uninterp spec fn semver_parses(text: Seq<char>) -> bool;

/// Whether the version `latest` parses to is greater than the one `current`
/// parses to, in the order `semver::Version` has: major, minor and patch
/// numbers, then the pre-release (a release above its pre-releases), then
/// the build metadata.
pub uninterp spec fn semver_newer(latest: Seq<char>, current: Seq<char>) -> bool;

/// A parsed semantic version, with the text it was parsed from.
pub struct SemanticVersion {
    text: String,
    version: semver::Version,
}

impl SemanticVersion {
    /// The text the version was parsed from.
    pub closed spec fn source(&self) -> Seq<char> {
        self.text@
    }
}

/// The version type of `semver`.
#[verifier::external_type_specification]
#[verifier::external_body]
pub struct ExVersion(semver::Version);

/// `semver::Version::parse`: some version exactly when the text parses, and
/// then with that text. What the parse accepts (the semantic-versioning
/// grammar, numbers that fit in 64 bits) is left to the name.
#[verifier::external_body]
fn parse_version(text: &str) -> (r: Option<SemanticVersion>)
    ensures
        r is Some <==> semver_parses(text@),
        r matches Some(v) ==> v.source() == text@,
{
    match semver::Version::parse(text) {
        Ok(version) => Some(SemanticVersion { text: text.to_string(), version }),
        Err(_) => None,
    }
}

/// `>` on `semver::Version`, whose order `derive(Ord)` writes over its
/// fields: the result is named over the two source texts. The order is a
/// strict total order, so a version is not newer than one with the same
/// text, and of two versions at most one is newer than the other.
#[verifier::external_body]
fn is_newer(latest: &SemanticVersion, current: &SemanticVersion) -> (r: bool)
    ensures
        r == semver_newer(latest.source(), current.source()),
        latest.source() == current.source() ==> !r,
        r ==> !semver_newer(current.source(), latest.source()),
{
    latest.version > current.version
}

/// Whether `latest_version` names a newer version than `current_version`;
/// `false` when either does not parse.
pub fn is_update_available(current_version: &str, latest_version: &str) -> (r: bool)
    ensures
        r == (semver_parses(current_version@) && semver_parses(latest_version@) && semver_newer(
            latest_version@,
            current_version@,
        )),
        current_version@ == latest_version@ ==> !r,
        r ==> !semver_newer(current_version@, latest_version@),
{
    match (parse_version(current_version), parse_version(latest_version)) {
        (Some(current), Some(latest)) => is_newer(&latest, &current),
        _ => false,
    }
}

} // verus!
