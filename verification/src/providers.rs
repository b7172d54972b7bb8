//! Choosing a build from each provider's API answer: PaperMC projects,
//! Purpur, Fabric, Forge, NeoForge and Mojang.
use vstd::prelude::*;
use crate::assoc::has_key;
use crate::errors::concat;
use crate::installer::{decimal, dec_string, InstallerError, VersionInfo};
use crate::text::{views, chars_of, contains_chars, contains_seq, ends_with, ends_with_chars, find_str_from, occ_from, starts_with, starts_with_chars, str_eq, string_of};

verus! {

pub const PAPER_API: &'static str = "https://api.papermc.io/v2";
pub const PURPUR_API: &'static str = "https://api.purpurmc.org/v2";
pub const FABRIC_META: &'static str = "https://meta.fabricmc.net/v2";
pub const FORGE_PROMOS: &'static str = "https://files.minecraftforge.net/net/minecraftforge/forge/promotions_slim.json";
pub const FORGE_MAVEN: &'static str = "https://maven.minecraftforge.net/net/minecraftforge/forge";
pub const NEOFORGE_MAVEN: &'static str = "https://maven.neoforged.net/releases/net/neoforged/neoforge";
pub const MOJANG_MANIFEST: &'static str = "https://piston-meta.mojang.com/mc/game/version_manifest_v2.json";

/// `a` followed by `b`, appended in place.
fn push_str(s: &mut String, t: &str)
    ensures
        final(s)@ == old(s)@ + t@,
{
    s.append(t);
}

// ---------------------------------------------------------------------------
// PaperMC projects
// ---------------------------------------------------------------------------

/// One build of a PaperMC project.
#[derive(Debug)]
pub struct PaperBuild {
    pub build: u64,
    pub channel: String,
    /// Download kinds (`application`, ...) and their file names.
    pub downloads: Vec<(String, String)>,
}

/// A build on a channel that counts as released.
pub open spec fn is_release_channel(c: Seq<char>) -> bool {
    c == "STABLE"@ || c == "DEFAULT"@
}

/// Index of the last released build among the first `n`.
pub open spec fn last_release(builds: Seq<PaperBuild>, n: int) -> Option<int>
    decreases n,
{
    if n <= 0 {
        None
    } else if is_release_channel(builds[n - 1].channel@) {
        Some(n - 1)
    } else {
        last_release(builds, n - 1)
    }
}

/// The build taken: the last released one, else the last one.
pub open spec fn paper_choice(builds: Seq<PaperBuild>) -> Option<int> {
    match last_release(builds, builds.len() as int) {
        Some(i) => Some(i),
        None => if builds.len() > 0 {
            Some(builds.len() - 1)
        } else {
            None
        },
    }
}

proof fn lemma_last_release(builds: Seq<PaperBuild>, n: int)
    requires
        0 <= n <= builds.len(),
    ensures
        match last_release(builds, n) {
            Some(i) => 0 <= i < n,
            None => true,
        },
    decreases n,
{
    if n > 0 && !is_release_channel(builds[n - 1].channel@) {
        lemma_last_release(builds, n - 1);
    }
}

proof fn lemma_last_release_props(builds: Seq<PaperBuild>, n: int)
    requires
        0 <= n <= builds.len(),
    ensures
        match last_release(builds, n) {
            Some(i) => 0 <= i < n && (builds[i].channel@ == "STABLE"@ || builds[i].channel@ == "DEFAULT"@)
                && forall|j: int| i < j < n ==> !((#[trigger] builds[j]).channel@ == "STABLE"@
                || builds[j].channel@ == "DEFAULT"@),
            None => forall|j: int| 0 <= j < n ==> !((#[trigger] builds[j]).channel@ == "STABLE"@
                || builds[j].channel@ == "DEFAULT"@),
        },
    decreases n,
{
    if n > 0 && !is_release_channel(builds[n - 1].channel@) {
        lemma_last_release_props(builds, n - 1);
    }
}

/// The build taken is the newest released one (channel `STABLE` or
/// `DEFAULT`): no later build in the list is released. When no build is
/// released the newest build is taken, and only an empty list gives none.
pub proof fn law_paper_takes_newest_release(builds: Seq<PaperBuild>)
    ensures
        paper_choice(builds) is None <==> builds.len() == 0,
        paper_choice(builds) matches Some(i) ==> 0 <= i < builds.len() && forall|j: int|
            i < j < builds.len() ==> !((#[trigger] builds[j]).channel@ == "STABLE"@
            || builds[j].channel@ == "DEFAULT"@),
        paper_choice(builds) matches Some(i) ==> ((exists|j: int|
            0 <= j < builds.len() && ((#[trigger] builds[j]).channel@ == "STABLE"@ || builds[j].channel@
                == "DEFAULT"@)) ==> (builds[i].channel@ == "STABLE"@ || builds[i].channel@ == "DEFAULT"@)),
        paper_choice(builds) matches Some(i) ==> ((forall|j: int|
            0 <= j < builds.len() ==> !((#[trigger] builds[j]).channel@ == "STABLE"@ || builds[j].channel@
                == "DEFAULT"@)) ==> i == builds.len() - 1),
{
    lemma_last_release_props(builds, builds.len() as int);
}

fn last_release_index(builds: &Vec<PaperBuild>) -> (r: Option<usize>)
    ensures
        match r {
            Some(i) => last_release(builds@, builds@.len() as int) == Some(i as int),
            None => last_release(builds@, builds@.len() as int) is None,
        },
{
    let mut i: usize = builds.len();
    while i > 0
        invariant
            i <= builds@.len(),
            last_release(builds@, i as int) == last_release(builds@, builds@.len() as int),
        decreases i,
    {
        let c = builds[i - 1].channel.as_str();
        if str_eq(c, "STABLE") || str_eq(c, "DEFAULT") {
            return Some(i - 1);
        }
        i = i - 1;
    }
    None
}

/// Where the builds of a project for a Minecraft version are listed.
pub fn paper_builds_url(project: &str, mc_version: &str) -> (r: String)
    ensures
        r@ == PAPER_API@ + "/projects/"@ + project@ + "/versions/"@ + mc_version@ + "/builds"@,
{
    let mut r = concat(PAPER_API, "/projects/");
    push_str(&mut r, project);
    push_str(&mut r, "/versions/");
    push_str(&mut r, mc_version);
    push_str(&mut r, "/builds");
    r
}

/// Where a project's versions are listed.
pub fn paper_project_url(project: &str) -> (r: String)
    ensures
        r@ == PAPER_API@ + "/projects/"@ + project@,
{
    concat(concat(PAPER_API, "/projects/").as_str(), project)
}

/// Picks the latest released build of a PaperMC project (the last one if
/// none is released) and its `application` download.
pub fn paper_latest(project: &str, mc_version: &str, builds: &Vec<PaperBuild>) -> (r: Result<VersionInfo, InstallerError>)
    ensures
        match paper_choice(builds@) {
            None => r matches Err(InstallerError::NoStableBuild(p, v)) && p@ == project@ && v@ == mc_version@,
            Some(i) => {
                let b = builds@[i];
                if !has_key(b.downloads@, "application"@) {
                    r matches Err(InstallerError::NoVersion(p, v)) && p@ == project@ && v@ == mc_version@
                        + " build "@ + decimal(b.build as nat)
                } else {
                    (r matches Ok(info) && info.name@ == project@ + seq![' '] + mc_version@ + " build "@
                        + decimal(b.build as nat) && info.mc_version@ == mc_version@ && (info.build
                        matches Some(bs) && bs@ == decimal(b.build as nat)) && info.sha1 is None
                        && info.java_version is None && exists|k: int|
                        0 <= k < b.downloads@.len() && (#[trigger] b.downloads@[k]).0@ == "application"@
                            && info.download_url@ == PAPER_API@ + "/projects/"@ + project@ + "/versions/"@
                            + mc_version@ + "/builds/"@ + decimal(b.build as nat) + "/downloads/"@
                            + b.downloads@[k].1@)
                }
            },
        },
{
    let idx: usize = match last_release_index(builds) {
        Some(i) => i,
        None => if builds.len() > 0 {
            builds.len() - 1
        } else {
            return Err(InstallerError::NoStableBuild(String::from_str(project), String::from_str(mc_version)));
        },
    };
    proof {
        lemma_last_release(builds@, builds@.len() as int);
    }
    let b = &builds[idx];
    let build_no = dec_string(b.build);
    let key = String::from_str("application");
    match crate::assoc::find_key(&b.downloads, &key) {
        None => {
            let mut v = concat(mc_version, " build ");
            push_str(&mut v, build_no.as_str());
            Err(InstallerError::NoVersion(String::from_str(project), v))
        },
        Some(k) => {
            let mut url = paper_builds_url(project, mc_version);
            push_str(&mut url, "/");
            push_str(&mut url, build_no.as_str());
            push_str(&mut url, "/downloads/");
            push_str(&mut url, b.downloads[k].1.as_str());
            let mut name = concat(project, " ");
            push_str(&mut name, mc_version);
            push_str(&mut name, " build ");
            push_str(&mut name, build_no.as_str());
            proof {
                reveal_strlit(" ");
                assert("/builds"@ + "/"@ =~= "/builds/"@) by {
                    reveal_strlit("/builds");
                    reveal_strlit("/");
                    reveal_strlit("/builds/");
                }
                assert(url@ =~= PAPER_API@ + "/projects/"@ + project@ + "/versions/"@ + mc_version@
                    + "/builds/"@ + decimal(b.build as nat) + "/downloads/"@ + b.downloads@[k as int].1@);
            }
            Ok(VersionInfo {
                name,
                mc_version: String::from_str(mc_version),
                build: Some(build_no),
                download_url: url,
                sha1: None,
                java_version: None,
            })
        },
    }
}

// ---------------------------------------------------------------------------
// Purpur
// ---------------------------------------------------------------------------

/// The latest Purpur build of a version, given the build number the API
/// reports as latest.
pub fn purpur_latest(mc_version: &str, latest: &str) -> (r: VersionInfo)
    ensures
        r.name@ == "Purpur "@ + mc_version@ + " build "@ + latest@,
        r.mc_version@ == mc_version@,
        r.build matches Some(b) && b@ == latest@,
        r.download_url@ == PURPUR_API@ + "/purpur/"@ + mc_version@ + seq!['/'] + latest@ + "/download"@,
        r.sha1 is None,
        r.java_version is None,
{
    let mut name = concat("Purpur ", mc_version);
    push_str(&mut name, " build ");
    push_str(&mut name, latest);
    let mut url = concat(PURPUR_API, "/purpur/");
    push_str(&mut url, mc_version);
    push_str(&mut url, "/");
    push_str(&mut url, latest);
    push_str(&mut url, "/download");
    proof {
        reveal_strlit("/");
    }
    VersionInfo {
        name,
        mc_version: String::from_str(mc_version),
        build: Some(String::from_str(latest)),
        download_url: url,
        sha1: None,
        java_version: None,
    }
}

/// Where the builds of a Purpur version are described.
pub fn purpur_version_url(mc_version: &str) -> (r: String)
    ensures
        r@ == PURPUR_API@ + "/purpur/"@ + mc_version@,
{
    concat(concat(PURPUR_API, "/purpur/").as_str(), mc_version)
}

// ---------------------------------------------------------------------------
// Fabric
// ---------------------------------------------------------------------------

/// One Fabric installer release.
#[derive(Debug)]
pub struct FabricInstaller {
    pub url: String,
    pub stable: bool,
}

/// The latest Fabric loader for a Minecraft version, installed by the first
/// stable installer (the first one if none is stable). `loaders` are the
/// loader versions for the Minecraft version, newest first.
pub fn fabric_latest(mc_version: &str, loaders: &Vec<String>, installers: &Vec<FabricInstaller>) -> (r: Result<VersionInfo, InstallerError>)
    ensures
        loaders@.len() == 0 ==> (r matches Err(InstallerError::NoVersion(a, b)) && a@ == "fabric-loader"@
            && b@ == mc_version@),
        loaders@.len() > 0 && installers@.len() == 0 ==> (r matches Err(InstallerError::NoVersion(a, b))
            && a@ == "fabric-installer"@ && b@ == "latest"@),
        loaders@.len() > 0 && installers@.len() > 0 ==> (r matches Ok(info) && info.name@ == "Fabric "@
            + mc_version@ + " loader "@ + loaders@[0]@ && info.mc_version@ == mc_version@
            && (info.build matches Some(b) && b@ == loaders@[0]@) && info.sha1 is None
            && info.java_version is None && exists|k: int|
            0 <= k < installers@.len() && info.download_url@ == (#[trigger] installers@[k]).url@ && (
            installers@[k].stable || k == 0) && forall|j: int| 0 <= j < k ==> !(#[trigger] installers@[j]).stable),
{
    if loaders.len() == 0 {
        return Err(InstallerError::NoVersion(String::from_str("fabric-loader"), String::from_str(mc_version)));
    }
    let loader = &loaders[0];
    if installers.len() == 0 {
        return Err(InstallerError::NoVersion(String::from_str("fabric-installer"), String::from_str("latest")));
    }
    let pick: usize = match first_stable_index(installers) {
        Some(k) => k,
        None => 0,
    };
    let mut name = concat("Fabric ", mc_version);
    push_str(&mut name, " loader ");
    push_str(&mut name, loader.as_str());
    Ok(VersionInfo {
        name,
        mc_version: String::from_str(mc_version),
        build: Some(loader.clone()),
        download_url: installers[pick].url.clone(),
        sha1: None,
        java_version: None,
    })
}

fn first_stable_index(installers: &Vec<FabricInstaller>) -> (r: Option<usize>)
    ensures
        match r {
            Some(k) => k < installers@.len() && installers@[k as int].stable && forall|j: int|
                0 <= j < k ==> !(#[trigger] installers@[j]).stable,
            None => forall|j: int| 0 <= j < installers@.len() ==> !(#[trigger] installers@[j]).stable,
        },
{
    let mut k: usize = 0;
    while k < installers.len()
        invariant
            k <= installers@.len(),
            forall|j: int| 0 <= j < k ==> !(#[trigger] installers@[j]).stable,
        decreases installers@.len() - k,
    {
        if installers[k].stable {
            return Some(k);
        }
        k = k + 1;
    }
    None
}

/// Where the Fabric loaders of a Minecraft version are listed.
pub fn fabric_loaders_url(mc_version: &str) -> (r: String)
    ensures
        r@ == FABRIC_META@ + "/versions/loader/"@ + mc_version@,
{
    concat(concat(FABRIC_META, "/versions/loader/").as_str(), mc_version)
}

// ---------------------------------------------------------------------------
// Forge
// ---------------------------------------------------------------------------

/// The Minecraft version a promotion key names: the text before its last
/// `-`, for keys ending in `-latest` or `-recommended`.
pub open spec fn promo_version(k: Seq<char>) -> Option<Seq<char>> {
    if ends_with(k, "-latest"@) {
        Some(k.subrange(0, k.len() - 7))
    } else if ends_with(k, "-recommended"@) {
        Some(k.subrange(0, k.len() - 12))
    } else {
        None
    }
}

/// Strictly descending in string order, so also free of repeats.
pub open spec fn descending(s: Seq<Seq<char>>) -> bool {
    forall|i: int, j: int| 0 <= i < j < s.len() ==> crate::text::seq_lt(#[trigger] s[j], #[trigger] s[i])
}

/// Every listed version is named by one of the first `k` keys.
pub open spec fn named_by_keys(out: Seq<Seq<char>>, keys: Seq<Seq<char>>, k: int) -> bool {
    forall|i: int| 0 <= i < out.len() ==> exists|q: int| 0 <= q < k && promo_version(#[trigger] keys[q]) == Some(#[trigger] out[i])
}

/// Every version named by one of the first `k` keys is listed.
pub open spec fn covers_keys(out: Seq<Seq<char>>, keys: Seq<Seq<char>>, k: int) -> bool {
    forall|q: int| 0 <= q < k ==> (#[trigger] promo_version(keys[q]) matches Some(v) ==> out.contains(v))
}

/// Where `v` goes in a descending list, and whether it is there already.
fn descending_slot(out: &Vec<String>, v: &[char]) -> (r: (usize, bool))
    requires
        descending(views(out@)),
    ensures
        r.0 <= out@.len(),
        forall|i: int| 0 <= i < r.0 ==> crate::text::seq_lt(v@, #[trigger] views(out@)[i]),
        r.1 ==> r.0 < out@.len() && out@[r.0 as int]@ == v@,
        !r.1 ==> forall|i: int| r.0 <= i < out@.len() ==> crate::text::seq_lt(#[trigger] views(out@)[i], v@),
{
    let ghost ov = views(out@);
    let mut p: usize = 0;
    while p < out.len()
        invariant
            p <= out@.len(),
            ov == views(out@),
            descending(ov),
            forall|i: int| 0 <= i < p ==> crate::text::seq_lt(v@, #[trigger] ov[i]),
        decreases out@.len() - p,
    {
        let o = chars_of(out[p].as_str());
        assert(ov[p as int] == o@);
        if crate::text::chars_lt(v, &o) {
            p = p + 1;
        } else {
            let dup = !crate::text::chars_lt(&o, v);
            proof {
                crate::text::lemma_lt_total(v@, o@);
                if !dup {
                    assert forall|i: int| p <= i < out@.len() implies crate::text::seq_lt(#[trigger] ov[i], v@) by {
                        if i > p {
                            crate::text::lemma_lt_trans(ov[i], ov[p as int], v@);
                        }
                    }
                }
            }
            return (p, dup);
        }
    }
    (p, false)
}

proof fn lemma_descending_insert(s: Seq<Seq<char>>, p: int, v: Seq<char>)
    requires
        descending(s),
        0 <= p <= s.len(),
        forall|i: int| 0 <= i < p ==> crate::text::seq_lt(v, #[trigger] s[i]),
        forall|i: int| p <= i < s.len() ==> crate::text::seq_lt(#[trigger] s[i], v),
    ensures
        descending(s.insert(p, v)),
{
    let t = s.insert(p, v);
    assert forall|i: int, j: int| 0 <= i < j < t.len() implies crate::text::seq_lt(#[trigger] t[j], #[trigger] t[i]) by {
        if j < p {
            assert(t[i] == s[i] && t[j] == s[j]);
        } else if j == p {
            assert(t[i] == s[i]);
        } else if i < p {
            assert(t[i] == s[i] && t[j] == s[j - 1]);
        } else if i == p {
            assert(t[j] == s[j - 1]);
        } else {
            assert(t[i] == s[i - 1] && t[j] == s[j - 1]);
        }
    }
}

fn promo_cut(key: &[char]) -> (r: usize)
    ensures
        r == 0 <==> promo_version(key@) is None,
        r > 0 ==> r <= key@.len() && promo_version(key@) == Some(key@.subrange(0, key@.len() - r)),
{
    let latest = chars_of("-latest");
    let recommended = chars_of("-recommended");
    proof {
        reveal_strlit("-latest");
        reveal_strlit("-recommended");
    }
    if ends_with_chars(key, &latest) {
        7
    } else if ends_with_chars(key, &recommended) {
        12
    } else {
        0
    }
}

/// The Minecraft versions with a Forge promotion: every version a key
/// names, once, newest first in string order.
pub fn forge_versions(promo_keys: &Vec<String>) -> (r: Vec<String>)
    ensures
        descending(views(r@)),
        named_by_keys(views(r@), views(promo_keys@), promo_keys@.len() as int),
        covers_keys(views(r@), views(promo_keys@), promo_keys@.len() as int),
{
    let ghost keys = views(promo_keys@);
    let mut out: Vec<String> = Vec::new();
    let mut k: usize = 0;
    while k < promo_keys.len()
        invariant
            k <= promo_keys@.len(),
            keys == views(promo_keys@),
            descending(views(out@)),
            named_by_keys(views(out@), keys, k as int),
            covers_keys(views(out@), keys, k as int),
        decreases promo_keys@.len() - k,
    {
        let key = chars_of(promo_keys[k].as_str());
        assert(keys[k as int] == key@);
        let cut = promo_cut(&key);
        if cut > 0 {
            let v = crate::text::slice_range(&key, 0, key.len() - cut);
            let (p, dup) = descending_slot(&out, &v);
            let ghost before = views(out@);
            if !dup {
                out.insert(p, string_of(&v));
                proof {
                    assert(views(out@) =~= before.insert(p as int, v@));
                    lemma_descending_insert(before, p as int, v@);
                }
            }
            proof {
                let now = views(out@);
                assert(now.contains(v@)) by {
                    if dup {
                        assert(now[p as int] == v@);
                    } else {
                        assert(now[p as int] == v@);
                    }
                }
                assert forall|i: int| 0 <= i < now.len() implies exists|q: int| 0 <= q < k + 1 && promo_version(#[trigger] keys[q]) == Some(#[trigger] now[i]) by {
                    if !dup {
                        if i < p {
                            assert(now[i] == before[i]);
                        } else if i > p {
                            assert(now[i] == before[i - 1]);
                        } else {
                            assert(promo_version(keys[k as int]) == Some(now[i]));
                        }
                    } else {
                        assert(now[i] == before[i]);
                    }
                }
                assert forall|q: int| 0 <= q < k + 1 implies (#[trigger] promo_version(keys[q]) matches Some(w) ==> now.contains(w)) by {
                    if q < k {
                        if let Some(w) = promo_version(keys[q]) {
                            assert(before.contains(w));
                            let i0 = choose|i: int| 0 <= i < before.len() && before[i] == w;
                            if dup || i0 < p {
                                assert(now[i0] == w);
                            } else {
                                assert(now[i0 + 1] == w);
                            }
                        }
                    }
                }
            }
        }
        k = k + 1;
    }
    out
}

/// The Forge build promoted as latest for a Minecraft version, given the
/// promotions (key to Forge version).
pub fn forge_latest(mc_version: &str, promos: &Vec<(String, String)>) -> (r: Result<VersionInfo, InstallerError>)
    ensures
        !has_key(promos@, mc_version@ + "-latest"@) ==> (r matches Err(InstallerError::NoVersion(a, b))
            && a@ == "forge"@ && b@ == mc_version@),
        has_key(promos@, mc_version@ + "-latest"@) ==> (r matches Ok(info) && exists|k: int|
            0 <= k < promos@.len() && (#[trigger] promos@[k]).0@ == mc_version@ + "-latest"@ && {
                let f = promos@[k].1@;
                &&& info.name@ == "Forge "@ + mc_version@ + seq!['-'] + f
                &&& info.mc_version@ == mc_version@
                &&& info.build matches Some(b) && b@ == f
                &&& info.download_url@ == FORGE_MAVEN@ + seq!['/'] + mc_version@ + seq!['-'] + f
                    + "/forge-"@ + mc_version@ + seq!['-'] + f + "-installer.jar"@
                &&& info.sha1 is None
                &&& info.java_version is None
            }),
{
    let key = concat(mc_version, "-latest");
    match crate::assoc::find_key(promos, &key) {
        None => Err(InstallerError::NoVersion(String::from_str("forge"), String::from_str(mc_version))),
        Some(k) => {
            let f = promos[k].1.as_str();
            let mut name = concat("Forge ", mc_version);
            push_str(&mut name, "-");
            push_str(&mut name, f);
            let mut url = concat(FORGE_MAVEN, "/");
            push_str(&mut url, mc_version);
            push_str(&mut url, "-");
            push_str(&mut url, f);
            push_str(&mut url, "/forge-");
            push_str(&mut url, mc_version);
            push_str(&mut url, "-");
            push_str(&mut url, f);
            push_str(&mut url, "-installer.jar");
            proof {
                reveal_strlit("-");
                reveal_strlit("/");
            }
            Ok(VersionInfo {
                name,
                mc_version: String::from_str(mc_version),
                build: Some(String::from_str(f)),
                download_url: url,
                sha1: None,
                java_version: None,
            })
        },
    }
}

// ---------------------------------------------------------------------------
// NeoForge
// ---------------------------------------------------------------------------

/// The Minecraft version without its leading `1.` (`1.21.4` gives `21.4`).
pub open spec fn mc_short(mc: Seq<char>) -> Seq<char> {
    if starts_with(mc, "1."@) {
        mc.subrange(2, mc.len() as int)
    } else {
        mc
    }
}

/// Text up to the first `/` (all of it if there is none).
pub open spec fn before_slash(p: Seq<char>) -> Seq<char> {
    match crate::text::idx_from(p, '/', 0) {
        Some(i) => p.subrange(0, i),
        None => p,
    }
}

/// A NeoForge version directory belongs to the Minecraft version.
pub open spec fn neo_matches(v: Seq<char>, mc: Seq<char>) -> bool {
    starts_with(v, mc_short(mc)) || contains_seq(v, mc)
}

/// Walks the parts of `html` split at `href="`, from the part starting at
/// `pos`, and keeps the last version directory that belongs to `mc`.
pub open spec fn last_neo_from(html: Seq<char>, pos: int, mc: Seq<char>, best: Option<Seq<char>>) -> Option<Seq<char>>
    decreases html.len() - pos,
{
    if pos < 0 || pos > html.len() {
        best
    } else {
        let pat = "href=\""@;
        let next = occ_from(html, pat, pos);
        let end = match next {
            Some(i) => i,
            None => html.len() as int,
        };
        let v = before_slash(html.subrange(pos, end));
        let best2 = if pos <= end && neo_matches(v, mc) {
            Some(v)
        } else {
            best
        };
        match next {
            None => best2,
            Some(i) => if i + pat.len() > pos && i + pat.len() <= html.len() {
                last_neo_from(html, i + pat.len(), mc, best2)
            } else {
                best2
            },
        }
    }
}

/// The NeoForge version chosen from the Maven directory listing: the last
/// linked directory (every part after an `href="`) that belongs to `mc`.
pub open spec fn neo_choice(html: Seq<char>, mc: Seq<char>) -> Option<Seq<char>> {
    match occ_from(html, "href=\""@, 0) {
        None => None,
        Some(i) => last_neo_from(html, i + "href=\""@.len(), mc, None),
    }
}

fn before_slash_exec(p: &[char]) -> (r: Vec<char>)
    ensures
        r@ == before_slash(p@),
{
    match crate::text::find_char_from(p, '/', 0) {
        Some(i) => {
            proof {
                crate::text::lemma_idx_from(p@, '/', 0);
            }
            crate::text::slice_range(p, 0, i)
        },
        None => crate::text::slice_range(p, 0, p.len()),
    }
}

fn mc_short_exec(mc: &[char]) -> (r: Vec<char>)
    ensures
        r@ == mc_short(mc@),
{
    let one = chars_of("1.");
    proof {
        reveal_strlit("1.");
    }
    if starts_with_chars(mc, &one) {
        crate::text::slice_range(mc, 2, mc.len())
    } else {
        crate::text::slice_range(mc, 0, mc.len())
    }
}

fn scan_neo(h: &Vec<char>, pat: &Vec<char>, mc: &Vec<char>, short: &Vec<char>, start: usize, init: Option<Vec<char>>) -> (r: Option<Vec<char>>)
    requires
        start <= h@.len(),
        pat@ == "href=\""@,
        pat@.len() == 6,
        short@ == mc_short(mc@),
    ensures
        match r {
            Some(b) => Some(b@),
            None => None,
        } == last_neo_from(h@, start as int, mc@, match init {
            Some(b) => Some(b@),
            None => None,
        }),
{
    let mut best = init;
    let mut pos: usize = start;
    let plen = pat.len();
    loop
        invariant
            pos <= h@.len(),
            plen == pat@.len() == 6,
            pat@ == "href=\""@,
            short@ == mc_short(mc@),
            last_neo_from(h@, pos as int, mc@, match best {
                Some(b) => Some(b@),
                None => None,
            }) == last_neo_from(h@, start as int, mc@, match init {
                Some(b) => Some(b@),
                None => None,
            }),
        decreases h@.len() - pos,
    {
        let next = find_str_from(h, pat, pos);
        proof {
            crate::text::lemma_occ_from(h@, pat@, pos as int);
        }
        let end: usize = match next {
            Some(i) => i,
            None => h.len(),
        };
        let part = crate::text::slice_range(h, pos, end);
        let v = before_slash_exec(&part);
        let ok = starts_with_chars(&v, short) || contains_chars(&v, mc);
        if ok {
            best = Some(v);
        }
        match next {
            None => {
                return best;
            },
            Some(i) => {
                let hl = h.len();
                assert(i + plen <= hl);
                pos = i + plen;
            },
        }
    }
}

/// The latest NeoForge build for a Minecraft version, chosen from the
/// HTML listing of NeoForge's Maven directory.
pub fn neoforge_latest(mc_version: &str, html: &str) -> (r: Result<VersionInfo, InstallerError>)
    ensures
        match neo_choice(html@, mc_version@) {
            None => r matches Err(InstallerError::NoVersion(a, b)) && a@ == "neoforge"@ && b@ == mc_version@,
            Some(v) => r matches Ok(info) && info.name@ == "NeoForge "@ + v && info.mc_version@ == mc_version@
                && (info.build matches Some(b) && b@ == v) && info.download_url@ == NEOFORGE_MAVEN@
                + seq!['/'] + v + "/neoforge-"@ + v + "-installer.jar"@ && info.sha1 is None
                && info.java_version is None,
        },
{
    let h = chars_of(html);
    let mc = chars_of(mc_version);
    let short = mc_short_exec(&mc);
    let pat = chars_of("href=\"");
    proof {
        reveal_strlit("href=\"");
    }
    let plen = pat.len();
    let chosen: Option<Vec<char>> = match find_str_from(&h, &pat, 0) {
        None => None,
        Some(first) => {
            proof {
                crate::text::lemma_occ_from(h@, pat@, 0);
            }
            let hl = h.len();
            assert(first + plen <= hl);
            scan_neo(&h, &pat, &mc, &short, first + plen, None)
        },
    };
    match chosen {
        None => Err(InstallerError::NoVersion(String::from_str("neoforge"), String::from_str(mc_version))),
        Some(v) => {
            let vs = string_of(&v);
            let mut name = String::from_str("NeoForge ");
            push_str(&mut name, vs.as_str());
            let mut url = concat(NEOFORGE_MAVEN, "/");
            push_str(&mut url, vs.as_str());
            push_str(&mut url, "/neoforge-");
            push_str(&mut url, vs.as_str());
            push_str(&mut url, "-installer.jar");
            proof {
                reveal_strlit("/");
            }
            Ok(VersionInfo {
                name,
                mc_version: String::from_str(mc_version),
                build: Some(vs.clone()),
                download_url: url,
                sha1: None,
                java_version: None,
            })
        },
    }
}

// ---------------------------------------------------------------------------
// Mojang
// ---------------------------------------------------------------------------

/// The metadata URL of a Minecraft version in Mojang's manifest (entries
/// are `(id, url)`, the first with the id counts).
pub fn vanilla_meta_url(entries: &Vec<(String, String)>, mc_version: &str) -> (r: Result<String, InstallerError>)
    ensures
        !has_key(entries@, mc_version@) ==> (r matches Err(InstallerError::NoVersion(a, b)) && a@ == "vanilla"@
            && b@ == mc_version@),
        has_key(entries@, mc_version@) ==> (r matches Ok(u) && exists|k: int|
            0 <= k < entries@.len() && (#[trigger] entries@[k]).0@ == mc_version@ && entries@[k].1@ == u@
                && forall|j: int| 0 <= j < k ==> (#[trigger] entries@[j]).0@ != mc_version@),
{
    let key = String::from_str(mc_version);
    let mut i: usize = 0;
    while i < entries.len()
        invariant
            i <= entries@.len(),
            key@ == mc_version@,
            forall|j: int| 0 <= j < i ==> (#[trigger] entries@[j]).0@ != mc_version@,
        decreases entries@.len() - i,
    {
        if str_eq(entries[i].0.as_str(), key.as_str()) {
            return Ok(entries[i].1.clone());
        }
        i = i + 1;
    }
    Err(InstallerError::NoVersion(String::from_str("vanilla"), String::from_str(mc_version)))
}

/// The vanilla server of a version, given its metadata: the server JAR's
/// URL and SHA-1 and the required Java version, if stated.
pub fn vanilla_latest(mc_version: &str, server_url: String, server_sha1: String, java_major: Option<u32>) -> (r: VersionInfo)
    ensures
        r.name@ == "Vanilla "@ + mc_version@,
        r.mc_version@ == mc_version@,
        r.build is None,
        r.download_url == server_url,
        r.sha1 == Some(server_sha1),
        r.java_version == java_major,
{
    VersionInfo {
        name: concat("Vanilla ", mc_version),
        mc_version: String::from_str(mc_version),
        build: None,
        download_url: server_url,
        sha1: Some(server_sha1),
        java_version: java_major,
    }
}

} // verus!
