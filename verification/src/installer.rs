//! Server software: the providers, where each publishes its builds, and how
//! the build to download is chosen from what a provider's API answers.
use vstd::prelude::*;
use crate::errors::{concat, Error};
use crate::modpack::{sha1_digest_hex, sha1_hex};
use crate::text::{all_ascii, ascii_lower_seq, chars_of, str_eq, string_of, to_lowercase, unicode_lowercase};

verus! {

/// Supported Minecraft server software types.
#[derive(Debug, Clone, Copy, PartialEq, Eq, Structural)]
pub enum ServerSoftware {
    /// Mojang vanilla server.
    Vanilla,
    /// PaperMC, a high-performance Spigot fork.
    Paper,
    /// PurpurMC, a Paper fork with extra configuration.
    Purpur,
    /// Spigot, built from source with BuildTools.
    Spigot,
    /// Fabric, a lightweight mod loader (installer-based).
    Fabric,
    /// Forge, a mod loader (installer-based).
    Forge,
    /// NeoForge, a community Forge fork (installer-based).
    NeoForge,
    /// Waterfall, a BungeeCord proxy fork.
    Waterfall,
    /// Velocity, a modern proxy.
    Velocity,
}

/// The lower-case name of each provider.
pub open spec fn software_name(s: ServerSoftware) -> Seq<char> {
    match s {
        ServerSoftware::Vanilla => "vanilla"@,
        ServerSoftware::Paper => "paper"@,
        ServerSoftware::Purpur => "purpur"@,
        ServerSoftware::Spigot => "spigot"@,
        ServerSoftware::Fabric => "fabric"@,
        ServerSoftware::Forge => "forge"@,
        ServerSoftware::NeoForge => "neoforge"@,
        ServerSoftware::Waterfall => "waterfall"@,
        ServerSoftware::Velocity => "velocity"@,
    }
}

impl ServerSoftware {
    /// The provider's name, as used in configurations and URLs.
    pub fn name(&self) -> (r: &'static str)
        ensures
            r@ == software_name(*self),
    {
        match self {
            ServerSoftware::Vanilla => "vanilla",
            ServerSoftware::Paper => "paper",
            ServerSoftware::Purpur => "purpur",
            ServerSoftware::Spigot => "spigot",
            ServerSoftware::Fabric => "fabric",
            ServerSoftware::Forge => "forge",
            ServerSoftware::NeoForge => "neoforge",
            ServerSoftware::Waterfall => "waterfall",
            ServerSoftware::Velocity => "velocity",
        }
    }
}

/// The provider a lower-cased name stands for.
pub open spec fn software_named(n: Seq<char>) -> Option<ServerSoftware> {
    if n == "vanilla"@ {
        Some(ServerSoftware::Vanilla)
    } else if n == "paper"@ {
        Some(ServerSoftware::Paper)
    } else if n == "purpur"@ {
        Some(ServerSoftware::Purpur)
    } else if n == "spigot"@ {
        Some(ServerSoftware::Spigot)
    } else if n == "fabric"@ {
        Some(ServerSoftware::Fabric)
    } else if n == "forge"@ {
        Some(ServerSoftware::Forge)
    } else if n == "neoforge"@ {
        Some(ServerSoftware::NeoForge)
    } else if n == "waterfall"@ {
        Some(ServerSoftware::Waterfall)
    } else if n == "velocity"@ {
        Some(ServerSoftware::Velocity)
    } else {
        None
    }
}

/// Reads a provider name, ignoring case.
pub fn parse_provider(name: &str) -> (r: Result<ServerSoftware, Error>)
    ensures
        match (r, software_named(unicode_lowercase(name@))) {
            (Ok(s), Some(t)) => s == t,
            (Err(Error::Other(m)), None) => m@ == "Unknown provider '"@ + name@ + "'"@,
            _ => false,
        },
        all_ascii(name@) ==> match software_named(ascii_lower_seq(name@)) {
            Some(t) => r matches Ok(s) && s == t,
            None => r is Err,
        },
{
    let low = to_lowercase(name);
    let l = low.as_str();
    if str_eq(l, "vanilla") {
        Ok(ServerSoftware::Vanilla)
    } else if str_eq(l, "paper") {
        Ok(ServerSoftware::Paper)
    } else if str_eq(l, "purpur") {
        Ok(ServerSoftware::Purpur)
    } else if str_eq(l, "spigot") {
        Ok(ServerSoftware::Spigot)
    } else if str_eq(l, "fabric") {
        Ok(ServerSoftware::Fabric)
    } else if str_eq(l, "forge") {
        Ok(ServerSoftware::Forge)
    } else if str_eq(l, "neoforge") {
        Ok(ServerSoftware::NeoForge)
    } else if str_eq(l, "waterfall") {
        Ok(ServerSoftware::Waterfall)
    } else if str_eq(l, "velocity") {
        Ok(ServerSoftware::Velocity)
    } else {
        let mut m = concat("Unknown provider '", name);
        m.append("'");
        Err(Error::Other(m))
    }
}

/// A provider name as the rules compare it: lower-cased.
pub fn provider_key(provider: &str) -> (r: String)
    ensures
        r@ == unicode_lowercase(provider@),
{
    to_lowercase(provider)
}

/// A software provider that can be queried for versions.
#[derive(Debug)]
pub struct ProviderInfo {
    pub name: String,
    pub label: String,
}

/// The providers offered for new instances, with their labels.
pub open spec fn provider_table() -> Seq<(Seq<char>, Seq<char>)> {
    seq![
        ("vanilla"@, "Mojang Vanilla"@),
        ("paper"@, "PaperMC"@),
        ("purpur"@, "PurpurMC"@),
        ("fabric"@, "Fabric"@),
        ("forge"@, "Forge"@),
        ("neoforge"@, "NeoForge"@),
        ("waterfall"@, "Waterfall (Proxy)"@),
        ("velocity"@, "Velocity (Proxy)"@),
    ]
}

fn provider(name: &str, label: &str) -> (r: ProviderInfo)
    ensures
        r.name@ == name@,
        r.label@ == label@,
{
    ProviderInfo { name: String::from_str(name), label: String::from_str(label) }
}

/// The supported providers, in the order the interface lists them.
pub fn list_providers() -> (r: Vec<ProviderInfo>)
    ensures
        r@.len() == provider_table().len(),
        forall|i: int| 0 <= i < r@.len() ==> (#[trigger] r@[i]).name@ == provider_table()[i].0
            && r@[i].label@ == provider_table()[i].1,
{
    let mut r: Vec<ProviderInfo> = Vec::new();
    r.push(provider("vanilla", "Mojang Vanilla"));
    r.push(provider("paper", "PaperMC"));
    r.push(provider("purpur", "PurpurMC"));
    r.push(provider("fabric", "Fabric"));
    r.push(provider("forge", "Forge"));
    r.push(provider("neoforge", "NeoForge"));
    r.push(provider("waterfall", "Waterfall (Proxy)"));
    r.push(provider("velocity", "Velocity (Proxy)"));
    r
}

/// A name made of lower-case ASCII letters is ASCII and unchanged by
/// lower-casing.
proof fn lemma_lower_letters(n: Seq<char>)
    requires
        forall|i: int| 0 <= i < n.len() ==> 'a' <= #[trigger] n[i] <= 'z',
    ensures
        all_ascii(n),
        ascii_lower_seq(n) == n,
{
    assert(ascii_lower_seq(n) =~= n);
}

/// Every provider's name is non-empty lower-case ASCII and parses back to
/// that provider, so different providers have different names.
pub proof fn law_provider_name_parses_back(s: ServerSoftware, t: ServerSoftware)
    ensures
        software_name(s).len() > 0,
        all_ascii(software_name(s)),
        ascii_lower_seq(software_name(s)) == software_name(s),
        software_named(software_name(s)) == Some(s),
        s != t ==> software_name(s) != software_name(t),
{
    reveal_strlit("vanilla");
    reveal_strlit("paper");
    reveal_strlit("purpur");
    reveal_strlit("spigot");
    reveal_strlit("fabric");
    reveal_strlit("forge");
    reveal_strlit("neoforge");
    reveal_strlit("waterfall");
    reveal_strlit("velocity");
    lemma_lower_letters(software_name(s));
    lemma_lower_letters(software_name(t));
    let n = software_name(s);
    // Distinct names differ in length or in their first letter.
    assert(n.len() > 0);
    assert forall|u: ServerSoftware| u != s implies #[trigger] software_name(u) != n by {
        let m = software_name(u);
        assert(m.len() != n.len() || m[0] != n[0]);
    }
    assert(software_named(n) == Some(s)) by {
        assert(software_name(ServerSoftware::Vanilla) != n || s == ServerSoftware::Vanilla);
        assert(software_name(ServerSoftware::Paper) != n || s == ServerSoftware::Paper);
        assert(software_name(ServerSoftware::Purpur) != n || s == ServerSoftware::Purpur);
        assert(software_name(ServerSoftware::Spigot) != n || s == ServerSoftware::Spigot);
        assert(software_name(ServerSoftware::Fabric) != n || s == ServerSoftware::Fabric);
        assert(software_name(ServerSoftware::Forge) != n || s == ServerSoftware::Forge);
        assert(software_name(ServerSoftware::NeoForge) != n || s == ServerSoftware::NeoForge);
        assert(software_name(ServerSoftware::Waterfall) != n || s == ServerSoftware::Waterfall);
    }
    if s != t {
        assert(software_name(t) != n);
    }
}

/// Every listed provider has a label and a name that parses back to a
/// provider of that name, and no name is listed twice.
pub proof fn law_listed_providers_parse()
    ensures
        forall|i: int| 0 <= i < provider_table().len() ==> (#[trigger] provider_table()[i]).1.len() > 0
            && all_ascii(provider_table()[i].0)
            && ascii_lower_seq(provider_table()[i].0) == provider_table()[i].0
            && (software_named(provider_table()[i].0) matches Some(x) && software_name(x) == provider_table()[i].0),
        forall|i: int, j: int| 0 <= i < j < provider_table().len() ==> #[trigger] provider_table()[i].0
            != #[trigger] provider_table()[j].0,
{
    reveal_strlit("vanilla");
    reveal_strlit("paper");
    reveal_strlit("purpur");
    reveal_strlit("fabric");
    reveal_strlit("forge");
    reveal_strlit("neoforge");
    reveal_strlit("waterfall");
    reveal_strlit("velocity");
    reveal_strlit("Mojang Vanilla");
    reveal_strlit("PaperMC");
    reveal_strlit("PurpurMC");
    reveal_strlit("Fabric");
    reveal_strlit("Forge");
    reveal_strlit("NeoForge");
    reveal_strlit("Waterfall (Proxy)");
    reveal_strlit("Velocity (Proxy)");
    let t = provider_table();
    assert forall|i: int| 0 <= i < t.len() implies (#[trigger] t[i]).1.len() > 0 && all_ascii(t[i].0)
        && ascii_lower_seq(t[i].0) == t[i].0 && (software_named(t[i].0) matches Some(x) && software_name(x)
        == t[i].0) by {
        lemma_lower_letters(t[i].0);
        let x = software_named(t[i].0)->0;
        law_provider_name_parses_back(x, x);
    }
    assert forall|i: int, j: int| 0 <= i < j < t.len() implies #[trigger] t[i].0 != #[trigger] t[j].0 by {
        let x = software_named(t[i].0)->0;
        let y = software_named(t[j].0)->0;
        law_provider_name_parses_back(x, y);
        law_provider_name_parses_back(y, x);
        assert(software_name(x) == t[i].0 && software_name(y) == t[j].0);
        if x == y {
            assert(t[i].0 == t[j].0);
            assert(t[i].0.len() != t[j].0.len() || t[i].0[0] != t[j].0[0] || i == j);
        }
    }
}

// ---------------------------------------------------------------------------
// Versions and errors
// ---------------------------------------------------------------------------

/// Information about a specific server build that can be downloaded.
#[derive(Debug)]
pub struct VersionInfo {
    /// Human-readable name (e.g. `"paper 1.21.4 build 138"`).
    pub name: String,
    /// The Minecraft version (e.g. `"1.21.4"`).
    pub mc_version: String,
    /// Build identifier, if the provider has one.
    pub build: Option<String>,
    /// Direct download URL of the server (or installer) JAR.
    pub download_url: String,
    /// SHA-1 checksum, if published.
    pub sha1: Option<String>,
    /// Minimum Java major version, if known.
    pub java_version: Option<u32>,
}

/// What can go wrong choosing or fetching a build, apart from the
/// transport itself.
#[derive(Debug)]
pub enum InstallerError {
    /// A download answered with a non-success status.
    HttpStatus(u16, String),
    /// The software cannot be installed this way.
    Unsupported(String),
    /// No version of the named thing matches.
    NoVersion(String, String),
    /// A download's SHA-1 differs from the published one.
    ChecksumMismatch { expected: String, actual: String },
    /// The provider has no build for the version.
    NoStableBuild(String, String),
}

/// Decimal digits of a number.
pub open spec fn decimal(n: nat) -> Seq<char>
    decreases n,
{
    if n < 10 {
        seq![(48 + n) as char]
    } else {
        decimal(n / 10) + seq![(48 + n % 10) as char]
    }
}

/// The decimal text of a number (`to_string`).
pub fn dec_string(n: u64) -> (r: String)
    ensures
        r@ == decimal(n as nat),
    decreases n,
{
    let d = digit_char(n % 10);
    if n < 10 {
        let mut v: Vec<char> = Vec::new();
        v.push(d);
        assert(v@ =~= decimal(n as nat));
        string_of(&v)
    } else {
        let mut s = chars_of(dec_string(n / 10).as_str());
        s.push(d);
        assert(s@ =~= decimal(n as nat));
        string_of(&s)
    }
}

fn digit_char(d: u64) -> (c: char)
    requires
        d < 10,
    ensures
        c == (48 + d) as char,
{
    match d {
        0 => '0',
        1 => '1',
        2 => '2',
        3 => '3',
        4 => '4',
        5 => '5',
        6 => '6',
        7 => '7',
        8 => '8',
        _ => '9',
    }
}

// ---------------------------------------------------------------------------
// Where each provider's latest build comes from
// ---------------------------------------------------------------------------

/// Which API answers for a provider's latest build.
#[derive(Debug)]
pub enum BuildSource {
    Vanilla,
    /// A PaperMC project (`paper`, `waterfall` or `velocity`).
    PaperProject(String),
    Purpur,
    Fabric,
    Forge,
    NeoForge,
}

/// Where the latest build of each provider is looked up; Spigot has no
/// downloadable build.
pub fn latest_source(software: ServerSoftware) -> (r: Result<BuildSource, InstallerError>)
    ensures
        software == ServerSoftware::Spigot <==> r is Err,
        r matches Err(InstallerError::Unsupported(m)) ==> m@
            == "Spigot requires BuildTools; use `install_loader` instead"@,
        r matches Err(e) ==> e is Unsupported,
        software == ServerSoftware::Vanilla ==> r matches Ok(BuildSource::Vanilla),
        software == ServerSoftware::Paper ==> (r matches Ok(BuildSource::PaperProject(p)) && p@ == "paper"@),
        software == ServerSoftware::Waterfall ==> (r matches Ok(BuildSource::PaperProject(p)) && p@
            == "waterfall"@),
        software == ServerSoftware::Velocity ==> (r matches Ok(BuildSource::PaperProject(p)) && p@
            == "velocity"@),
        software == ServerSoftware::Purpur ==> r matches Ok(BuildSource::Purpur),
        software == ServerSoftware::Fabric ==> r matches Ok(BuildSource::Fabric),
        software == ServerSoftware::Forge ==> r matches Ok(BuildSource::Forge),
        software == ServerSoftware::NeoForge ==> r matches Ok(BuildSource::NeoForge),
{
    match software {
        ServerSoftware::Vanilla => Ok(BuildSource::Vanilla),
        ServerSoftware::Paper => Ok(BuildSource::PaperProject(String::from_str("paper"))),
        ServerSoftware::Purpur => Ok(BuildSource::Purpur),
        ServerSoftware::Spigot => Err(
            InstallerError::Unsupported(
                String::from_str("Spigot requires BuildTools; use `install_loader` instead"),
            ),
        ),
        ServerSoftware::Fabric => Ok(BuildSource::Fabric),
        ServerSoftware::Forge => Ok(BuildSource::Forge),
        ServerSoftware::NeoForge => Ok(BuildSource::NeoForge),
        ServerSoftware::Waterfall => Ok(BuildSource::PaperProject(String::from_str("waterfall"))),
        ServerSoftware::Velocity => Ok(BuildSource::PaperProject(String::from_str("velocity"))),
    }
}

/// Where a provider's version list is looked up: Spigot and NeoForge have
/// none (their list is empty without asking anyone).
pub fn versions_source(software: ServerSoftware) -> (r: Option<BuildSource>)
    ensures
        r is None <==> (software == ServerSoftware::Spigot || software == ServerSoftware::NeoForge),
        software == ServerSoftware::Vanilla ==> r matches Some(BuildSource::Vanilla),
        software == ServerSoftware::Paper ==> (r matches Some(BuildSource::PaperProject(p)) && p@ == "paper"@),
        software == ServerSoftware::Waterfall ==> (r matches Some(BuildSource::PaperProject(p)) && p@
            == "waterfall"@),
        software == ServerSoftware::Velocity ==> (r matches Some(BuildSource::PaperProject(p)) && p@
            == "velocity"@),
        software == ServerSoftware::Purpur ==> r matches Some(BuildSource::Purpur),
        software == ServerSoftware::Fabric ==> r matches Some(BuildSource::Fabric),
        software == ServerSoftware::Forge ==> r matches Some(BuildSource::Forge),
{
    match software {
        ServerSoftware::Spigot | ServerSoftware::NeoForge => None,
        _ => match latest_source(software) {
            Ok(s) => Some(s),
            Err(_) => None,
        },
    }
}

/// Whether an HTTP status counts as success (2xx).
pub open spec fn http_success(status: u16) -> bool {
    200 <= status <= 299
}

/// Refuses a download whose response status is not a success.
pub fn check_download_status(status: u16, url: &str) -> (r: Result<(), InstallerError>)
    ensures
        http_success(status) ==> r is Ok,
        !http_success(status) ==> (r matches Err(InstallerError::HttpStatus(c, u)) && c == status && u@
            == url@),
{
    if 200 <= status && status <= 299 {
        Ok(())
    } else {
        Err(InstallerError::HttpStatus(status, String::from_str(url)))
    }
}

/// Checks downloaded bytes against a published SHA-1.
pub fn verify_sha1(content: &[u8], expected: &str) -> (r: Result<(), InstallerError>)
    ensures
        sha1_hex(content@) == expected@ ==> r is Ok,
        sha1_hex(content@) != expected@ ==> (r matches Err(
            InstallerError::ChecksumMismatch { expected: e, actual: a },
        ) && e@ == expected@ && a@ == sha1_hex(content@)),
{
    let actual = sha1_digest_hex(content);
    if str_eq(actual.as_str(), expected) {
        Ok(())
    } else {
        Err(InstallerError::ChecksumMismatch { expected: String::from_str(expected), actual })
    }
}

} // verus!
