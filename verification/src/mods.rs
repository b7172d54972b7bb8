//! Mods and plugins of a server: where they live, how their files are
//! named, listed, toggled and found again, and how a modpack is put
//! together from them.
use vstd::prelude::*;
use crate::assoc::has_key;
use crate::text::{chars_of, ends_with, ends_with_chars, is_ascii_alnum, seq_lt, str_eq, strip_suffix, strip_suffix_chars, string_of};

verus! {

/// Information about a single mod or plugin file.
#[derive(Debug)]
pub struct ModInfo {
    pub filename: String,
    pub name: String,
    pub enabled: bool,
    pub size_bytes: u64,
    pub size_human: String,
    pub last_modified: String,
    /// The original download URL, if known.
    pub download_url: Option<String>,
}

/// Information about a generated `.mrpack` modpack archive.
#[derive(Debug)]
pub struct ModpackInfo {
    pub name: String,
    pub version: String,
    pub file_path: String,
    pub size_bytes: u64,
    pub include_count: usize,
}

/// Providers that load mods (the others load plugins).
pub open spec fn loads_mods(provider_lower: Seq<char>) -> bool {
    provider_lower == "fabric"@ || provider_lower == "forge"@ || provider_lower == "neoforge"@
}

/// The providers that load mods (into `mods/`, as type `mod`) are exactly
/// Fabric, Forge and NeoForge, which are also exactly the providers whose
/// server is set up by an installer; every other provider takes plugins.
pub proof fn law_mod_loaders(provider_lower: Seq<char>, s: crate::installer::ServerSoftware)
    ensures
        loads_mods(provider_lower) <==> (provider_lower == "fabric"@ || provider_lower == "forge"@
            || provider_lower == "neoforge"@),
        loads_mods(provider_lower) <==> crate::instance::uses_installer(provider_lower),
        loads_mods(crate::installer::software_name(s)) <==> (s == crate::installer::ServerSoftware::Fabric
            || s == crate::installer::ServerSoftware::Forge || s == crate::installer::ServerSoftware::NeoForge),
{
    crate::installer::law_provider_name_parses_back(s, s);
    reveal_strlit("fabric");
    reveal_strlit("forge");
    reveal_strlit("neoforge");
    reveal_strlit("vanilla");
    reveal_strlit("paper");
    reveal_strlit("purpur");
    reveal_strlit("spigot");
    reveal_strlit("waterfall");
    reveal_strlit("velocity");
    let n = crate::installer::software_name(s);
    crate::installer::law_provider_name_parses_back(crate::installer::ServerSoftware::Fabric, s);
    crate::installer::law_provider_name_parses_back(crate::installer::ServerSoftware::Forge, s);
    crate::installer::law_provider_name_parses_back(crate::installer::ServerSoftware::NeoForge, s);
}

/// Whether the (lower-cased) provider loads mods rather than plugins.
pub fn is_mod_loader(provider_lower: &str) -> (b: bool)
    ensures
        b == loads_mods(provider_lower@),
{
    str_eq(provider_lower, "fabric") || str_eq(provider_lower, "forge") || str_eq(provider_lower, "neoforge")
}

/// Name of the directory under the server directory that holds the files:
/// `mods` or `plugins`.
pub fn mods_dir_name(provider_lower: &str) -> (r: String)
    ensures
        loads_mods(provider_lower@) ==> r@ == "mods"@,
        !loads_mods(provider_lower@) ==> r@ == "plugins"@,
{
    if is_mod_loader(provider_lower) {
        String::from_str("mods")
    } else {
        String::from_str("plugins")
    }
}

/// Human-readable kind of the files: `mod` or `plugin`.
pub fn mod_type(provider_lower: &str) -> (r: String)
    ensures
        loads_mods(provider_lower@) ==> r@ == "mod"@,
        !loads_mods(provider_lower@) ==> r@ == "plugin"@,
{
    if is_mod_loader(provider_lower) {
        String::from_str("mod")
    } else {
        String::from_str("plugin")
    }
}

// ---------------------------------------------------------------------------
// File names
// ---------------------------------------------------------------------------

/// A file the listing shows: a JAR, enabled or disabled.
pub open spec fn is_mod_file(n: Seq<char>) -> bool {
    ends_with(n, ".jar"@) || ends_with(n, ".jar.disabled"@)
}

/// A file is enabled unless it ends in `.disabled`.
pub open spec fn mod_enabled(n: Seq<char>) -> bool {
    !ends_with(n, ".disabled"@)
}

/// The display name: the file name without `.jar` or `.jar.disabled`.
pub open spec fn mod_display_name(n: Seq<char>) -> Seq<char> {
    match strip_suffix(n, ".jar"@) {
        Some(b) => b,
        None => match strip_suffix(n, ".jar.disabled"@) {
            Some(b) => b,
            None => n,
        },
    }
}

/// The file name without a trailing `.disabled`: the key under which the
/// download URL is recorded.
pub open spec fn manifest_key(n: Seq<char>) -> Seq<char> {
    match strip_suffix(n, ".disabled"@) {
        Some(b) => b,
        None => n,
    }
}

/// `s` without `suffix` if it ends with it, else `s` itself.
pub fn strip_or_keep(s: &str, suffix: &str) -> (r: String)
    ensures
        r@ == (match strip_suffix(s@, suffix@) {
            Some(b) => b,
            None => s@,
        }),
{
    let c = chars_of(s);
    let p = chars_of(suffix);
    match strip_suffix_chars(&c, &p) {
        Some(b) => string_of(&b),
        None => String::from_str(s),
    }
}

/// Whether the name is listed as a mod file.
pub fn is_mod_file_name(n: &str) -> (b: bool)
    ensures
        b == is_mod_file(n@),
{
    let c = chars_of(n);
    ends_with_chars(&c, &chars_of(".jar")) || ends_with_chars(&c, &chars_of(".jar.disabled"))
}

/// Display name of a mod file.
pub fn display_name(n: &str) -> (r: String)
    ensures
        r@ == mod_display_name(n@),
{
    let c = chars_of(n);
    match strip_suffix_chars(&c, &chars_of(".jar")) {
        Some(b) => string_of(&b),
        None => strip_or_keep(n, ".jar.disabled"),
    }
}

/// Manifest key of a mod file.
pub fn manifest_key_of(n: &str) -> (r: String)
    ensures
        r@ == manifest_key(n@),
{
    strip_or_keep(n, ".disabled")
}

/// Whether a mod file is enabled.
pub fn is_enabled_name(n: &str) -> (b: bool)
    ensures
        b == mod_enabled(n@),
{
    !ends_with_chars(&chars_of(n), &chars_of(".disabled"))
}

/// Looks a file's download URL up in the manifest (file name to URL).
pub fn lookup_url(manifest: &Vec<(String, String)>, key: &String) -> (r: Option<String>)
    ensures
        match r {
            Some(u) => exists|i: int|
                0 <= i < manifest@.len() && (#[trigger] manifest@[i]).0@ == key@ && manifest@[i].1@
                    == u@,
            None => !has_key(manifest@, key@),
        },
{
    match crate::assoc::find_key(manifest, key) {
        Some(i) => Some(manifest[i].1.clone()),
        None => None,
    }
}

/// One entry of the mods directory, as read from the disk.
#[derive(Debug)]
pub struct DirEntryInfo {
    pub name: String,
    pub is_file: bool,
    pub size_bytes: u64,
    pub size_human: String,
    pub last_modified: String,
}

/// The manifest records `u` as the URL of `key`, or records nothing for it.
#[verifier::opaque]
pub open spec fn url_recorded(manifest: Seq<(String, String)>, key: Seq<char>, u: Option<String>) -> bool {
    match u {
        Some(u) => exists|i: int|
            0 <= i < manifest.len() && (#[trigger] manifest[i]).0@ == key && manifest[i].1@ == u@,
        None => !has_key(manifest, key),
    }
}

/// What the listing shows for one directory entry.
pub open spec fn listed_as(e: DirEntryInfo, m: ModInfo, manifest: Seq<(String, String)>) -> bool {
    &&& m.filename@ == e.name@
    &&& m.name@ == mod_display_name(e.name@)
    &&& m.enabled == mod_enabled(e.name@)
    &&& m.size_bytes == e.size_bytes
    &&& m.size_human@ == e.size_human@
    &&& m.last_modified@ == e.last_modified@
    &&& url_recorded(manifest, manifest_key(e.name@), m.download_url)
}

/// `m` is what the listing shows for one of the entries.
pub open spec fn listed_from(entries: Seq<DirEntryInfo>, m: ModInfo, manifest: Seq<(String, String)>) -> bool {
    exists|i: int| 0 <= i < entries.len() && shown(#[trigger] entries[i]) && listed_as(entries[i], m, manifest)
}

/// Entries the listing shows: JAR files.
pub open spec fn shown(e: DirEntryInfo) -> bool {
    e.is_file && is_mod_file(e.name@)
}

/// How many entries of a directory listing are mod files.
pub open spec fn shown_count(s: Seq<DirEntryInfo>) -> nat {
    s.filter(|e: DirEntryInfo| shown(e)).len()
}

/// The entry for one mod file.
pub fn mod_info_for(e: &DirEntryInfo, manifest: &Vec<(String, String)>) -> (m: ModInfo)
    ensures
        listed_as(*e, m, manifest@),
{
    let key = manifest_key_of(e.name.as_str());
    proof {
        reveal(url_recorded);
    }
    ModInfo {
        filename: e.name.clone(),
        name: display_name(e.name.as_str()),
        enabled: is_enabled_name(e.name.as_str()),
        size_bytes: e.size_bytes,
        size_human: e.size_human.clone(),
        last_modified: e.last_modified.clone(),
        download_url: lookup_url(manifest, &key),
    }
}

/// Mod files sorted by file name.
pub open spec fn sorted_by_filename(s: Seq<ModInfo>) -> bool {
    forall|i: int, j: int| 0 <= i < j < s.len() ==> !seq_lt((#[trigger] s[j]).filename@, (#[trigger] s[i]).filename@)
}

/// Lists the mod files of a directory: the JAR files (enabled or not),
/// each with its display name, state and recorded download URL, sorted by
/// file name.
pub fn list_mod_entries(entries: &Vec<DirEntryInfo>, manifest: &Vec<(String, String)>) -> (r: Vec<ModInfo>)
    ensures
        sorted_by_filename(r@),
        forall|k: int| 0 <= k < r@.len() ==> listed_from(entries@, #[trigger] r@[k], manifest@),
        forall|i: int| 0 <= i < entries@.len() && shown(#[trigger] entries@[i]) ==> exists|k: int|
            0 <= k < r@.len() && (#[trigger] r@[k]).filename@ == entries@[i].name@,
        r@.len() == shown_count(entries@),
{
    let mut out: Vec<ModInfo> = Vec::new();
    let ghost mut src: Seq<int> = Seq::empty();
    let mut i: usize = 0;
    while i < entries.len()
        invariant
            i <= entries@.len(),
            out@.len() <= i,
            out@.len() == shown_count(entries@.take(i as int)),
            src.len() == out@.len(),
            sorted_by_filename(out@),
            forall|k: int| 0 <= k < out@.len() ==> 0 <= #[trigger] src[k] < i && shown(entries@[src[k]])
                && listed_as(entries@[src[k]], out@[k], manifest@),
            forall|j: int| 0 <= j < i && shown(#[trigger] entries@[j]) ==> exists|k: int|
                0 <= k < out@.len() && src[k] == j,
        decreases entries@.len() - i,
    {
        let e = &entries[i];
        proof {
            assert(entries@.take(i + 1) =~= entries@.take(i as int).push(entries@[i as int]));
            entries@.take(i as int).lemma_filter_len_push(|e: DirEntryInfo| shown(e), entries@[i as int]);
        }
        if e.is_file && is_mod_file_name(e.name.as_str()) {
            let m = mod_info_for(e, manifest);
            let ghost before = out@;
            let ghost src0 = src;
            let p = insert_position(&out, &m.filename);
            out.insert(p, m);
            proof {
                src = src0.insert(p as int, i as int);
                assert(out@ =~= before.insert(p as int, m));
                assert forall|a: int, b: int| 0 <= a < b < out@.len() implies !seq_lt(
                    (#[trigger] out@[b]).filename@,
                    (#[trigger] out@[a]).filename@,
                ) by {
                    lemma_insert_sorted(before, p as int, m, a, b);
                }
                assert forall|k: int| 0 <= k < out@.len() implies 0 <= #[trigger] src[k] < i + 1 && shown(
                    entries@[src[k]],
                ) && listed_as(entries@[src[k]], out@[k], manifest@) by {
                    if k < p {
                        assert(out@[k] == before[k] && src[k] == src0[k]);
                    } else if k > p {
                        assert(out@[k] == before[k - 1] && src[k] == src0[k - 1]);
                    }
                }
                assert forall|j: int| 0 <= j < i + 1 && shown(#[trigger] entries@[j]) implies exists|k: int|
                    0 <= k < out@.len() && src[k] == j by {
                    if j == i {
                        assert(src[p as int] == j);
                    } else {
                        let k0 = choose|k: int| 0 <= k < src0.len() && src0[k] == j;
                        if k0 < p {
                            assert(src[k0] == j);
                        } else {
                            assert(src[k0 + 1] == j);
                        }
                    }
                }
            }
        }
        i = i + 1;
    }
    proof {
        assert(entries@.take(entries@.len() as int) =~= entries@);
        assert forall|k: int| 0 <= k < out@.len() implies listed_from(entries@, #[trigger] out@[k], manifest@) by {
            let w = src[k];
            assert(shown(entries@[w]));
            assert(listed_as(entries@[w], out@[k], manifest@));
        }
        assert forall|j: int| 0 <= j < entries@.len() && shown(#[trigger] entries@[j]) implies exists|k: int|
            0 <= k < out@.len() && (#[trigger] out@[k]).filename@ == entries@[j].name@ by {
            let k0 = choose|k: int| 0 <= k < out@.len() && src[k] == j;
            assert(out@[k0].filename@ == entries@[j].name@);
        }
    }
    out
}

/// Where a file named `key` goes in a sorted listing: after every entry
/// whose name is not greater.
fn insert_position(v: &Vec<ModInfo>, key: &String) -> (p: usize)
    requires
        sorted_by_filename(v@),
    ensures
        p <= v@.len(),
        forall|k: int| 0 <= k < p ==> !seq_lt(key@, (#[trigger] v@[k]).filename@),
        forall|k: int| p <= k < v@.len() ==> seq_lt(key@, (#[trigger] v@[k]).filename@),
{
    let kc = chars_of(key.as_str());
    let mut p: usize = v.len();
    while p > 0
        invariant
            p <= v@.len(),
            kc@ == key@,
            sorted_by_filename(v@),
            forall|k: int| p <= k < v@.len() ==> seq_lt(key@, (#[trigger] v@[k]).filename@),
        decreases p,
    {
        let c = chars_of(v[p - 1].filename.as_str());
        if crate::text::chars_lt(&kc, &c) {
            p = p - 1;
        } else {
            proof {
                assert forall|k: int| 0 <= k < p implies !seq_lt(key@, (#[trigger] v@[k]).filename@) by {
                    if seq_lt(key@, v@[k].filename@) {
                        if k < p - 1 {
                            assert(!seq_lt(v@[p - 1].filename@, v@[k].filename@));
                            crate::text::lemma_lt_total(v@[p - 1].filename@, v@[k].filename@);
                            if v@[p - 1].filename@ != v@[k].filename@ {
                                crate::text::lemma_lt_trans(key@, v@[k].filename@, v@[p - 1].filename@);
                            }
                        }
                    }
                }
            }
            return p;
        }
    }
    p
}

proof fn lemma_insert_sorted(s: Seq<ModInfo>, p: int, m: ModInfo, a: int, b: int)
    requires
        sorted_by_filename(s),
        0 <= p <= s.len(),
        forall|k: int| 0 <= k < p ==> !seq_lt(m.filename@, (#[trigger] s[k]).filename@),
        forall|k: int| p <= k < s.len() ==> seq_lt(m.filename@, (#[trigger] s[k]).filename@),
        0 <= a < b < s.len() + 1,
    ensures
        !seq_lt(s.insert(p, m)[b].filename@, s.insert(p, m)[a].filename@),
{
    let t = s.insert(p, m);
    if a == p {
        let y = s[b - 1];
        assert(t[b] == y);
        crate::text::lemma_lt_asym(m.filename@, y.filename@);
    } else if b == p {
        assert(t[a] == s[a]);
    } else {
        let x = if a < p { s[a] } else { s[a - 1] };
        let y = if b < p { s[b] } else { s[b - 1] };
        assert(t[a] == x);
        assert(t[b] == y);
    }
}

// ---------------------------------------------------------------------------
// Finding a file again
// ---------------------------------------------------------------------------

/// The UTF-8 encoding of a character.
pub open spec fn utf8_of(c: char) -> Seq<u8> {
    let v = c as int;
    if v < 0x80 {
        seq![v as u8]
    } else if v < 0x800 {
        seq![(0xC0 + v / 64) as u8, (0x80 + v % 64) as u8]
    } else if v < 0x10000 {
        seq![(0xE0 + v / 4096) as u8, (0x80 + (v / 64) % 64) as u8, (0x80 + v % 64) as u8]
    } else {
        seq![
            (0xF0 + v / 262144) as u8,
            (0x80 + (v / 4096) % 64) as u8,
            (0x80 + (v / 64) % 64) as u8,
            (0x80 + v % 64) as u8,
        ]
    }
}

/// Upper-case hexadecimal digit of `d < 16`.
pub open spec fn hex_upper(d: int) -> char {
    if d < 10 {
        (48 + d) as char
    } else {
        (55 + d) as char
    }
}

/// `%XX` for each byte.
pub open spec fn pct_bytes(bs: Seq<u8>) -> Seq<char>
    decreases bs.len(),
{
    if bs.len() == 0 {
        Seq::empty()
    } else {
        pct_bytes(bs.drop_last()) + seq!['%', hex_upper(bs.last() as int / 16), hex_upper(bs.last() as int % 16)]
    }
}

/// Percent-encoding of every character but ASCII letters and digits.
pub open spec fn pct_encode(s: Seq<char>) -> Seq<char>
    decreases s.len(),
{
    if s.len() == 0 {
        Seq::empty()
    } else {
        pct_encode(s.drop_last()) + if is_ascii_alnum(s.last()) {
            seq![s.last()]
        } else {
            pct_bytes(utf8_of(s.last()))
        }
    }
}

/// Wraps `percent_encoding::utf8_percent_encode` with the `NON_ALPHANUMERIC`
/// set, collected into a `String`. Trusted: the crate encodes each UTF-8
/// byte outside `[0-9A-Za-z]` as `%` and two upper-case hex digits and
/// keeps the others.
#[verifier::external_body]
fn percent_encode_non_alnum(s: &str) -> (r: String)
    ensures
        r@ == pct_encode(s@),
{
    percent_encoding::utf8_percent_encode(s, percent_encoding::NON_ALPHANUMERIC).to_string()
}

/// The names under which a mod file may be stored, in the order they are
/// tried: the name itself, its percent-encoded form (files saved by older
/// versions), then with `.disabled` or `.jar.disabled` appended.
pub fn mod_file_candidates(filename: &str) -> (r: Vec<String>)
    ensures
        r@.len() == 4,
        r@[0]@ == filename@,
        r@[1]@ == pct_encode(filename@),
        r@[2]@ == filename@ + ".disabled"@,
        r@[3]@ == filename@ + ".jar.disabled"@,
{
    let mut r: Vec<String> = Vec::new();
    r.push(String::from_str(filename));
    r.push(percent_encode_non_alnum(filename));
    r.push(crate::errors::concat(filename, ".disabled"));
    r.push(crate::errors::concat(filename, ".jar.disabled"));
    r
}

/// The renaming that enables or disables a mod file.
#[derive(Debug)]
pub struct TogglePlan {
    /// The file to rename.
    pub source: String,
    /// Its new name.
    pub target: String,
    /// The display name reported back.
    pub name: String,
    /// Where its download URL is recorded.
    pub manifest_key: String,
}

/// The file a toggle renames: `<base>.disabled` when enabling, `<base>`
/// when disabling, the base being the name without `.disabled`.
pub open spec fn toggle_source(filename: Seq<char>, enabled: bool) -> Seq<char> {
    if enabled {
        manifest_key(filename) + ".disabled"@
    } else {
        manifest_key(filename)
    }
}

/// The name a toggle renames to.
pub open spec fn toggle_target(filename: Seq<char>, enabled: bool) -> Seq<char> {
    if enabled {
        manifest_key(filename)
    } else {
        manifest_key(filename) + ".disabled"@
    }
}

/// A mods directory (file name to contents) after the toggle renames its
/// source to its target, or `None` when the source is missing.
pub open spec fn toggled_dir(dir: Map<Seq<char>, Seq<u8>>, filename: Seq<char>, enabled: bool) -> Option<
    Map<Seq<char>, Seq<u8>>,
> {
    let src = toggle_source(filename, enabled);
    if dir.dom().contains(src) {
        Some(dir.remove(src).insert(toggle_target(filename, enabled), dir[src]))
    } else {
        None
    }
}

/// Plans the renaming for `enabled`: the base name is the file name without
/// `.disabled`; enabling renames `<base>.disabled` to `<base>`, disabling
/// renames `<base>` to `<base>.disabled`.
pub fn toggle_plan(filename: &str, enabled: bool) -> (r: TogglePlan)
    ensures
        r.manifest_key@ == manifest_key(filename@),
        r.source@ == toggle_source(filename@, enabled),
        r.target@ == toggle_target(filename@, enabled),
        r.name@ == (match strip_suffix(filename@, ".jar"@) {
            Some(b) => b,
            None => filename@,
        }),
{
    let base = manifest_key_of(filename);
    let disabled = crate::errors::concat(base.as_str(), ".disabled");
    let (source, target) = if enabled {
        (disabled, base.clone())
    } else {
        (base.clone(), disabled)
    };
    TogglePlan { source, target, name: strip_or_keep(filename, ".jar"), manifest_key: base }
}

// ---------------------------------------------------------------------------
// Loader versions
// ---------------------------------------------------------------------------

/// Where a provider installs its loader library, and the dependency key
/// the modpack format uses for it.
pub open spec fn loader_library_of(provider_lower: Seq<char>) -> Option<(Seq<char>, Seq<char>)> {
    if provider_lower == "fabric"@ {
        Some(("fabric-loader"@, "libraries/net/fabricmc/fabric-loader"@))
    } else if provider_lower == "forge"@ {
        Some(("forge"@, "libraries/net/minecraftforge/forge"@))
    } else if provider_lower == "neoforge"@ {
        Some(("neoforge"@, "libraries/net/neoforged/neoforge"@))
    } else if provider_lower == "quilt"@ {
        Some(("quilt-loader"@, "libraries/org/quiltmc/quilt-loader"@))
    } else {
        None
    }
}

/// The dependency key and library directory of a provider's loader; none
/// for Paper, Purpur and vanilla.
pub fn loader_library(provider_lower: &str) -> (r: Option<(String, String)>)
    ensures
        match (r, loader_library_of(provider_lower@)) {
            (Some((k, d)), Some((sk, sd))) => k@ == sk && d@ == sd,
            (None, None) => true,
            _ => false,
        },
{
    if str_eq(provider_lower, "fabric") {
        Some((String::from_str("fabric-loader"), String::from_str("libraries/net/fabricmc/fabric-loader")))
    } else if str_eq(provider_lower, "forge") {
        Some((String::from_str("forge"), String::from_str("libraries/net/minecraftforge/forge")))
    } else if str_eq(provider_lower, "neoforge") {
        Some((String::from_str("neoforge"), String::from_str("libraries/net/neoforged/neoforge")))
    } else if str_eq(provider_lower, "quilt") {
        Some((String::from_str("quilt-loader"), String::from_str("libraries/org/quiltmc/quilt-loader")))
    } else {
        None
    }
}

/// A version directory name: digits and dots only, and not `.` or `..`.
pub open spec fn is_version_dir(n: Seq<char>) -> bool {
    &&& forall|i: int| 0 <= i < n.len() ==> ('0' <= #[trigger] n[i] && n[i] <= '9') || n[i] == '.'
    &&& n != "."@
    &&& n != ".."@
}

/// `best` is the greatest of the candidates (in version order) among
/// `names`, the first one listed among equal versions, or `None` when there
/// is none.
pub open spec fn greatest_of(names: Seq<Seq<char>>, cand: spec_fn(Seq<char>) -> Option<Seq<char>>, best: Option<Seq<char>>) -> bool {
    match best {
        None => forall|i: int| 0 <= i < names.len() ==> (#[trigger] cand(names[i])) is None,
        Some(b) => (exists|i: int|
            0 <= i < names.len() && #[trigger] cand(names[i]) == Some(b) && forall|j: int|
                0 <= j < i ==> (#[trigger] cand(names[j]) matches Some(w) ==> ver_lt(w, b)))
            && forall|i: int| 0 <= i < names.len() ==> (#[trigger] cand(names[i]) matches Some(v)
            ==> !ver_lt(b, v)),
    }
}

/// The version a library directory name stands for, if it is one.
pub open spec fn version_dir_candidate(n: Seq<char>) -> Option<Seq<char>> {
    if is_version_dir(n) {
        Some(n)
    } else {
        None
    }
}

/// The second `-`-separated field of a name (`split('-').nth(1)`), if
/// there is a `-`.
pub open spec fn second_field(n: Seq<char>) -> Option<Seq<char>> {
    match crate::text::idx_from(n, '-', 0) {
        None => None,
        Some(i) => {
            let rest = n.subrange(i + 1, n.len() as int);
            match crate::text::idx_from(rest, '-', 0) {
                Some(j) => Some(rest.subrange(0, j)),
                None => Some(rest),
            }
        },
    }
}

/// The Forge version in a directory name such as `1.20.1-47.1.0`.
pub open spec fn forge_candidate(n: Seq<char>) -> Option<Seq<char>> {
    match second_field(n) {
        Some(v) => if v.len() > 0 {
            Some(v)
        } else {
            None
        },
        None => None,
    }
}

/// Whether `n` names a version directory.
pub fn is_version_dir_name(n: &[char]) -> (b: bool)
    ensures
        b == is_version_dir(n@),
{
    let mut i: usize = 0;
    while i < n.len()
        invariant
            i <= n@.len(),
            forall|k: int| 0 <= k < i ==> ('0' <= #[trigger] n@[k] && n@[k] <= '9') || n@[k] == '.',
        decreases n@.len() - i,
    {
        if !(('0' <= n[i] && n[i] <= '9') || n[i] == '.') {
            return false;
        }
        i = i + 1;
    }
    proof {
        reveal_strlit(".");
        reveal_strlit("..");
    }
    let one_dot = n.len() == 1 && n[0] == '.';
    let two_dots = n.len() == 2 && n[0] == '.' && n[1] == '.';
    proof {
        if n@ == "."@ {
            assert(one_dot);
        }
        if n@ == ".."@ {
            assert(two_dots);
        }
        if one_dot {
            assert(n@ =~= "."@);
        }
        if two_dots {
            assert(n@ =~= ".."@);
        }
    }
    !one_dot && !two_dots
}

/// The second `-`-separated field of a name.
pub fn second_field_of(n: &[char]) -> (r: Option<Vec<char>>)
    ensures
        match (r, second_field(n@)) {
            (Some(v), Some(sv)) => v@ == sv,
            (None, None) => true,
            _ => false,
        },
{
    match crate::text::find_char_from(n, '-', 0) {
        None => None,
        Some(i) => {
            proof {
                crate::text::lemma_idx_from(n@, '-', 0);
            }
            let len = n.len();
            assert(i < len);
            let rest = crate::text::slice_range(n, i + 1, len);
            match crate::text::find_char_from(&rest, '-', 0) {
                Some(j) => {
                    proof {
                        crate::text::lemma_idx_from(rest@, '-', 0);
                    }
                    Some(crate::text::slice_range(&rest, 0, j))
                },
                None => Some(rest),
            }
        },
    }
}

/// The candidate a directory name gives, for either kind of library.
pub open spec fn candidate_of(forge: bool, n: Seq<char>) -> Option<Seq<char>> {
    if forge {
        forge_candidate(n)
    } else {
        version_dir_candidate(n)
    }
}

fn candidate_exec(forge: bool, n: &[char]) -> (r: Option<Vec<char>>)
    ensures
        match (r, candidate_of(forge, n@)) {
            (Some(v), Some(sv)) => v@ == sv,
            (None, None) => true,
            _ => false,
        },
{
    if forge {
        match second_field_of(n) {
            Some(v) => if v.len() > 0 {
                Some(v)
            } else {
                None
            },
            None => None,
        }
    } else if is_version_dir_name(n) {
        Some(crate::text::slice_range(n, 0, n.len()))
    } else {
        None
    }
}

// ---------------------------------------------------------------------------
// Version order: dot-separated components compared as numbers
// ---------------------------------------------------------------------------

/// A component without its leading zeros.
pub open spec fn strip_zeros(c: Seq<char>) -> Seq<char>
    decreases c.len(),
{
    if c.len() > 0 && c[0] == '0' {
        strip_zeros(c.drop_first())
    } else {
        c
    }
}

/// Numeric order of components: without leading zeros, a shorter digit
/// string is smaller, and among equally long ones the text order decides.
pub open spec fn num_lt(x: Seq<char>, y: Seq<char>) -> bool {
    let p = strip_zeros(x);
    let q = strip_zeros(y);
    p.len() < q.len() || (p.len() == q.len() && seq_lt(p, q))
}

/// Where the component starting at `i` ends: at the next `.`, or at the end.
pub open spec fn comp_end(s: Seq<char>, i: int) -> int {
    match crate::text::idx_from(s, '.', i) {
        Some(e) => e,
        None => s.len() as int,
    }
}

/// Version order from the components starting at `i` in `a` and `j` in `b`
/// (a position past the end means no component is left): the first
/// components that differ numerically decide, and a version that runs out
/// of components first is the smaller.
pub open spec fn ver_lt_at(a: Seq<char>, b: Seq<char>, i: int, j: int) -> bool
    decreases a.len() + 1 - i, b.len() + 1 - j,
{
    if i < 0 || j < 0 {
        false
    } else if i > a.len() {
        j <= b.len()
    } else if j > b.len() {
        false
    } else {
        let ea = comp_end(a, i);
        let eb = comp_end(b, j);
        let ca = a.subrange(i, ea);
        let cb = b.subrange(j, eb);
        if num_lt(ca, cb) {
            true
        } else if num_lt(cb, ca) {
            false
        } else {
            proof {
                crate::text::lemma_idx_from(a, '.', i);
                crate::text::lemma_idx_from(b, '.', j);
            }
            ver_lt_at(a, b, ea + 1, eb + 1)
        }
    }
}

/// `a` is an earlier version than `b` (`0.9.0` before `0.16.10`).
pub open spec fn ver_lt(a: Seq<char>, b: Seq<char>) -> bool {
    ver_lt_at(a, b, 0, 0)
}

proof fn lemma_num_lt_irreflexive(x: Seq<char>)
    ensures
        !num_lt(x, x),
{
    crate::text::lemma_lt_irreflexive(strip_zeros(x));
}

proof fn lemma_num_lt_trans(x: Seq<char>, y: Seq<char>, z: Seq<char>)
    requires
        num_lt(x, y),
        num_lt(y, z),
    ensures
        num_lt(x, z),
{
    let p = strip_zeros(x);
    let q = strip_zeros(y);
    let r = strip_zeros(z);
    if p.len() == q.len() && q.len() == r.len() {
        crate::text::lemma_lt_trans(p, q, r);
    }
}

/// Components that neither precedes the other are the same number.
proof fn lemma_num_eq(x: Seq<char>, y: Seq<char>)
    requires
        !num_lt(x, y),
        !num_lt(y, x),
    ensures
        strip_zeros(x) == strip_zeros(y),
{
    crate::text::lemma_lt_total(strip_zeros(x), strip_zeros(y));
}

proof fn lemma_ver_irreflexive(a: Seq<char>, i: int)
    ensures
        !ver_lt_at(a, a, i, i),
    decreases a.len() + 1 - i,
{
    if 0 <= i <= a.len() {
        let ea = comp_end(a, i);
        lemma_num_lt_irreflexive(a.subrange(i, ea));
        crate::text::lemma_idx_from(a, '.', i);
        lemma_ver_irreflexive(a, ea + 1);
    }
}

proof fn lemma_ver_trans(a: Seq<char>, b: Seq<char>, c: Seq<char>, i: int, j: int, k: int)
    requires
        ver_lt_at(a, b, i, j),
        ver_lt_at(b, c, j, k),
    ensures
        ver_lt_at(a, c, i, k),
    decreases a.len() + 1 - i,
{
    if i <= a.len() {
        let ea = comp_end(a, i);
        let eb = comp_end(b, j);
        let ec = comp_end(c, k);
        let ca = a.subrange(i, ea);
        let cb = b.subrange(j, eb);
        let cc = c.subrange(k, ec);
        crate::text::lemma_idx_from(a, '.', i);
        crate::text::lemma_idx_from(b, '.', j);
        crate::text::lemma_idx_from(c, '.', k);
        if num_lt(ca, cb) && num_lt(cb, cc) {
            lemma_num_lt_trans(ca, cb, cc);
        } else if num_lt(ca, cb) {
            lemma_num_eq(cb, cc);
        } else if num_lt(cb, cc) {
            lemma_num_eq(ca, cb);
        } else {
            lemma_num_eq(ca, cb);
            lemma_num_eq(cb, cc);
            lemma_ver_trans(a, b, c, ea + 1, eb + 1, ec + 1);
        }
    }
}

/// If `x` precedes `z`, any `y` follows `x` or precedes `z`.
proof fn lemma_num_lt_split(x: Seq<char>, y: Seq<char>, z: Seq<char>)
    requires
        num_lt(x, z),
    ensures
        num_lt(x, y) || num_lt(y, z),
{
    let p = strip_zeros(x);
    let q = strip_zeros(y);
    let r = strip_zeros(z);
    crate::text::lemma_lt_total(p, q);
    crate::text::lemma_lt_total(q, r);
    if p.len() == q.len() && q.len() == r.len() && !seq_lt(p, q) && !seq_lt(q, r) {
        if p != q {
            crate::text::lemma_lt_trans(q, p, r);
        }
    }
}

/// If `a` is earlier than `c`, any `b` is later than `a` or earlier than `c`.
proof fn lemma_ver_split(a: Seq<char>, b: Seq<char>, c: Seq<char>, i: int, j: int, k: int)
    requires
        ver_lt_at(a, c, i, k),
        0 <= j,
    ensures
        ver_lt_at(a, b, i, j) || ver_lt_at(b, c, j, k),
    decreases a.len() + 1 - i,
{
    if i <= a.len() && j <= b.len() {
        let ea = comp_end(a, i);
        let eb = comp_end(b, j);
        let ec = comp_end(c, k);
        let ca = a.subrange(i, ea);
        let cb = b.subrange(j, eb);
        let cc = c.subrange(k, ec);
        crate::text::lemma_idx_from(a, '.', i);
        crate::text::lemma_idx_from(b, '.', j);
        crate::text::lemma_idx_from(c, '.', k);
        if num_lt(ca, cc) {
            lemma_num_lt_split(ca, cb, cc);
        } else {
            lemma_num_eq(ca, cc);
            if !num_lt(ca, cb) && !num_lt(cb, ca) {
                lemma_num_eq(ca, cb);
                lemma_ver_split(a, b, c, ea + 1, eb + 1, ec + 1);
            }
        }
    }
}

/// A component without its leading zeros.
fn strip_zeros_exec(x: &[char]) -> (r: Vec<char>)
    ensures
        r@ == strip_zeros(x@),
{
    let mut p: usize = 0;
    assert(x@.subrange(0, x@.len() as int) =~= x@);
    while p < x.len() && x[p] == '0'
        invariant
            p <= x@.len(),
            strip_zeros(x@.subrange(p as int, x@.len() as int)) == strip_zeros(x@),
        decreases x@.len() - p,
    {
        assert(x@.subrange(p as int, x@.len() as int).drop_first() =~= x@.subrange(p + 1, x@.len() as int));
        p = p + 1;
    }
    crate::text::slice_range(x, p, x.len())
}

fn num_lt_exec(x: &[char], y: &[char]) -> (r: bool)
    ensures
        r == num_lt(x@, y@),
{
    let p = strip_zeros_exec(x);
    let q = strip_zeros_exec(y);
    p.len() < q.len() || (p.len() == q.len() && crate::text::chars_lt(&p, &q))
}

/// Whether version `a` is earlier than version `b`.
pub fn version_lt(a: &[char], b: &[char]) -> (r: bool)
    ensures
        r == ver_lt(a@, b@),
{
    let mut i: usize = 0;
    let mut j: usize = 0;
    let mut a_done = false;
    let mut b_done = false;
    loop
        invariant
            i <= a@.len(),
            j <= b@.len(),
            ver_lt_at(a@, b@, if a_done { a@.len() + 1int } else { i as int }, if b_done { b@.len() + 1int } else { j as int })
                == ver_lt(a@, b@),
        decreases (if a_done { 0int } else { a@.len() + 1 - i }), (if b_done { 0int } else { b@.len() + 1 - j }),
    {
        if a_done {
            return !b_done;
        }
        if b_done {
            return false;
        }
        let ea = match crate::text::find_char_from(a, '.', i) {
            Some(e) => e,
            None => a.len(),
        };
        let eb = match crate::text::find_char_from(b, '.', j) {
            Some(e) => e,
            None => b.len(),
        };
        proof {
            crate::text::lemma_idx_from(a@, '.', i as int);
            crate::text::lemma_idx_from(b@, '.', j as int);
        }
        let ca = crate::text::slice_range(a, i, ea);
        let cb = crate::text::slice_range(b, j, eb);
        if num_lt_exec(&ca, &cb) {
            return true;
        }
        if num_lt_exec(&cb, &ca) {
            return false;
        }
        if ea == a.len() {
            a_done = true;
        } else {
            i = ea + 1;
        }
        if eb == b.len() {
            b_done = true;
        } else {
            j = eb + 1;
        }
    }
}

/// The newest loader version among the subdirectory names of a library
/// directory, in version order (`0.16.10` is newer than `0.9.0`): for Forge the part after the Minecraft
/// version (`1.20.1-47.1.0` gives `47.1.0`), otherwise names made of digits
/// and dots.
pub fn latest_loader_version(forge: bool, dir_names: &Vec<String>) -> (r: Option<String>)
    ensures
        greatest_of(
            dir_names@.map_values(|s: String| s@),
            |n: Seq<char>| candidate_of(forge, n),
            match r {
                Some(s) => Some(s@),
                None => None,
            },
        ),
{
    let ghost names = dir_names@.map_values(|s: String| s@);
    let ghost cand = |n: Seq<char>| candidate_of(forge, n);
    let mut best: Option<Vec<char>> = None;
    let ghost mut at: int = 0;
    let mut i: usize = 0;
    while i < dir_names.len()
        invariant
            i <= dir_names@.len(),
            names == dir_names@.map_values(|s: String| s@),
            cand == (|n: Seq<char>| candidate_of(forge, n)),
            match best {
                None => forall|k: int| 0 <= k < i ==> (#[trigger] cand(names[k])) is None,
                Some(b) => 0 <= at < i && cand(names[at]) == Some(b@) && (forall|k: int|
                    0 <= k < at ==> (#[trigger] cand(names[k]) matches Some(w) ==> ver_lt(w, b@)))
                    && forall|k: int|
                    0 <= k < i ==> (#[trigger] cand(names[k]) matches Some(v) ==> !ver_lt(b@, v)),
            },
        decreases dir_names@.len() - i,
    {
        let n = chars_of(dir_names[i].as_str());
        assert(names[i as int] == dir_names@[i as int]@);
        let c = candidate_exec(forge, &n);
        match c {
            None => {},
            Some(v) => {
                let better = match &best {
                    None => true,
                    Some(b) => version_lt(b, &v),
                };
                if better {
                    proof {
                        at = i as int;
                        match &best {
                            Some(b) => {
                                assert forall|k: int| 0 <= k < i implies (#[trigger] cand(names[k]) matches Some(w)
                                    ==> !ver_lt(v@, w)) by {
                                    if let Some(w) = cand(names[k]) {
                                        if ver_lt(v@, w) {
                                            lemma_ver_trans(b@, v@, w, 0, 0, 0);
                                        }
                                    }
                                }
                                assert forall|k: int| 0 <= k < i implies (#[trigger] cand(names[k]) matches Some(w)
                                    ==> ver_lt(w, v@)) by {
                                    if let Some(w) = cand(names[k]) {
                                        lemma_ver_split(b@, w, v@, 0, 0, 0);
                                    }
                                }
                            },
                            None => {},
                        }
                        lemma_ver_irreflexive(v@, 0);
                    }
                    best = Some(v);
                }
            },
        }
        i = i + 1;
    }
    match best {
        Some(b) => Some(string_of(&b)),
        None => None,
    }
}

/// What a freshly installed mod file is reported as: enabled, named
/// after the file without `.jar`, with the URL it came from.
pub fn installed_mod_info(filename: &str, url: &str, size_bytes: u64, size_human: String, last_modified: String) -> (r: ModInfo)
    ensures
        r.filename@ == filename@,
        r.name@ == (match strip_suffix(filename@, ".jar"@) {
            Some(b) => b,
            None => filename@,
        }),
        r.enabled,
        r.size_bytes == size_bytes,
        r.size_human == size_human,
        r.last_modified == last_modified,
        r.download_url matches Some(u) && u@ == url@,
{
    ModInfo {
        filename: String::from_str(filename),
        name: strip_or_keep(filename, ".jar"),
        enabled: true,
        size_bytes,
        size_human,
        last_modified,
        download_url: Some(String::from_str(url)),
    }
}

/// A mod file is not deleted while its server runs.
pub fn delete_mod_check(running: bool) -> (r: Result<(), crate::errors::AppError>)
    ensures
        running ==> (r matches Err(crate::errors::AppError::Internal(m)) && m@
            == "Cannot delete mod while server is running"@),
        !running ==> r is Ok,
{
    if running {
        Err(crate::errors::AppError::Internal(String::from_str("Cannot delete mod while server is running")))
    } else {
        Ok(())
    }
}

/// Disabling a mod and enabling it again gives back its file name:
/// the disabled name's base is the original name.
pub proof fn law_disable_then_enable(name: Seq<char>)
    ensures
        manifest_key(name + ".disabled"@) == name,
        !mod_enabled(name + ".disabled"@),
{
    let d = name + ".disabled"@;
    assert(d.subrange(d.len() - ".disabled"@.len(), d.len() as int) =~= ".disabled"@);
    assert(d.subrange(0, d.len() - ".disabled"@.len()) =~= name);
}

/// In a mods directory holding an enabled file `f` and no `f.disabled`,
/// disabling `f` and then enabling it (by either name) gives back the same
/// directory, and the disabled file keeps the bytes of `f` meanwhile.
pub proof fn law_toggle_round_trip(dir: Map<Seq<char>, Seq<u8>>, f: Seq<char>, by_disabled_name: bool)
    requires
        dir.dom().contains(f),
        mod_enabled(f),
        !dir.dom().contains(f + ".disabled"@),
    ensures
        toggled_dir(dir, f, false) matches Some(d1) && d1.dom().contains(f + ".disabled"@) && d1[f
            + ".disabled"@] == dir[f] && !d1.dom().contains(f) && toggled_dir(
            d1,
            if by_disabled_name { f + ".disabled"@ } else { f },
            true,
        ) == Some(dir),
{
    law_disable_then_enable(f);
    assert(manifest_key(f) == f);
    let d = f + ".disabled"@;
    assert(d != f) by {
        assert(d.len() != f.len());
    }
    let d1 = dir.remove(f).insert(d, dir[f]);
    assert(toggled_dir(dir, f, false) == Some(d1));
    let g = if by_disabled_name { d } else { f };
    assert(manifest_key(g) == f);
    assert(d1.remove(d).insert(f, d1[d]) =~= dir);
}

} // verus!
