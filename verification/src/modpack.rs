//! Modrinth modpacks (`.mrpack`) made from a server's mods: which mods go
//! in, how each is described, and what the index and archive are called.
use vstd::prelude::*;
use crate::errors::{concat, Error};
use crate::mods::ModInfo;
use crate::text::{chars_of, string_of, to_lowercase, unicode_lowercase};

verus! {

/// Characters that Windows does not allow in a path.
pub open spec fn path_illegal(c: char) -> bool {
    c == '\\' || c == '/' || c == ':' || c == '*' || c == '?' || c == '"' || c == '<' || c == '>'
        || c == '|' || (c as u32) < 32
}

/// Each illegal character replaced by `_`.
pub open spec fn sanitized(s: Seq<char>) -> Seq<char> {
    Seq::new(s.len(), |i: int| if path_illegal(s[i]) { '_' } else { s[i] })
}

/// Replaces the characters that are illegal in Windows paths with `_`.
pub fn sanitize_filename(s: &str) -> (r: String)
    ensures
        r@ == sanitized(s@),
{
    let c = chars_of(s);
    let mut out: Vec<char> = Vec::new();
    let mut i: usize = 0;
    while i < c.len()
        invariant
            i <= c@.len(),
            c@ == s@,
            out@ == sanitized(s@).take(i as int),
        decreases c@.len() - i,
    {
        let ch = c[i];
        let bad = ch == '\\' || ch == '/' || ch == ':' || ch == '*' || ch == '?' || ch == '"' || ch
            == '<' || ch == '>' || ch == '|' || (ch as u32) < 32;
        if bad {
            out.push('_');
        } else {
            out.push(ch);
        }
        assert(out@ =~= sanitized(s@).take(i + 1));
        i = i + 1;
    }
    assert(sanitized(s@).take(c@.len() as int) =~= sanitized(s@));
    string_of(&out)
}

/// Whether the modpack takes a mod: with no explicit list, the enabled
/// mods; otherwise those whose file name is listed.
pub open spec fn picked(m: ModInfo, wanted: Seq<Seq<char>>) -> bool {
    if wanted.len() == 0 {
        m.enabled
    } else {
        wanted.contains(m.filename@)
    }
}

/// The mods the modpack takes, in listing order.
pub open spec fn picked_mods(mods: Seq<ModInfo>, wanted: Seq<Seq<char>>) -> Seq<ModInfo>
    decreases mods.len(),
{
    if mods.len() == 0 {
        Seq::empty()
    } else if picked(mods.last(), wanted) {
        picked_mods(mods.drop_last(), wanted).push(mods.last())
    } else {
        picked_mods(mods.drop_last(), wanted)
    }
}

/// File names of the picked mods that have no recorded download URL.
pub open spec fn without_url(s: Seq<ModInfo>) -> Seq<Seq<char>>
    decreases s.len(),
{
    if s.len() == 0 {
        Seq::empty()
    } else if s.last().download_url is None {
        without_url(s.drop_last()).push(s.last().filename@)
    } else {
        without_url(s.drop_last())
    }
}

/// Names separated by `, `.
pub open spec fn joined(s: Seq<Seq<char>>) -> Seq<char>
    decreases s.len(),
{
    if s.len() == 0 {
        Seq::empty()
    } else if s.len() == 1 {
        s[0]
    } else {
        joined(s.drop_last()) + ", "@ + s.last()
    }
}

/// Why no modpack can be made of the picked mods, if none can.
pub open spec fn selection_error(sel: Seq<ModInfo>) -> Option<Seq<char>> {
    if sel.len() == 0 {
        Some("No mods selected"@)
    } else if without_url(sel).len() > 0 {
        Some("Missing download URLs for mods: "@ + joined(without_url(sel))
            + ". Reinstall them to register their URLs."@)
    } else {
        None
    }
}

impl ModInfo {
    /// A field-for-field copy.
    pub fn duplicate(&self) -> (r: Self)
        ensures
            r == *self,
    {
        ModInfo {
            filename: self.filename.clone(),
            name: self.name.clone(),
            enabled: self.enabled,
            size_bytes: self.size_bytes,
            size_human: self.size_human.clone(),
            last_modified: self.last_modified.clone(),
            download_url: match &self.download_url {
                Some(u) => Some(u.clone()),
                None => None,
            },
        }
    }
}

fn listed(wanted: &Vec<String>, name: &String) -> (b: bool)
    ensures
        b == wanted@.map_values(|s: String| s@).contains(name@),
{
    let mut i: usize = 0;
    while i < wanted.len()
        invariant
            i <= wanted@.len(),
            forall|j: int| 0 <= j < i ==> (#[trigger] wanted@[j])@ != name@,
        decreases wanted@.len() - i,
    {
        if crate::text::str_eq(wanted[i].as_str(), name.as_str()) {
            assert(wanted@.map_values(|s: String| s@)[i as int] == name@);
            return true;
        }
        i = i + 1;
    }
    proof {
        if wanted@.map_values(|s: String| s@).contains(name@) {
            let ws = wanted@.map_values(|s: String| s@);
            let j = choose|j: int| 0 <= j < ws.len() && #[trigger] ws[j] == name@;
            assert(wanted@[j]@ != name@);
        }
    }
    false
}

/// Picks the mods for a modpack and checks that each has a download URL
/// launchers can fetch it from.
pub fn select_mods(mods: &Vec<ModInfo>, wanted: &Vec<String>) -> (r: Result<Vec<ModInfo>, Error>)
    ensures
        match (r, selection_error(picked_mods(mods@, wanted@.map_values(|s: String| s@)))) {
            (Ok(v), None) => v@ == picked_mods(mods@, wanted@.map_values(|s: String| s@)),
            (Err(Error::Other(m)), Some(msg)) => m@ == msg,
            _ => false,
        },
{
    let ghost inc = wanted@.map_values(|s: String| s@);
    let mut sel: Vec<ModInfo> = Vec::new();
    let mut i: usize = 0;
    while i < mods.len()
        invariant
            i <= mods@.len(),
            inc == wanted@.map_values(|s: String| s@),
            sel@ == picked_mods(mods@.take(i as int), inc),
        decreases mods@.len() - i,
    {
        let m = &mods[i];
        let take = if wanted.len() == 0 {
            m.enabled
        } else {
            listed(wanted, &m.filename)
        };
        assert(mods@.take(i + 1).drop_last() =~= mods@.take(i as int));
        if take {
            sel.push(m.duplicate());
        }
        i = i + 1;
    }
    assert(mods@.take(mods@.len() as int) =~= mods@);
    if sel.len() == 0 {
        return Err(Error::Other(String::from_str("No mods selected")));
    }
    let mut names = String::new();
    let mut count: usize = 0;
    let mut k: usize = 0;
    while k < sel.len()
        invariant
            k <= sel@.len(),
            count <= k,
            count == without_url(sel@.take(k as int)).len(),
            names@ == joined(without_url(sel@.take(k as int))),
        decreases sel@.len() - k,
    {
        assert(sel@.take(k + 1).drop_last() =~= sel@.take(k as int));
        if sel[k].download_url.is_none() {
            let ghost prev = without_url(sel@.take(k as int));
            if count > 0 {
                names.append(", ");
            }
            names.append(sel[k].filename.as_str());
            proof {
                let now = prev.push(sel@[k as int].filename@);
                assert(now.drop_last() =~= prev);
                if prev.len() == 0 {
                    assert(joined(now) == now[0]);
                }
            }
            count = count + 1;
        }
        k = k + 1;
    }
    assert(sel@.take(sel@.len() as int) =~= sel@);
    if count > 0 {
        let mut msg = concat("Missing download URLs for mods: ", names.as_str());
        msg.append(". Reinstall them to register their URLs.");
        return Err(Error::Other(msg));
    }
    Ok(sel)
}

// ---------------------------------------------------------------------------
// Index
// ---------------------------------------------------------------------------

/// The digest that `sha1_smol` gives of some bytes, in lower-case hex.
pub uninterp spec fn sha1_hex(data: Seq<u8>) -> Seq<char>;

/// The SHA-512 digest that `sha2` gives of some bytes, in lower-case hex.
pub uninterp spec fn sha512_hex(data: Seq<u8>) -> Seq<char>;

/// Wraps `sha1_smol::Sha1::from(data).digest().to_string()` (the `sha1`
/// crate re-exports this type, and its `hexdigest` is this call). Trusted:
/// the digest depends on the bytes alone; its text is five 32-bit words as
/// eight lower-case hex digits each, 40 characters.
#[verifier::external_body]
pub(crate) fn sha1_digest_hex(data: &[u8]) -> (r: String)
    ensures
        r@ == sha1_hex(data@),
        r@.len() == 40,
{
    sha1_smol::Sha1::from(data).digest().to_string()
}

/// Wraps `sha2::Sha512::digest`, formatted with `{:x}`. Trusted: the digest
/// depends on the bytes alone and its 64 bytes print as 128 lower-case hex
/// digits.
#[verifier::external_body]
fn sha512_digest_hex(data: &[u8]) -> (r: String)
    ensures
        r@ == sha512_hex(data@),
        r@.len() == 128,
{
    format!("{:x}", <sha2::Sha512 as sha2::Digest>::digest(data))
}

/// One entry of the index's `files` list.
#[derive(Debug)]
pub struct ModpackFile {
    /// Path inside the game directory, e.g. `mods/sodium.jar`.
    pub path: String,
    /// Where launchers download the file from.
    pub downloads: Vec<String>,
    pub sha1: String,
    pub sha512: String,
    pub file_size: u64,
}

/// The `modrinth.index.json` document.
#[derive(Debug)]
pub struct ModpackIndex {
    pub format_version: u32,
    pub game: String,
    pub version_id: String,
    pub name: String,
    pub summary: String,
    pub files: Vec<ModpackFile>,
    /// `minecraft` and, when known, the loader, with their versions.
    pub dependencies: Vec<(String, String)>,
}

/// Describes one picked mod whose file holds `data`: its path under
/// `mods/` or `plugins/` with a sanitised name, its download URL, digests
/// and size.
pub fn modpack_file(dir_name: &str, m: &ModInfo, data: &[u8]) -> (r: ModpackFile)
    requires
        m.download_url is Some,
    ensures
        r.path@ == dir_name@ + seq!['/'] + sanitized(m.filename@),
        r.downloads@.len() == 1,
        r.downloads@[0]@ == m.download_url->0@,
        r.sha1@ == sha1_hex(data@),
        r.sha512@ == sha512_hex(data@),
        r.file_size == data@.len(),
{
    let mut path = concat(dir_name, "/");
    proof {
        reveal_strlit("/");
    }
    let safe = sanitize_filename(m.filename.as_str());
    path.append(safe.as_str());
    let mut downloads: Vec<String> = Vec::new();
    match &m.download_url {
        Some(u) => downloads.push(u.clone()),
        None => {},
    }
    ModpackFile {
        path,
        downloads,
        sha1: sha1_digest_hex(data),
        sha512: sha512_digest_hex(data),
        file_size: data.len() as u64,
    }
}

/// Builds the index: format 1 for Minecraft, the sanitised pack version,
/// a summary naming the server's provider and version, the files, and the
/// dependencies (`minecraft` and the loader, if detected).
pub fn modpack_index(
    name: &str,
    version: &str,
    provider: &str,
    mc_version: &str,
    files: Vec<ModpackFile>,
    loader: Option<(String, String)>,
) -> (r: ModpackIndex)
    ensures
        r.format_version == 1,
        r.game@ == "minecraft"@,
        r.version_id@ == sanitized(version@),
        r.name@ == name@,
        r.summary@ == "Server modpack for "@ + provider@ + seq![' '] + mc_version@,
        r.files@ == files@,
        r.dependencies@.len() == (if loader is Some { 2int } else { 1int }),
        r.dependencies@[0].0@ == "minecraft"@,
        r.dependencies@[0].1@ == mc_version@,
        loader matches Some(l) ==> r.dependencies@[1].0@ == l.0@ && r.dependencies@[1].1@ == l.1@,
{
    let mut summary = concat("Server modpack for ", provider);
    summary.append(" ");
    summary.append(mc_version);
    proof {
        reveal_strlit(" ");
    }
    let mut deps: Vec<(String, String)> = Vec::new();
    deps.push((String::from_str("minecraft"), String::from_str(mc_version)));
    match loader {
        Some(l) => deps.push(l),
        None => {},
    }
    ModpackIndex {
        format_version: 1,
        game: String::from_str("minecraft"),
        version_id: sanitize_filename(version),
        name: String::from_str(name),
        summary,
        files,
        dependencies: deps,
    }
}

/// Each space replaced by `-`.
pub open spec fn dashed(s: Seq<char>) -> Seq<char> {
    Seq::new(s.len(), |i: int| if s[i] == ' ' { '-' } else { s[i] })
}

/// File name of the archive inside the instance's modpack directory:
/// `<name>-<version>.mrpack`, with the name sanitised, dashed and lower-cased
/// and the version sanitised.
pub fn modpack_file_name(name: &str, version: &str) -> (r: String)
    ensures
        r@ == unicode_lowercase(dashed(sanitized(name@))) + seq!['-'] + sanitized(version@)
            + ".mrpack"@,
{
    let safe = chars_of(sanitize_filename(name).as_str());
    let mut d: Vec<char> = Vec::new();
    let mut i: usize = 0;
    while i < safe.len()
        invariant
            i <= safe@.len(),
            safe@ == sanitized(name@),
            d@ == dashed(safe@).take(i as int),
        decreases safe@.len() - i,
    {
        if safe[i] == ' ' {
            d.push('-');
        } else {
            d.push(safe[i]);
        }
        assert(d@ =~= dashed(safe@).take(i + 1));
        i = i + 1;
    }
    assert(dashed(safe@).take(safe@.len() as int) =~= dashed(safe@));
    let low = to_lowercase(string_of(&d).as_str());
    let mut r = concat(low.as_str(), "-");
    r.append(sanitize_filename(version).as_str());
    r.append(".mrpack");
    proof {
        reveal_strlit("-");
    }
    r
}

} // verus!
