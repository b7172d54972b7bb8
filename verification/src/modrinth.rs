//! Modrinth: the requests made to its API, and the choices made from what
//! it answers (which file to download, which dependencies to resolve).
use vstd::prelude::*;
use crate::errors::concat;
use crate::installer::{dec_string, decimal, InstallerError};
use crate::text::{chars_of, string_of, views};

verus! {

pub const MODRINTH_API: &'static str = "https://api.modrinth.com/v2";

/// A project (mod or plugin) on Modrinth.
#[derive(Debug)]
pub struct ModrinthProject {
    pub slug: String,
    pub title: String,
    pub description: String,
    pub project_type: String,
    pub downloads: u64,
    pub follows: u64,
    pub loaders: Vec<String>,
    pub game_versions: Vec<String>,
    pub page_url: String,
    pub icon_url: Option<String>,
    pub latest_version_id: Option<String>,
    pub client_side: Option<String>,
    pub server_side: Option<String>,
    pub color: Option<u32>,
}

/// A specific version of a Modrinth project.
#[derive(Debug)]
pub struct ModrinthVersion {
    pub id: String,
    pub name: String,
    pub version_number: String,
    pub loaders: Vec<String>,
    pub game_versions: Vec<String>,
    pub files: Vec<ModrinthFile>,
    pub dependencies: Vec<ModrinthDependency>,
}

/// A downloadable file within a version.
#[derive(Debug)]
pub struct ModrinthFile {
    pub url: String,
    pub filename: String,
    pub primary: bool,
    pub size: u64,
}

/// A dependency of a specific version.
#[derive(Debug)]
pub struct ModrinthDependency {
    pub project_id: Option<String>,
    pub version_id: Option<String>,
    pub file_name: Option<String>,
    pub dependency_type: String,
}

/// A resolved dependency with project slug and optional version details.
#[derive(Debug)]
pub struct ResolvedDependency {
    pub project_id: String,
    pub slug: String,
    pub title: String,
    pub dependency_type: String,
    pub version_id: Option<String>,
    pub version_number: Option<String>,
    pub download_url: Option<String>,
    pub filename: Option<String>,
    pub icon_url: Option<String>,
}

fn push_str(s: &mut String, t: &str)
    ensures
        final(s)@ == old(s)@ + t@,
{
    s.append(t);
}

// ---------------------------------------------------------------------------
// Requests
// ---------------------------------------------------------------------------

/// How one character is written in the `facets` parameter.
pub open spec fn url_escape(c: char) -> Seq<char> {
    if c == '[' {
        "%5B"@
    } else if c == ']' {
        "%5D"@
    } else if c == '"' {
        "%22"@
    } else if c == ',' {
        "%2C"@
    } else if c == ' ' {
        "%20"@
    } else {
        seq![c]
    }
}

/// The escaped form of a whole text.
pub open spec fn url_escaped(s: Seq<char>) -> Seq<char>
    decreases s.len(),
{
    if s.len() == 0 {
        Seq::empty()
    } else {
        url_escaped(s.drop_last()) + url_escape(s.last())
    }
}

/// Escapes the characters Modrinth's `facets` parameter needs escaped:
/// brackets, double quotes, commas and spaces.
pub fn urlencoding(input: &str) -> (r: String)
    ensures
        r@ == url_escaped(input@),
{
    let c = chars_of(input);
    let mut out = String::new();
    let mut i: usize = 0;
    while i < c.len()
        invariant
            i <= c@.len(),
            c@ == input@,
            out@ == url_escaped(c@.take(i as int)),
        decreases c@.len() - i,
    {
        let ch = c[i];
        let ghost before = out@;
        if ch == '[' {
            push_str(&mut out, "%5B");
        } else if ch == ']' {
            push_str(&mut out, "%5D");
        } else if ch == '"' {
            push_str(&mut out, "%22");
        } else if ch == ',' {
            push_str(&mut out, "%2C");
        } else if ch == ' ' {
            push_str(&mut out, "%20");
        } else {
            let mut one: Vec<char> = Vec::new();
            one.push(ch);
            let s1 = string_of(&one);
            push_str(&mut out, s1.as_str());
            assert(one@ =~= seq![ch]);
        }
        assert(c@.take(i + 1).drop_last() =~= c@.take(i as int));
        i = i + 1;
    }
    assert(c@.take(c@.len() as int) =~= c@);
    out
}

/// A facet that requires `field` to be `value`: `["field:value"]`.
pub open spec fn facet(field: Seq<char>, value: Seq<char>) -> Seq<char> {
    "[\""@ + field + seq![':'] + value + "\"]"@
}

/// The same facet for each value.
pub open spec fn facets_for(field: Seq<char>, values: Seq<Seq<char>>) -> Seq<Seq<char>> {
    Seq::new(values.len(), |i: int| facet(field, values[i]))
}

/// An optional value as a list of zero or one.
pub open spec fn opt_list(v: Option<Seq<char>>) -> Seq<Seq<char>> {
    match v {
        Some(x) => seq![x],
        None => Seq::empty(),
    }
}

/// `true` or `false`.
pub open spec fn bool_text(b: bool) -> Seq<char> {
    if b {
        "true"@
    } else {
        "false"@
    }
}

/// The facets of a search, in the order they are sent.
pub open spec fn search_facets(
    project_type: Option<Seq<char>>,
    loaders: Seq<Seq<char>>,
    versions: Seq<Seq<char>>,
    client_side: Option<Seq<char>>,
    server_side: Option<Seq<char>>,
    open_source: Option<bool>,
) -> Seq<Seq<char>> {
    facets_for("project_type"@, opt_list(project_type)) + facets_for("categories"@, loaders) + facets_for(
        "versions"@,
        versions,
    ) + facets_for("client_side"@, opt_list(client_side)) + facets_for("server_side"@, opt_list(server_side))
        + facets_for(
        "open_source"@,
        match open_source {
            Some(b) => seq![bool_text(b)],
            None => Seq::empty(),
        },
    )
}

/// Every filter of a search is sent as its own facet: one
/// `["project_type:…"]` when a type is given, one `["categories:l"]` per
/// loader, one `["versions:v"]` per game version, then the client side,
/// server side and open-source filters when given.
pub proof fn law_search_facets_cover(
    project_type: Option<Seq<char>>,
    loaders: Seq<Seq<char>>,
    versions: Seq<Seq<char>>,
    client_side: Option<Seq<char>>,
    server_side: Option<Seq<char>>,
    open_source: Option<bool>,
)
    ensures
        ({
            let f = search_facets(project_type, loaders, versions, client_side, server_side, open_source);
            let a = if project_type is Some { 1int } else { 0int };
            &&& f.len() == a + loaders.len() + versions.len() + (if client_side is Some { 1int } else { 0int })
                + (if server_side is Some { 1int } else { 0int }) + (if open_source is Some { 1int } else { 0int })
            &&& project_type matches Some(p) ==> f[0] == "[\"project_type:"@ + p + "\"]"@
            &&& forall|i: int| 0 <= i < loaders.len() ==> f[a + i] == "[\"categories:"@ + #[trigger] loaders[i]
                + "\"]"@
            &&& forall|i: int| 0 <= i < versions.len() ==> f[a + loaders.len() + i] == "[\"versions:"@
                + #[trigger] versions[i] + "\"]"@
            &&& forall|i: int| 0 <= i < versions.len() ==> f.contains("[\"versions:"@ + #[trigger] versions[i]
                + "\"]"@)
        }),
{
    let f = search_facets(project_type, loaders, versions, client_side, server_side, open_source);
    let a = if project_type is Some { 1int } else { 0int };
    reveal_strlit("[\"");
    reveal_strlit("\"]");
    reveal_strlit("[\"project_type:");
    reveal_strlit("[\"categories:");
    reveal_strlit("[\"versions:");
    reveal_strlit("project_type");
    reveal_strlit("categories");
    reveal_strlit("versions");
    assert forall|i: int| 0 <= i < loaders.len() implies f[a + i] == "[\"categories:"@ + #[trigger] loaders[i]
        + "\"]"@ by {
        assert(f[a + i] == facet("categories"@, loaders[i]));
        assert(facet("categories"@, loaders[i]) =~= "[\"categories:"@ + loaders[i] + "\"]"@);
    }
    assert forall|i: int| 0 <= i < versions.len() implies f[a + loaders.len() + i] == "[\"versions:"@
        + #[trigger] versions[i] + "\"]"@ by {
        assert(f[a + loaders.len() + i] == facet("versions"@, versions[i]));
        assert(facet("versions"@, versions[i]) =~= "[\"versions:"@ + versions[i] + "\"]"@);
    }
    assert forall|i: int| 0 <= i < versions.len() implies f.contains("[\"versions:"@ + #[trigger] versions[i]
        + "\"]"@) by {
        assert(f[a + loaders.len() + i] == "[\"versions:"@ + versions[i] + "\"]"@);
    }
    if let Some(p) = project_type {
        assert(f[0] == facet("project_type"@, p));
        assert(facet("project_type"@, p) =~= "[\"project_type:"@ + p + "\"]"@);
    }
}

/// Items separated by `sep`.
pub open spec fn sep_join(s: Seq<Seq<char>>, sep: Seq<char>) -> Seq<char>
    decreases s.len(),
{
    if s.len() == 0 {
        Seq::empty()
    } else if s.len() == 1 {
        s[0]
    } else {
        sep_join(s.drop_last(), sep) + sep + s.last()
    }
}

/// The search URL: the query as given, the facets (escaped) if any, the
/// sort index if any, the offset if not zero, and the limit.
pub open spec fn search_url_of(query: Seq<char>, facets: Seq<Seq<char>>, index: Option<Seq<char>>, offset: u32, limit: u32) -> Seq<char> {
    MODRINTH_API@ + "/search?query="@ + query + (if facets.len() == 0 {
        Seq::empty()
    } else {
        "&facets="@ + url_escaped(seq!['['] + sep_join(facets, seq![',']) + seq![']'])
    }) + (match index {
        Some(i) => "&index="@ + i,
        None => Seq::empty(),
    }) + (if offset > 0 {
        "&offset="@ + decimal(offset as nat)
    } else {
        Seq::empty()
    }) + "&limit="@ + decimal(limit as nat)
}

/// The text of an optional string.
pub open spec fn opt_seq(v: Option<String>) -> Option<Seq<char>> {
    match v {
        Some(s) => Some(s@),
        None => None,
    }
}

fn push_facet(out: &mut Vec<String>, field: &str, value: &str)
    ensures
        views(final(out)@) == views(old(out)@).push(facet(field@, value@)),
{
    let mut f = String::from_str("[\"");
    push_str(&mut f, field);
    push_str(&mut f, ":");
    push_str(&mut f, value);
    push_str(&mut f, "\"]");
    proof {
        reveal_strlit(":");
    }
    assert(f@ =~= facet(field@, value@));
    out.push(f);
    assert(views(out@) =~= views(old(out)@).push(facet(field@, value@)));
}

fn push_facets(out: &mut Vec<String>, field: &str, values: &Vec<String>)
    ensures
        views(final(out)@) == views(old(out)@) + facets_for(field@, views(values@)),
{
    let ghost start = views(out@);
    let mut i: usize = 0;
    while i < values.len()
        invariant
            i <= values@.len(),
            views(out@) == start + facets_for(field@, views(values@).take(i as int)),
        decreases values@.len() - i,
    {
        push_facet(out, field, values[i].as_str());
        assert(facets_for(field@, views(values@).take(i + 1)) =~= facets_for(field@, views(values@).take(i as int)).push(facet(field@, values@[i as int]@)));
        i = i + 1;
    }
    assert(views(values@).take(values@.len() as int) =~= views(values@));
}

fn push_opt_facet(out: &mut Vec<String>, field: &str, value: &Option<String>)
    ensures
        views(final(out)@) == views(old(out)@) + facets_for(field@, opt_list(opt_seq(*value))),
{
    match value {
        Some(v) => {
            push_facet(out, field, v.as_str());
            assert(facets_for(field@, seq![v@]) =~= seq![facet(field@, v@)]);
        },
        None => {
            assert(facets_for(field@, Seq::<Seq<char>>::empty()) =~= Seq::<Seq<char>>::empty());
            assert(views(out@) =~= views(out@) + Seq::<Seq<char>>::empty());
        },
    }
}

fn join_with_commas(s: &Vec<String>) -> (r: String)
    ensures
        r@ == sep_join(views(s@), seq![',']),
{
    let mut out = String::new();
    let mut i: usize = 0;
    proof {
        reveal_strlit(",");
    }
    while i < s.len()
        invariant
            i <= s@.len(),
            ","@ == seq![','],
            out@ == sep_join(views(s@).take(i as int), seq![',']),
        decreases s@.len() - i,
    {
        let ghost t = views(s@).take(i + 1);
        assert(t.drop_last() =~= views(s@).take(i as int));
        if i > 0 {
            push_str(&mut out, ",");
        }
        push_str(&mut out, s[i].as_str());
        proof {
            if i == 0 {
                assert(out@ =~= t[0]);
            }
        }
        i = i + 1;
    }
    assert(views(s@).take(s@.len() as int) =~= views(s@));
    out
}

/// Builds the search request of Modrinth's API.
pub fn search_url(
    query: &str,
    project_type: &Option<String>,
    loaders: &Vec<String>,
    versions: &Vec<String>,
    client_side: &Option<String>,
    server_side: &Option<String>,
    open_source: Option<bool>,
    index: &Option<String>,
    offset: u32,
    limit: u32,
) -> (r: String)
    ensures
        r@ == search_url_of(
            query@,
            search_facets(
                opt_seq(*project_type),
                views(loaders@),
                views(versions@),
                opt_seq(*client_side),
                opt_seq(*server_side),
                open_source,
            ),
            opt_seq(*index),
            offset,
            limit,
        ),
{
    let mut facets: Vec<String> = Vec::new();
    push_opt_facet(&mut facets, "project_type", project_type);
    push_facets(&mut facets, "categories", loaders);
    push_facets(&mut facets, "versions", versions);
    push_opt_facet(&mut facets, "client_side", client_side);
    push_opt_facet(&mut facets, "server_side", server_side);
    let os: Option<String> = match open_source {
        Some(true) => Some(String::from_str("true")),
        Some(false) => Some(String::from_str("false")),
        None => None,
    };
    push_opt_facet(&mut facets, "open_source", &os);
    let ghost fs = search_facets(
        opt_seq(*project_type),
        views(loaders@),
        views(versions@),
        opt_seq(*client_side),
        opt_seq(*server_side),
        open_source,
    );
    proof {
        assert(opt_list(opt_seq(os)) =~= match open_source {
            Some(b) => seq![bool_text(b)],
            None => Seq::<Seq<char>>::empty(),
        });
        assert(views(facets@) =~= fs);
    }
    let mut url = concat(MODRINTH_API, "/search?query=");
    push_str(&mut url, query);
    let ghost head = url@;
    let ghost fpart: Seq<char> = if fs.len() == 0 {
        Seq::empty()
    } else {
        "&facets="@ + url_escaped(seq!['['] + sep_join(fs, seq![',']) + seq![']'])
    };
    if facets.len() > 0 {
        let mut inner = String::from_str("[");
        push_str(&mut inner, join_with_commas(&facets).as_str());
        push_str(&mut inner, "]");
        proof {
            reveal_strlit("[");
            reveal_strlit("]");
            assert(inner@ =~= seq!['['] + sep_join(fs, seq![',']) + seq![']']);
        }
        push_str(&mut url, "&facets=");
        push_str(&mut url, urlencoding(inner.as_str()).as_str());
    }
    assert(url@ =~= head + fpart);
    let ghost ipart: Seq<char> = match opt_seq(*index) {
        Some(i) => "&index="@ + i,
        None => Seq::empty(),
    };
    match index {
        Some(i) => {
            push_str(&mut url, "&index=");
            push_str(&mut url, i.as_str());
        },
        None => {},
    }
    assert(url@ =~= head + fpart + ipart);
    let ghost opart: Seq<char> = if offset > 0 {
        "&offset="@ + decimal(offset as nat)
    } else {
        Seq::empty()
    };
    if offset > 0 {
        push_str(&mut url, "&offset=");
        push_str(&mut url, dec_string(offset as u64).as_str());
    }
    assert(url@ =~= head + fpart + ipart + opart);
    push_str(&mut url, "&limit=");
    push_str(&mut url, dec_string(limit as u64).as_str());
    assert(url@ =~= head + fpart + ipart + opart + "&limit="@ + decimal(limit as nat));
    url
}

/// The page of a project on Modrinth's site.
pub fn page_url(project_type: &str, slug: &str) -> (r: String)
    ensures
        r@ == "https://modrinth.com/"@ + project_type@ + seq!['/'] + slug@,
{
    let mut r = concat("https://modrinth.com/", project_type);
    push_str(&mut r, "/");
    push_str(&mut r, slug);
    proof {
        reveal_strlit("/");
    }
    r
}

/// The request for one project.
pub fn project_url(slug: &str) -> (r: String)
    ensures
        r@ == MODRINTH_API@ + "/project/"@ + slug@,
{
    concat(concat(MODRINTH_API, "/project/").as_str(), slug)
}

/// The request for one version by its identifier.
pub fn version_url(version_id: &str) -> (r: String)
    ensures
        r@ == MODRINTH_API@ + "/version/"@ + version_id@,
{
    concat(concat(MODRINTH_API, "/version/").as_str(), version_id)
}

/// The request for a project's versions, filtered by Minecraft version
/// and loader when given.
pub fn versions_url(slug: &str, mc_version: &Option<String>, loader: &Option<String>) -> (r: String)
    ensures
        r@ == MODRINTH_API@ + "/project/"@ + slug@ + "/version"@ + (match (mc_version, loader) {
            (None, None) => Seq::empty(),
            (Some(m), None) => "?game_versions=[\""@ + m@ + "\"]"@,
            (None, Some(l)) => "?loaders=[\""@ + l@ + "\"]"@,
            (Some(m), Some(l)) => "?game_versions=[\""@ + m@ + "\"]"@ + "&loaders=[\""@ + l@ + "\"]"@,
        }),
{
    let mut url = concat(concat(MODRINTH_API, "/project/").as_str(), slug);
    push_str(&mut url, "/version");
    match mc_version {
        Some(m) => {
            push_str(&mut url, "?game_versions=[\"");
            push_str(&mut url, m.as_str());
            push_str(&mut url, "\"]");
        },
        None => {},
    }
    match loader {
        Some(l) => {
            if mc_version.is_some() {
                push_str(&mut url, "&loaders=[\"");
            } else {
                push_str(&mut url, "?loaders=[\"");
            }
            push_str(&mut url, l.as_str());
            push_str(&mut url, "\"]");
        },
        None => {},
    }
    url
}

// ---------------------------------------------------------------------------
// Choices
// ---------------------------------------------------------------------------

/// Index of the file to download.
pub fn pick_file(files: &Vec<ModrinthFile>) -> (r: Option<usize>)
    ensures
        match r {
            Some(i) => i < files@.len() && file_pick_spec(files@) == Some(i as int),
            None => file_pick_spec(files@) is None,
        },
{
    let mut i: usize = 0;
    while i < files.len()
        invariant
            i <= files@.len(),
            forall|j: int| 0 <= j < i ==> !(#[trigger] files@[j]).primary,
        decreases files@.len() - i,
    {
        if files[i].primary {
            proof {
                let c = choose|c: int| 0 <= c < files@.len() && (#[trigger] files@[c]).primary && forall|j: int| 0 <= j < c ==> !(#[trigger] files@[j]).primary;
                assert(files@[i as int].primary);
                if c < i {
                    assert(!files@[c].primary);
                }
                if c > i {
                    assert(!files@[i as int].primary);
                }
            }
            return Some(i);
        }
        i = i + 1;
    }
    if files.len() > 0 {
        Some(0)
    } else {
        None
    }
}

/// The download URL of a project for a Minecraft version and loader, from
/// the project's matching versions (newest first).
pub fn download_url_from(slug: &str, mc_version: &str, loader: &str, versions: &Vec<ModrinthVersion>) -> (r: Result<String, InstallerError>)
    ensures
        versions@.len() == 0 ==> (r matches Err(InstallerError::NoVersion(a, b)) && a@ == "modrinth/"@ + slug@
            && b@ == mc_version@ + seq!['+'] + loader@),
        versions@.len() > 0 && versions@[0].files@.len() == 0 ==> (r matches Err(InstallerError::NoVersion(a, b))
            && a@ == "modrinth/"@ + slug@ + "/files"@ && b@ == versions@[0].version_number@),
        versions@.len() > 0 && versions@[0].files@.len() > 0 ==> (r matches Ok(u) && (file_pick_spec(
            versions@[0].files@,
        ) matches Some(i) && u@ == versions@[0].files@[i].url@)),
{
    if versions.len() == 0 {
        let mut b = String::from_str(mc_version);
        push_str(&mut b, "+");
        push_str(&mut b, loader);
        proof {
            reveal_strlit("+");
        }
        return Err(InstallerError::NoVersion(concat("modrinth/", slug), b));
    }
    let v = &versions[0];
    match pick_file(&v.files) {
        Some(i) => Ok(v.files[i].url.clone()),
        None => {
            let mut a = concat("modrinth/", slug);
            push_str(&mut a, "/files");
            Err(InstallerError::NoVersion(a, v.version_number.clone()))
        },
    }
}

/// A dependency is resolved when it is required and names its project.
pub open spec fn resolvable(d: ModrinthDependency) -> bool {
    d.dependency_type@ == "required"@ && d.project_id is Some
}

/// The dependencies to resolve, in order, as (project, pinned version).
pub open spec fn to_resolve(deps: Seq<ModrinthDependency>) -> Seq<(Seq<char>, Option<Seq<char>>)>
    decreases deps.len(),
{
    if deps.len() == 0 {
        Seq::empty()
    } else if resolvable(deps.last()) {
        to_resolve(deps.drop_last()).push(
            (deps.last().project_id->0@, match deps.last().version_id {
                Some(v) => Some(v@),
                None => None,
            }),
        )
    } else {
        to_resolve(deps.drop_last())
    }
}

/// Picks the required dependencies that name a project, with the version
/// each pins, if any.
pub fn required_dependencies(deps: &Vec<ModrinthDependency>) -> (r: Vec<(String, Option<String>)>)
    ensures
        r@.len() == to_resolve(deps@).len(),
        forall|i: int| 0 <= i < r@.len() ==> (#[trigger] r@[i]).0@ == to_resolve(deps@)[i].0 && match r@[i].1 {
            Some(v) => to_resolve(deps@)[i].1 == Some(v@),
            None => to_resolve(deps@)[i].1 is None,
        },
{
    let mut out: Vec<(String, Option<String>)> = Vec::new();
    let mut i: usize = 0;
    while i < deps.len()
        invariant
            i <= deps@.len(),
            out@.len() == to_resolve(deps@.take(i as int)).len(),
            forall|k: int| 0 <= k < out@.len() ==> (#[trigger] out@[k]).0@ == to_resolve(deps@.take(i as int))[k].0 && match out@[k].1 {
                Some(v) => to_resolve(deps@.take(i as int))[k].1 == Some(v@),
                None => to_resolve(deps@.take(i as int))[k].1 is None,
            },
        decreases deps@.len() - i,
    {
        let d = &deps[i];
        assert(deps@.take(i + 1).drop_last() =~= deps@.take(i as int));
        let required = crate::text::str_eq(d.dependency_type.as_str(), "required");
        match &d.project_id {
            Some(pid) => {
                if required {
                    let v: Option<String> = match &d.version_id {
                        Some(x) => Some(x.clone()),
                        None => None,
                    };
                    out.push((pid.clone(), v));
                }
            },
            None => {},
        }
        i = i + 1;
    }
    assert(deps@.take(deps@.len() as int) =~= deps@);
    out
}

/// One resolved dependency, from its project's details and the version
/// found for it (if any): that version's identifier, number and download
/// file.
pub fn resolved_dependency(
    project_id: &str,
    slug: &str,
    title: &str,
    icon_url: &Option<String>,
    version: Option<&ModrinthVersion>,
) -> (r: ResolvedDependency)
    ensures
        r.project_id@ == project_id@,
        r.slug@ == slug@,
        r.title@ == title@,
        r.dependency_type@ == "required"@,
        r.icon_url == *icon_url,
        version is None ==> r.version_id is None && r.version_number is None && r.download_url is None
            && r.filename is None,
        version matches Some(v) ==> (r.version_id == Some(v.id) && r.version_number == Some(v.version_number)
            && match file_pick_spec(v.files@) {
            Some(i) => r.download_url == Some(v.files@[i].url) && r.filename == Some(v.files@[i].filename),
            None => r.download_url is None && r.filename is None,
        }),
{
    let icon: Option<String> = match icon_url {
        Some(u) => Some(u.clone()),
        None => None,
    };
    let (vid, vnum, url, fname) = match version {
        None => (None, None, None, None),
        Some(v) => {
            let f = pick_file(&v.files);
            match f {
                Some(i) => (
                    Some(v.id.clone()),
                    Some(v.version_number.clone()),
                    Some(v.files[i].url.clone()),
                    Some(v.files[i].filename.clone()),
                ),
                None => (Some(v.id.clone()), Some(v.version_number.clone()), None, None),
            }
        },
    };
    ResolvedDependency {
        project_id: String::from_str(project_id),
        slug: String::from_str(slug),
        title: String::from_str(title),
        dependency_type: String::from_str("required"),
        version_id: vid,
        version_number: vnum,
        download_url: url,
        filename: fname,
        icon_url: icon,
    }
}

/// The index [`pick_file`] returns, as a spec function of the files.
pub open spec fn file_pick_spec(files: Seq<ModrinthFile>) -> Option<int> {
    if exists|i: int| 0 <= i < files.len() && (#[trigger] files[i]).primary {
        Some(choose|i: int| 0 <= i < files.len() && (#[trigger] files[i]).primary && forall|j: int| 0 <= j < i ==> !(#[trigger] files[j]).primary)
    } else if files.len() > 0 {
        Some(0)
    } else {
        None
    }
}

/// How Modrinth's search is asked at most for this many results.
pub const SEARCH_MAX_LIMIT: u32 = 100;

/// The number of search results asked for: ten unless given, at most 100.
pub fn search_limit(limit: Option<u32>) -> (r: u32)
    ensures
        r == (match limit {
            Some(l) => if l < 100 {
                l
            } else {
                100
            },
            None => 10,
        }),
{
    match limit {
        Some(l) => if l < SEARCH_MAX_LIMIT {
            l
        } else {
            SEARCH_MAX_LIMIT
        },
        None => 10,
    }
}

/// The parts of a text between commas (`str::split(',')`).
pub open spec fn comma_parts(s: Seq<char>) -> Seq<Seq<char>>
    decreases s.len(),
{
    match crate::text::idx_from(s, ',', 0) {
        None => seq![s],
        Some(i) => if 0 <= i < s.len() {
            seq![s.subrange(0, i)] + comma_parts(s.subrange(i + 1, s.len() as int))
        } else {
            seq![s]
        },
    }
}

/// A comma-separated list with the blanks around each item trimmed.
pub fn comma_list(s: &str) -> (r: Vec<String>)
    ensures
        views(r@) == comma_parts(s@).map_values(|p: Seq<char>| crate::text::trim(p)),
{
    let c = chars_of(s);
    let mut out: Vec<String> = Vec::new();
    let mut rest: Vec<char> = crate::text::slice_range(&c, 0, c.len());
    assert(rest@ =~= s@);
    loop
        invariant
            views(out@) + comma_parts(rest@).map_values(|p: Seq<char>| crate::text::trim(p))
                == comma_parts(s@).map_values(|p: Seq<char>| crate::text::trim(p)),
        decreases rest@.len(),
    {
        let ghost before = views(out@);
        let ghost r0 = rest@;
        match crate::text::find_char_from(&rest, ',', 0) {
            None => {
                let t = crate::text::trim_chars(&rest);
                out.push(string_of(&t));
                proof {
                    assert(comma_parts(r0) == seq![r0]);
                    assert(views(out@) =~= before.push(crate::text::trim(r0)));
                    assert(seq![r0].map_values(|p: Seq<char>| crate::text::trim(p)) =~= seq![crate::text::trim(r0)]);
                    assert(views(out@) =~= before + seq![r0].map_values(|p: Seq<char>| crate::text::trim(p)));
                }
                return out;
            },
            Some(i) => {
                proof {
                    crate::text::lemma_idx_from(r0, ',', 0);
                }
                let head = crate::text::slice_range(&rest, 0, i);
                let len = rest.len();
                let tail = crate::text::slice_range(&rest, i + 1, len);
                let t = crate::text::trim_chars(&head);
                out.push(string_of(&t));
                proof {
                    let hs = r0.subrange(0, i as int);
                    assert(comma_parts(r0) == seq![hs] + comma_parts(tail@));
                    assert(views(out@) =~= before.push(crate::text::trim(hs)));
                    assert((seq![hs] + comma_parts(tail@)).map_values(|p: Seq<char>| crate::text::trim(p)) =~= seq![crate::text::trim(hs)] + comma_parts(tail@).map_values(|p: Seq<char>| crate::text::trim(p)));
                    assert(views(out@) + comma_parts(tail@).map_values(|p: Seq<char>| crate::text::trim(p)) =~= before + comma_parts(r0).map_values(|p: Seq<char>| crate::text::trim(p)));
                }
                rest = tail;
            },
        }
    }
}

/// The percent-decoded text, when the decoded bytes are UTF-8.
pub uninterp spec fn percent_decoded(s: Seq<char>) -> Option<Seq<char>>;

/// Wraps `percent_encoding::percent_decode_str(s).decode_utf8()`. Trusted:
/// the result depends on `s` alone, and a text without `%` decodes to
/// itself (the crate only rewrites `%` followed by two hex digits).
#[verifier::external_body]
fn percent_decode_utf8(s: &str) -> (r: Option<String>)
    ensures
        opt_seq(r) == percent_decoded(s@),
        !s@.contains('%') ==> opt_seq(r) == Some(s@),
{
    match percent_encoding::percent_decode_str(s).decode_utf8() {
        Ok(d) => Some(d.into_owned()),
        Err(_) => None,
    }
}

/// A file name given percent-encoded (e.g. `%2B` for `+`), decoded when
/// that gives UTF-8 text, else kept as given.
pub fn decode_file_name(name: &str) -> (r: String)
    ensures
        match percent_decoded(name@) {
            Some(d) => r@ == d,
            None => r@ == name@,
        },
{
    match percent_decode_utf8(name) {
        Some(d) => d,
        None => String::from_str(name),
    }
}

/// Text after the last `/` (all of it when there is none).
pub open spec fn last_segment(u: Seq<char>) -> Seq<char> {
    if exists|i: int| 0 <= i < u.len() && u[i] == '/' {
        let i = choose|i: int| 0 <= i < u.len() && u[i] == '/' && forall|j: int| i < j < u.len() ==> u[j] != '/';
        u.subrange(i + 1, u.len() as int)
    } else {
        u
    }
}

/// The file name a download URL stands for: its last segment, percent
/// decoded when that gives UTF-8 text.
pub fn download_file_name(url: &str) -> (r: String)
    ensures
        match percent_decoded(last_segment(url@)) {
            Some(d) => r@ == d,
            None => r@ == last_segment(url@),
        },
{
    let c = chars_of(url);
    let mut i: usize = c.len();
    while i > 0 && c[i - 1] != '/'
        invariant
            i <= c@.len(),
            c@ == url@,
            forall|j: int| i <= j < c@.len() ==> c@[j] != '/',
        decreases i,
    {
        i = i - 1;
    }
    let len = c.len();
    let seg = crate::text::slice_range(&c, i, len);
    proof {
        if i > 0 {
            let k = choose|k: int| 0 <= k < url@.len() && url@[k] == '/' && forall|j: int| k < j < url@.len() ==> url@[j] != '/';
            if k < i - 1 {
                assert(url@[i - 1] != '/');
            }
            if k > i - 1 {
                assert(url@[k] != '/');
            }
        }
        assert(seg@ =~= last_segment(url@));
    }
    let raw = string_of(&seg);
    match percent_decode_utf8(raw.as_str()) {
        Some(d) => d,
        None => raw,
    }
}

/// Escaping leaves no bracket, quote, comma or space in the text.
pub proof fn law_escaped_is_clean(s: Seq<char>)
    ensures
        forall|i: int| 0 <= i < url_escaped(s).len() ==> {
            let c = #[trigger] url_escaped(s)[i];
            c != '[' && c != ']' && c != '"' && c != ',' && c != ' '
        },
    decreases s.len(),
{
    reveal_strlit("%5B");
    reveal_strlit("%5D");
    reveal_strlit("%22");
    reveal_strlit("%2C");
    reveal_strlit("%20");
    if s.len() > 0 {
        law_escaped_is_clean(s.drop_last());
        let a = url_escaped(s.drop_last());
        let b = url_escape(s.last());
        assert(url_escaped(s) == a + b);
        assert forall|i: int| 0 <= i < (a + b).len() implies {
            let c = #[trigger] (a + b)[i];
            c != '[' && c != ']' && c != '"' && c != ',' && c != ' '
        } by {
            if i < a.len() {
                assert((a + b)[i] == a[i]);
            } else {
                assert((a + b)[i] == b[i - a.len()]);
            }
        }
    }
}

} // verus!
