use easymc::cli::{daemon_args, entry_status, entry_status_at, remove_ip};
use easymc::errors::Error;
use easymc::installer::{
    check_download_status, dec_string, latest_source, list_providers, parse_provider, verify_sha1,
    versions_source, BuildSource, InstallerError, ServerSoftware,
};
use easymc::log::LogManager;
use easymc::modpack::{modpack_file, modpack_file_name, modpack_index, sanitize_filename, select_mods};
use easymc::modrinth::{
    comma_list, download_file_name, download_url_from, page_url, pick_file, project_url,
    required_dependencies, resolved_dependency, search_limit, search_url, urlencoding, version_url,
    versions_url, ModrinthDependency, ModrinthFile, ModrinthVersion,
};
use easymc::mods::{
    display_name, is_enabled_name, is_mod_file_name, latest_loader_version, list_mod_entries, version_lt,
    loader_library, manifest_key_of, mod_file_candidates, mod_type, mods_dir_name, toggle_plan,
    DirEntryInfo, ModInfo,
};
use easymc::providers::{
    fabric_latest, forge_latest, forge_versions, neoforge_latest, paper_latest, purpur_latest,
    vanilla_latest, vanilla_meta_url, FabricInstaller, PaperBuild,
};
use easymc::world::{
    backup_file_name, backup_selection, delete_world_check, has_extension, is_world_dir,
    record_command, sort_newest_first, world_top_name, BackupEntry, HistoryEntry,
};

fn s(x: &str) -> String {
    x.to_string()
}

fn entry(name: &str, is_file: bool) -> DirEntryInfo {
    DirEntryInfo { name: s(name), is_file, size_bytes: 10, size_human: s("10 B"), last_modified: s("t") }
}

fn mod_info(filename: &str, enabled: bool, url: Option<&str>) -> ModInfo {
    ModInfo {
        filename: s(filename),
        name: s(filename),
        enabled,
        size_bytes: 1,
        size_human: s("1 B"),
        last_modified: String::new(),
        download_url: url.map(s),
    }
}

#[test]
fn mod_directories_by_provider() {
    assert_eq!(mods_dir_name("fabric"), "mods");
    assert_eq!(mods_dir_name("paper"), "plugins");
    assert_eq!(mod_type("forge"), "mod");
    assert_eq!(mod_type("vanilla"), "plugin");
}

#[test]
fn mod_file_names() {
    assert!(is_mod_file_name("a.jar"));
    assert!(is_mod_file_name("a.jar.disabled"));
    assert!(!is_mod_file_name("a.zip"));
    assert_eq!(display_name("sodium.jar"), "sodium");
    assert_eq!(display_name("sodium.jar.disabled"), "sodium");
    assert_eq!(manifest_key_of("sodium.jar.disabled"), "sodium.jar");
    assert!(is_enabled_name("a.jar"));
    assert!(!is_enabled_name("a.jar.disabled"));
}

#[test]
fn listing_is_sorted_and_carries_urls() {
    let entries = vec![
        entry("zeta.jar", true),
        entry("alpha.jar.disabled", true),
        entry("notes.txt", true),
        entry("dir.jar", false),
        entry("beta.jar", true),
    ];
    let manifest = vec![(s("alpha.jar"), s("https://cdn/alpha.jar")), (s("zeta.jar"), s("https://cdn/zeta.jar"))];
    let items = list_mod_entries(&entries, &manifest);
    let names: Vec<&str> = items.iter().map(|m| m.filename.as_str()).collect();
    assert_eq!(names, vec!["alpha.jar.disabled", "beta.jar", "zeta.jar"]);
    assert!(!items[0].enabled);
    assert_eq!(items[0].name, "alpha");
    assert_eq!(items[0].download_url.as_deref(), Some("https://cdn/alpha.jar"));
    assert_eq!(items[1].download_url, None);
    assert_eq!(items[2].size_human, "10 B");
}

#[test]
fn candidates_and_toggles() {
    let c = mod_file_candidates("a+b.jar");
    assert_eq!(c, vec!["a+b.jar", "a%2Bb%2Ejar", "a+b.jar.disabled", "a+b.jar.jar.disabled"]);
    let p = toggle_plan("x.jar.disabled", true);
    assert_eq!(p.source, "x.jar.disabled");
    assert_eq!(p.target, "x.jar");
    assert_eq!(p.manifest_key, "x.jar");
    let p = toggle_plan("x.jar", false);
    assert_eq!(p.source, "x.jar");
    assert_eq!(p.target, "x.jar.disabled");
    assert_eq!(p.name, "x");
}

#[test]
fn loader_versions() {
    assert_eq!(loader_library("fabric"), Some((s("fabric-loader"), s("libraries/net/fabricmc/fabric-loader"))));
    assert_eq!(loader_library("paper"), None);
    let dirs = vec![s("0.15.11"), s("0.16.9"), s("."), s("x1"), s("0.16.10")];
    assert_eq!(latest_loader_version(false, &dirs), Some(s("0.16.10")));
    assert_eq!(latest_loader_version(false, &vec![s("0.9.0"), s("0.16.10")]), Some(s("0.16.10")));
    let forge2 = vec![s("1.20.1-47.10.0"), s("1.20.1-47.9.3")];
    assert_eq!(latest_loader_version(true, &forge2), Some(s("47.10.0")));
    assert_eq!(latest_loader_version(false, &vec![s("1.02"), s("1.2")]), Some(s("1.02")));
    let forge = vec![s("1.20.1-47.1.0"), s("1.20.1-47.2.0"), s("1.20.1-"), s("nodash")];
    assert_eq!(latest_loader_version(true, &forge), Some(s("47.2.0")));
    assert_eq!(latest_loader_version(false, &vec![s("..")]), None);
    let v = |t: &str| t.chars().collect::<Vec<char>>();
    assert!(version_lt(&v("0.9.0"), &v("0.16.10")));
    assert!(!version_lt(&v("0.16.10"), &v("0.9.0")));
    assert!(version_lt(&v("1.2"), &v("1.2.1")));
    assert!(!version_lt(&v("1.02"), &v("1.2")));
    assert!(!version_lt(&v("1.2"), &v("1.2")));
}

#[test]
fn modpack_selection() {
    let mods = vec![mod_info("a.jar", true, Some("u1")), mod_info("b.jar", false, None), mod_info("c.jar", true, None)];
    match select_mods(&mods, &vec![]) {
        Err(Error::Other(m)) => assert_eq!(m, "Missing download URLs for mods: c.jar. Reinstall them to register their URLs."),
        _ => panic!("expected missing URLs"),
    }
    let picked = select_mods(&mods, &vec![s("a.jar")]).unwrap();
    assert_eq!(picked.len(), 1);
    match select_mods(&mods, &vec![s("zzz.jar")]) {
        Err(Error::Other(m)) => assert_eq!(m, "No mods selected"),
        _ => panic!("expected nothing selected"),
    }
    match select_mods(&mods, &vec![s("b.jar"), s("c.jar")]) {
        Err(Error::Other(m)) => assert_eq!(m, "Missing download URLs for mods: b.jar, c.jar. Reinstall them to register their URLs."),
        _ => panic!("expected missing URLs"),
    }
}

#[test]
fn modpack_documents() {
    assert_eq!(sanitize_filename("a:b/c*?\"<>|\\d\u{1}"), "a_b_c_______d_");
    let f = modpack_file("mods", &mod_info("x:y.jar", true, Some("https://cdn/x.jar")), b"abc");
    assert_eq!(f.path, "mods/x_y.jar");
    assert_eq!(f.downloads, vec!["https://cdn/x.jar"]);
    assert_eq!(f.sha1, "a9993e364706816aba3e25717850c26c9cd0d89d");
    assert_eq!(f.sha512.len(), 128);
    assert!(f.sha512.starts_with("ddaf35a193617aba"));
    assert_eq!(f.file_size, 3);
    let idx = modpack_index("Pack", "1.0:beta", "fabric", "1.21.4", vec![f], Some((s("fabric-loader"), s("0.16.9"))));
    assert_eq!(idx.format_version, 1);
    assert_eq!(idx.game, "minecraft");
    assert_eq!(idx.version_id, "1.0_beta");
    assert_eq!(idx.summary, "Server modpack for fabric 1.21.4");
    assert_eq!(idx.dependencies, vec![(s("minecraft"), s("1.21.4")), (s("fabric-loader"), s("0.16.9"))]);
    assert_eq!(modpack_file_name("My Pack", "1.0"), "my-pack-1.0.mrpack");
}

#[test]
fn modrinth_requests() {
    assert_eq!(urlencoding("[\"a b\",c]"), "%5B%22a%20b%22%2Cc%5D");
    let url = search_url("sodium", &Some(s("mod")), &vec![s("fabric")], &vec![], &None, &Some(s("required")), Some(true), &Some(s("downloads")), 20, 10);
    assert_eq!(
        url,
        "https://api.modrinth.com/v2/search?query=sodium&facets=%5B%5B%22project_type:mod%22%5D%2C%5B%22categories:fabric%22%5D%2C%5B%22server_side:required%22%5D%2C%5B%22open_source:true%22%5D%5D&index=downloads&offset=20&limit=10"
    );
    assert_eq!(search_url("x", &None, &vec![], &vec![], &None, &None, None, &None, 0, 5), "https://api.modrinth.com/v2/search?query=x&limit=5");
    assert_eq!(page_url("mod", "sodium"), "https://modrinth.com/mod/sodium");
    assert_eq!(project_url("p1"), "https://api.modrinth.com/v2/project/p1");
    assert_eq!(version_url("v1"), "https://api.modrinth.com/v2/version/v1");
    assert_eq!(
        versions_url("sodium", &Some(s("1.21")), &Some(s("fabric"))),
        "https://api.modrinth.com/v2/project/sodium/version?game_versions=[\"1.21\"]&loaders=[\"fabric\"]"
    );
    assert_eq!(versions_url("sodium", &None, &Some(s("fabric"))), "https://api.modrinth.com/v2/project/sodium/version?loaders=[\"fabric\"]");
    assert_eq!(search_limit(None), 10);
    assert_eq!(search_limit(Some(500)), 100);
    assert_eq!(comma_list(" fabric, quilt ,"), vec!["fabric", "quilt", ""]);
    assert_eq!(download_file_name("https://cdn/data/x/sodium%2B1.0.jar"), "sodium+1.0.jar");
    assert_eq!(download_file_name("plain"), "plain");
}

fn file(url: &str, primary: bool) -> ModrinthFile {
    ModrinthFile { url: s(url), filename: s(url), primary, size: 1 }
}

fn version(n: &str, files: Vec<ModrinthFile>) -> ModrinthVersion {
    ModrinthVersion {
        id: format!("id-{n}"),
        name: s(n),
        version_number: s(n),
        loaders: vec![],
        game_versions: vec![],
        files,
        dependencies: vec![],
    }
}

#[test]
fn modrinth_choices() {
    assert_eq!(pick_file(&vec![file("a", false), file("b", true), file("c", true)]), Some(1));
    assert_eq!(pick_file(&vec![file("a", false)]), Some(0));
    assert_eq!(pick_file(&vec![]), None);
    match download_url_from("sodium", "1.21", "fabric", &vec![]) {
        Err(InstallerError::NoVersion(a, b)) => {
            assert_eq!(a, "modrinth/sodium");
            assert_eq!(b, "1.21+fabric");
        },
        _ => panic!("expected no version"),
    }
    match download_url_from("sodium", "1.21", "fabric", &vec![version("0.5", vec![])]) {
        Err(InstallerError::NoVersion(a, b)) => {
            assert_eq!(a, "modrinth/sodium/files");
            assert_eq!(b, "0.5");
        },
        _ => panic!("expected no files"),
    }
    let v = version("0.6", vec![file("x", false), file("y", true)]);
    assert_eq!(download_url_from("sodium", "1.21", "fabric", &vec![v]).unwrap(), "y");
    let deps = vec![
        ModrinthDependency { project_id: Some(s("p1")), version_id: None, file_name: None, dependency_type: s("required") },
        ModrinthDependency { project_id: Some(s("p2")), version_id: Some(s("v2")), file_name: None, dependency_type: s("optional") },
        ModrinthDependency { project_id: None, version_id: None, file_name: None, dependency_type: s("required") },
        ModrinthDependency { project_id: Some(s("p3")), version_id: Some(s("v3")), file_name: None, dependency_type: s("required") },
    ];
    assert_eq!(required_dependencies(&deps), vec![(s("p1"), None), (s("p3"), Some(s("v3")))]);
    let v = version("1.0", vec![file("u", true)]);
    let r = resolved_dependency("p1", "fabric-api", "Fabric API", &None, Some(&v));
    assert_eq!(r.version_id.as_deref(), Some("id-1.0"));
    assert_eq!(r.download_url.as_deref(), Some("u"));
    let r = resolved_dependency("p1", "fabric-api", "Fabric API", &Some(s("icon")), None);
    assert_eq!(r.version_id, None);
    assert_eq!(r.icon_url.as_deref(), Some("icon"));
    assert_eq!(r.dependency_type, "required");
}

#[test]
fn providers_and_software() {
    assert_eq!(ServerSoftware::NeoForge.name(), "neoforge");
    assert!(matches!(parse_provider("PaPeR"), Ok(ServerSoftware::Paper)));
    match parse_provider("bukkit") {
        Err(Error::Other(m)) => assert_eq!(m, "Unknown provider 'bukkit'"),
        _ => panic!("expected unknown provider"),
    }
    let p = list_providers();
    assert_eq!(p.len(), 8);
    assert_eq!(p[0].name, "vanilla");
    assert_eq!(p[6].label, "Waterfall (Proxy)");
    for (i, q) in p.iter().enumerate() {
        assert!(!q.label.is_empty());
        assert_eq!(parse_provider(&q.name).unwrap().name(), q.name);
        assert!(p[i + 1..].iter().all(|o| o.name != q.name));
    }
    for sw in [ServerSoftware::Vanilla, ServerSoftware::Spigot, ServerSoftware::Forge, ServerSoftware::Velocity] {
        assert!(parse_provider(sw.name()).unwrap() == sw);
    }
    assert!(matches!(latest_source(ServerSoftware::Spigot), Err(InstallerError::Unsupported(_))));
    assert!(matches!(latest_source(ServerSoftware::Velocity), Ok(BuildSource::PaperProject(p)) if p == "velocity"));
    assert!(versions_source(ServerSoftware::NeoForge).is_none());
    assert_eq!(dec_string(0), "0");
    assert_eq!(dec_string(1234567890), "1234567890");
    assert!(check_download_status(204, "u").is_ok());
    assert!(matches!(check_download_status(404, "u"), Err(InstallerError::HttpStatus(404, u)) if u == "u"));
    assert!(verify_sha1(b"abc", "a9993e364706816aba3e25717850c26c9cd0d89d").is_ok());
    assert!(matches!(verify_sha1(b"abc", "00"), Err(InstallerError::ChecksumMismatch { .. })));
}

#[test]
fn build_choices() {
    let builds = vec![
        PaperBuild { build: 10, channel: s("STABLE"), downloads: vec![(s("application"), s("paper-10.jar"))] },
        PaperBuild { build: 11, channel: s("EXPERIMENTAL"), downloads: vec![(s("application"), s("paper-11.jar"))] },
    ];
    let info = paper_latest("paper", "1.21.4", &builds).unwrap();
    assert_eq!(info.name, "paper 1.21.4 build 10");
    assert_eq!(info.build.as_deref(), Some("10"));
    assert_eq!(info.download_url, "https://api.papermc.io/v2/projects/paper/versions/1.21.4/builds/10/downloads/paper-10.jar");
    assert!(matches!(paper_latest("paper", "1.0", &vec![]), Err(InstallerError::NoStableBuild(_, _))));
    let odd = vec![PaperBuild { build: 3, channel: s("ALPHA"), downloads: vec![] }];
    match paper_latest("velocity", "3.3", &odd) {
        Err(InstallerError::NoVersion(a, b)) => {
            assert_eq!(a, "velocity");
            assert_eq!(b, "3.3 build 3");
        },
        _ => panic!("expected no application download"),
    }
    let p = purpur_latest("1.21.4", "2400");
    assert_eq!(p.download_url, "https://api.purpurmc.org/v2/purpur/1.21.4/2400/download");
    let inst = vec![FabricInstaller { url: s("i0"), stable: false }, FabricInstaller { url: s("i1"), stable: true }];
    let f = fabric_latest("1.21.4", &vec![s("0.16.9"), s("0.16.8")], &inst).unwrap();
    assert_eq!(f.name, "Fabric 1.21.4 loader 0.16.9");
    assert_eq!(f.download_url, "i1");
    assert!(matches!(fabric_latest("1.21.4", &vec![], &inst), Err(InstallerError::NoVersion(a, _)) if a == "fabric-loader"));
    let keys = vec![s("1.20.1-latest"), s("1.20.1-recommended"), s("1.19.2-latest"), s("1.21-latest"), s("junk")];
    assert_eq!(forge_versions(&keys), vec!["1.21", "1.20.1", "1.19.2"]);
    let promos = vec![(s("1.20.1-latest"), s("47.2.0"))];
    let fl = forge_latest("1.20.1", &promos).unwrap();
    assert_eq!(fl.download_url, "https://maven.minecraftforge.net/net/minecraftforge/forge/1.20.1-47.2.0/forge-1.20.1-47.2.0-installer.jar");
    assert_eq!(fl.name, "Forge 1.20.1-47.2.0");
    assert!(forge_latest("1.7", &promos).is_err());
    let html = "<a href=\"20.4.1/\">20.4.1/</a><a href=\"21.4.0-beta/\">x</a><a href=\"21.4.5/\">y</a><a href=\"22.0.0/\">z</a>";
    let n = neoforge_latest("1.21.4", html).unwrap();
    assert_eq!(n.name, "NeoForge 21.4.5");
    assert_eq!(n.download_url, "https://maven.neoforged.net/releases/net/neoforged/neoforge/21.4.5/neoforge-21.4.5-installer.jar");
    assert!(neoforge_latest("1.12.2", html).is_err());
    let entries = vec![(s("1.21.4"), s("https://meta/1.21.4.json")), (s("1.21.3"), s("https://meta/1.21.3.json"))];
    assert_eq!(vanilla_meta_url(&entries, "1.21.3").unwrap(), "https://meta/1.21.3.json");
    assert!(vanilla_meta_url(&entries, "9.9").is_err());
    let v = vanilla_latest("1.21.4", s("https://jar"), s("abc"), Some(21));
    assert_eq!(v.name, "Vanilla 1.21.4");
    assert_eq!(v.sha1.as_deref(), Some("abc"));
}

#[test]
fn log_buffer_keeps_the_newest_lines() {
    let mut l = LogManager::new(3);
    assert!(l.is_empty());
    for i in 0..5 {
        l.push(format!("line {i}"));
    }
    assert_eq!(l.len(), 3);
    assert_eq!(l.all(), vec!["line 2", "line 3", "line 4"]);
    assert_eq!(l.tail(2), vec!["line 3", "line 4"]);
    assert_eq!(l.tail(10).len(), 3);
    l.set_max_lines(1);
    assert_eq!(l.all(), vec!["line 4"]);
    let mut zero = LogManager::new(0);
    zero.push(s("a"));
    assert_eq!(zero.push(s("b")), "b");
    assert!(zero.all().is_empty());
    assert!(zero.is_empty());
    l.clear();
    assert_eq!(l.len(), 0);
    assert_eq!(LogManager::default().len(), 0);
    let mut live = LogManager::new(2);
    assert_eq!(live.push(s("to stream")), "to stream");
}

#[test]
fn worlds_and_backups() {
    assert!(is_world_dir(false, true));
    assert!(!is_world_dir(false, false));
    assert!(has_extension("x.zip", "zip"));
    assert!(!has_extension(".zip", "zip"));
    assert!(has_extension("a.b.mrpack", "mrpack"));
    assert!(!has_extension("zip", "zip"));
    let mut h: Vec<HistoryEntry> = Vec::new();
    for i in 0..502 {
        h = record_command(h, HistoryEntry { command: format!("say {i}"), sent_at: s("t") });
    }
    assert_eq!(h.len(), 500);
    assert_eq!(h[0].command, "say 2");
    assert_eq!(h[499].command, "say 501");
    match delete_world_check("w", false, false) {
        Err(Error::Other(m)) => assert_eq!(m, "World 'w' not found"),
        _ => panic!("expected not found"),
    }
    match delete_world_check("w", true, false) {
        Err(Error::Other(m)) => assert_eq!(m, "'w' not a valid world"),
        _ => panic!("expected invalid world"),
    }
    assert!(delete_world_check("w", true, true).is_ok());
    assert_eq!(world_top_name(Some("myworld/level.dat")), "myworld");
    assert_eq!(world_top_name(Some("/x")), "world");
    assert_eq!(world_top_name(None), "world");
    let b = |f: &str, t: &str| BackupEntry { filename: s(f), path: s(f), size_bytes: 0, size_human: s("0 B"), created_at: s(t), worlds_included: vec![] };
    let sorted = sort_newest_first(vec![b("a", "2024-01-01"), b("b", "2024-03-01"), b("c", "2024-01-01"), b("d", "2024-02-01")]);
    let names: Vec<&str> = sorted.iter().map(|e| e.filename.as_str()).collect();
    assert_eq!(names, vec!["b", "d", "a", "c"]);
    assert_eq!(backup_selection(None, &None, &vec![s("world"), s("world_nether")]).unwrap(), vec!["world", "world_nether"]);
    assert!(backup_selection(Some(true), &None, &vec![]).is_err());
    assert_eq!(backup_selection(Some(false), &Some(s("w1")), &vec![]).unwrap(), vec!["w1"]);
    assert!(backup_selection(Some(false), &Some(s("../w")), &vec![]).is_err());
    assert!(backup_selection(Some(false), &None, &vec![]).is_err());
    assert_eq!(backup_file_name("srv", 1_431_648_000).as_deref(), Some("srv-worlds-20150515T000000Z.zip"));
    assert!(backup_file_name("srv", i64::MAX).is_none());
}

#[test]
fn command_line_helpers() {
    assert_eq!(daemon_args(true, &Some(s("2G")), &None), vec!["serve", "--tmpfs", "--tmpfs-size", "2G"]);
    assert_eq!(daemon_args(false, &None, &Some(s("/mnt"))), vec!["serve", "--tmpfs-path", "/mnt"]);
    let (rest, found) = remove_ip(&vec![s("1.1.1.1"), s("2.2.2.2"), s("1.1.1.1")], "1.1.1.1");
    assert!(found);
    assert_eq!(rest, vec!["2.2.2.2"]);
    let (_, found) = remove_ip(&vec![s("2.2.2.2")], "1.1.1.1");
    assert!(!found);
    assert_eq!(entry_status(3600), "active (11h left)");
    assert_eq!(entry_status(43200), "expired");
    assert_eq!(entry_status_at("2015-05-15 00:00:00", 1_431_648_000 + 7_200), "active (10h left)");
    assert_eq!(entry_status_at("2015-05-15 00:00:00", 1_431_648_000 - 60), "active (12h left)");
    assert_eq!(entry_status_at("2015-05-15 00:00:00", 1_431_648_000 - 7_200), "active (14h left)");
    assert_eq!(entry_status(-3_600), "active (13h left)");
    assert_eq!(entry_status_at("2015-05-01 00:00:00", 1_431_648_000), "expired");
    assert_eq!(entry_status_at("yesterday", 1_431_648_000), "unknown");
}
