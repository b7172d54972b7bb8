use easymc::errors::{AppError, Error};
use easymc::instance::{installed_jar_name, installer_args, is_installer_provider, ServerConfig};
use easymc::ip_ban::IpBanManager;
use easymc::properties::ServerProperties;
use easymc::registry::{place_instance, quoted_id_message, InstanceConfig, InstanceTable};
use easymc::settings::{default_java_path, default_servers_dir, default_settings_path, update_settings, validate_settings, AppSettings};
use easymc::tmpfs::{data_setup_step, remap_instance_dir, replace_first_str, servers_setup_step, sync_back_step, SetupStep};
use easymc::validate::{sanitize_id, sanitize_sse, validate_id, validate_instance_paths, validate_world_name};

fn config(id: &str) -> InstanceConfig {
    InstanceConfig {
        id: id.to_string(),
        name: format!("Server {id}"),
        provider: "paper".to_string(),
        version: "1.21.4".to_string(),
        java_path: String::new(),
        min_memory: "1G".to_string(),
        max_memory: "4G".to_string(),
        jvm_args: vec!["-XX:+UseG1GC".to_string()],
        server_dir: String::new(),
        jar_path: String::new(),
    }
}

fn internal(r: Result<(), AppError>) -> String {
    match r {
        Err(AppError::Internal(m)) => m,
        _ => panic!("expected an internal error"),
    }
}

fn invalid_path(r: Result<(), AppError>) -> String {
    match r {
        Err(AppError::InvalidPath(m)) => m,
        _ => panic!("expected an invalid path"),
    }
}

#[test]
fn server_config_launch_line() {
    let c = ServerConfig::new("/srv/mc/paper.jar", "/usr/bin/java", "1G", "4G", "/srv/mc");
    assert!(c.jvm_args.is_empty());
    let c = c.with_jvm_args(vec!["-Dx=1".to_string(), "-Dy=2".to_string()]);
    assert_eq!(c.server_dir, "/srv/mc");
    assert_eq!(
        c.launch_args(),
        vec!["-Xms1G", "-Xmx4G", "-Dx=1", "-Dy=2", "-jar", "/srv/mc/paper.jar", "nogui"]
    );
}

#[test]
fn installers() {
    assert!(is_installer_provider("fabric"));
    assert!(is_installer_provider("neoforge"));
    assert!(!is_installer_provider("paper"));
    assert_eq!(
        installer_args("fabric", "1.21.4"),
        vec!["server", "-dir", ".", "-mcversion", "1.21.4", "-downloadMinecraft"]
    );
    assert_eq!(installer_args("forge", "1.20.1"), vec!["--installServer"]);
    assert_eq!(installer_args("neoforge", "1.21.1"), vec!["--install-server"]);
    let names = vec!["libraries".to_string(), "forge-1.20.1-47.1.0-server.jar".to_string(), "x-universal.jar".to_string()];
    assert_eq!(installed_jar_name("forge", &names), "forge-1.20.1-47.1.0-server.jar");
    assert_eq!(installed_jar_name("fabric", &names), "fabric-server-launch.jar");
    assert_eq!(installed_jar_name("neoforge", &vec!["run.sh".to_string()]), "server.jar");
}

#[test]
fn registry_create_update_remove() {
    let mut t = InstanceTable::new();
    assert!(t.create(config("alpha")).is_ok());
    match t.create(config("alpha")) {
        Err(Error::Other(m)) => assert_eq!(m, "'alpha' exists"),
        _ => panic!("expected a duplicate error"),
    }
    assert_eq!(t.len(), 1);
    assert!(t.contains(&"alpha".to_string()));
    let mut moved = config("beta");
    moved.name = "Renamed".to_string();
    assert!(t.update_config(&"alpha".to_string(), moved).is_ok());
    assert!(!t.contains(&"alpha".to_string()));
    assert_eq!(t.get(&"beta".to_string()).unwrap().name, "Renamed");
    match t.update_config(&"gamma".to_string(), config("gamma")) {
        Err(Error::Other(m)) => assert_eq!(m, "'gamma' not found"),
        _ => panic!("expected not found"),
    }
    match t.removal_check(&"beta".to_string(), true) {
        Err(Error::Other(m)) => assert_eq!(m, "Stop first"),
        _ => panic!("expected a running error"),
    }
    match t.removal_check(&"../x".to_string(), false) {
        Err(Error::Other(m)) => assert_eq!(m, "Invalid instance ID"),
        _ => panic!("expected an invalid id"),
    }
    let c = t.removal_check(&"beta".to_string(), false).unwrap();
    assert_eq!(c.name, "Renamed");
    t.forget(&"beta".to_string());
    assert_eq!(t.len(), 0);
    t.restore(&"beta".to_string(), c);
    assert_eq!(t.configs().len(), 1);
}

#[test]
fn instance_placement() {
    let c = place_instance(config("alpha"), "alpha", "./servers//", "/usr/bin/java");
    assert_eq!(c.server_dir, "./servers/alpha");
    assert_eq!(c.jar_path, "./servers/alpha/server.jar");
    assert_eq!(c.java_path, "/usr/bin/java");
    let mut with_java = config("b");
    with_java.java_path = "/opt/java".to_string();
    let c = place_instance(with_java, "b", "srv", "/usr/bin/java");
    assert_eq!(c.java_path, "/opt/java");
    assert_eq!(c.server_dir, "srv/b");
    let sc = c.server_config();
    assert_eq!(sc.jar_path, "srv/b/server.jar");
    assert_eq!(sc.jvm_args, vec!["-XX:+UseG1GC"]);
    assert_eq!(quoted_id_message("x", "' gone"), "'x' gone");
}

#[test]
fn ids_and_world_names() {
    assert!(validate_id("my-server_1").is_ok());
    assert_eq!(internal(validate_id("")), "ID cannot be empty");
    assert_eq!(internal(validate_id("a/b")), "ID cannot contain path separators, '..', or '~'");
    assert_eq!(internal(validate_id("a..b")), "ID cannot contain path separators, '..', or '~'");
    assert_eq!(internal(validate_id("a b")), "ID can only contain letters, numbers, hyphens, underscores");
    assert!(validate_world_name("world_nether").is_ok());
    assert_eq!(internal(validate_world_name("")), "World name empty");
    assert_eq!(internal(validate_world_name("~w")), "Invalid world name");
    assert_eq!(internal(validate_world_name("w.1")), "Only letters, numbers, -, _ allowed");
    assert!(sanitize_id("ok").is_ok());
    assert!(sanitize_id("a\\b").is_err());
}

#[test]
fn instance_paths() {
    let mut c = config("a");
    c.jar_path = "/srv/a/server.jar".to_string();
    c.java_path = "/usr/lib/jvm/bin/java".to_string();
    assert!(validate_instance_paths(&c).is_ok());
    c.jar_path = "  ".to_string();
    assert_eq!(invalid_path(validate_instance_paths(&c)), "jar_path must not be empty");
    c.jar_path = "/srv/../x.jar".to_string();
    assert_eq!(invalid_path(validate_instance_paths(&c)), "jar_path contains '..'");
    c.jar_path = "~/x.jar".to_string();
    assert_eq!(invalid_path(validate_instance_paths(&c)), "jar_path contains '~'");
    c.jar_path = "HTTP://x/y.jar".to_string();
    assert_eq!(invalid_path(validate_instance_paths(&c)), "jar_path must be a local path");
    c.jar_path = "/srv/a/server.zip".to_string();
    assert_eq!(invalid_path(validate_instance_paths(&c)), "jar_path must end with .jar");
    c.jar_path = "/srv/a/SERVER.JAR".to_string();
    c.java_path = "/usr/bin/python".to_string();
    assert_eq!(invalid_path(validate_instance_paths(&c)), "java_path must point to a Java executable");
    c.java_path = "/usr/bin/java/".to_string();
    assert!(validate_instance_paths(&c).is_ok());
    let m = AppError::InvalidPath("jar_path contains '~'".to_string()).message();
    assert_eq!(m, "Invalid path: jar_path contains '~'");
}

#[test]
fn sse_lines_are_single_line() {
    assert_eq!(sanitize_sse("a\nb\r\tc\u{7}é"), "a\\nb\\r\tc");
}

#[test]
fn error_responses() {
    let e = AppError::Internal("db down".to_string());
    assert_eq!(e.status_code(), 500);
    assert_eq!(e.response_parts(), (500, "Internal error".to_string()));
    assert_eq!(AppError::IpBanned.response_parts(), (403, "IP is banned".to_string()));
    assert_eq!(AppError::MissingAuthHeader.status_code(), 401);
    assert_eq!(AppError::UsernameAlreadyExists.status_code(), 409);
    assert_eq!(AppError::ReplayDetected.status_code(), 429);
    assert_eq!(AppError::Validation("bad".to_string()).status_code(), 400);
    assert_eq!(AppError::ApiKeyExpired.message(), "API key has expired");
    assert!(matches!(Error::other("x".to_string()), Error::Other(m) if m == "x"));
}

#[test]
fn settings_rules() {
    assert_eq!(default_servers_dir(), "./servers");
    assert_eq!(default_settings_path(), "./data/settings.json");
    let j = default_java_path();
    assert!(j == "/usr/bin/java" || j == "java");
    let mut s = AppSettings::default();
    assert_eq!(s.fail2ban_max_attempts, 5);
    assert!(s.fail2ban_enabled);
    assert_eq!(s.auto_stop_timeout_minutes, 30);
    assert!(!s.ip_whitelist_enabled);
    assert!(validate_settings(&s).is_ok());
    s.servers_dir = "/abs".to_string();
    assert_eq!(internal(validate_settings(&s)), "servers_dir must be a relative path without '..' or '~'");
    s.servers_dir = "servers".to_string();
    s.java_path = "/usr/bin/python".to_string();
    assert_eq!(internal(validate_settings(&s)), "java_path must point to a Java executable");
    let mut current = AppSettings::default();
    let mut bans = IpBanManager::new(5);
    let mut n = AppSettings::default();
    n.fail2ban_max_attempts = 9;
    let r = update_settings(&mut current, &mut bans, n);
    assert_eq!(r.fail2ban_max_attempts, 9);
    assert_eq!(current.fail2ban_max_attempts, 9);
    assert_eq!(bans.status().max_attempts, 9);
    let mut off = IpBanManager::new(1);
    assert!(!off.record_failure_when(false, "9.9.9.9"));
    assert!(!off.is_banned("9.9.9.9"));
    assert!(off.record_failure_when(true, "9.9.9.9"));
    assert!(off.is_banned("9.9.9.9"));
}

#[test]
fn properties_roundtrip() {
    let text = "# comment\nmotd = Hello World \nmax-players=20\nbroken line\n=novalue\ndifficulty=easy=hard\n";
    let mut p = ServerProperties::parse("/srv/server.properties".to_string(), text);
    assert_eq!(p.get("motd"), Some("Hello World"));
    assert_eq!(p.get("max-players"), Some("20"));
    assert_eq!(p.get("difficulty"), Some("easy=hard"));
    assert_eq!(p.get(""), Some("novalue"));
    assert_eq!(p.get("broken line"), None);
    assert!(p.contains_key("motd"));
    assert_eq!(p.len(), 4);
    assert!(!p.is_empty());
    assert_eq!(p.path(), "/srv/server.properties");
    p.set("pvp".to_string(), "false".to_string());
    assert_eq!(p.remove(""), Some("novalue".to_string()));
    assert_eq!(p.remove("nothing"), None);
    let keys: Vec<&str> = p.all().iter().map(|(k, _)| k.as_str()).collect();
    assert_eq!(keys, vec!["difficulty", "max-players", "motd", "pvp"]);
    let out = p.to_contents();
    assert_eq!(out, "# comment\ndifficulty=easy=hard\nmax-players=20\nmotd=Hello World\npvp=false\n");
    let only = ServerProperties::parse("p".to_string(), "#Minecraft server properties\n  #Mon Jan 01\n");
    assert_eq!(only.to_contents(), "#Minecraft server properties\n  #Mon Jan 01\n");
    let again = ServerProperties::parse("/srv/server.properties".to_string(), &out);
    assert_eq!(again.len(), 4);
    assert_eq!(again.all(), p.all());
    let n = again.len();
    let mut q = ServerProperties::parse("q".to_string(), &out);
    q.set("motd".to_string(), "Hi".to_string());
    assert_eq!(q.len(), n);
    q.set("new-key".to_string(), "1".to_string());
    assert_eq!(q.len(), n + 1);
    assert_eq!(q.get("motd"), Some("Hi"));
    assert_eq!(q.get("pvp"), Some("false"));
    assert_eq!(again.get("motd"), Some("Hello World"));
    let mut e = ServerProperties::empty("x".to_string());
    assert!(e.is_empty());
    e.reload_from("a=1\n");
    assert_eq!(e.get("a"), Some("1"));
}

#[test]
fn ram_disk_plans() {
    assert!(matches!(data_setup_step(true, false), SetupStep::Copy));
    assert!(matches!(data_setup_step(false, false), SetupStep::Create));
    assert!(matches!(data_setup_step(true, true), SetupStep::Keep));
    assert!(matches!(servers_setup_step(false, false), SetupStep::Keep));
    assert!(matches!(servers_setup_step(true, false), SetupStep::Copy));
    assert!(sync_back_step(true));
    assert_eq!(replace_first_str("sqlite://./data/db.sqlite?data", "data", "ram"), "sqlite://./ram/db.sqlite?data");
    assert_eq!(replace_first_str("abc", "x", "y"), "abc");
    let (d, j) = remap_instance_dir("./servers/alpha", "./servers", "/tmp/easymc/servers").unwrap();
    assert_eq!(d, "/tmp/easymc/servers/alpha");
    assert_eq!(j, "/tmp/easymc/servers/alpha/server.jar");
    assert!(remap_instance_dir("/elsewhere/alpha", "./servers", "/tmp").is_none());
}

#[test]
fn registry_configs_in_id_order() {
    let mut t = InstanceTable::new();
    assert!(t.create(config("zeta")).is_ok());
    assert!(t.create(config("alpha")).is_ok());
    assert!(t.create(config("mid")).is_ok());
    let ids: Vec<String> = t.configs().into_iter().map(|c| c.id).collect();
    assert_eq!(ids, vec!["alpha", "mid", "zeta"]);
}

#[test]
fn registry_archive_then_restore() {
    let mut t = InstanceTable::new();
    assert!(t.create(config("alpha")).is_ok());
    assert!(t.create(config("beta")).is_ok());
    let c = t.removal_check(&"alpha".to_string(), false).unwrap();
    t.forget(&"alpha".to_string());
    assert!(!t.contains(&"alpha".to_string()));
    t.restore(&"alpha".to_string(), c);
    let ids: Vec<String> = t.configs().into_iter().map(|c| c.id).collect();
    assert_eq!(ids, vec!["alpha", "beta"]);
    assert_eq!(t.get(&"alpha".to_string()).unwrap().name, "Server alpha");
}
