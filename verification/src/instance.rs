//! Launch configuration of a Minecraft server process and the command line
//! it is started with.
use vstd::prelude::*;
use crate::errors::concat;
use crate::text::str_eq;

verus! {

/// Describes a Minecraft server to launch.
#[derive(Debug)]
pub struct ServerConfig {
    /// Path to the server JAR file (e.g. `paper-1.21.jar`).
    pub jar_path: String,
    /// Path to the Java executable.
    pub java_path: String,
    /// Initial heap size (e.g. `"512M"`, `"1G"`).
    pub min_memory: String,
    /// Maximum heap size (e.g. `"2G"`, `"4G"`).
    pub max_memory: String,
    /// Working directory of the server.
    pub server_dir: String,
    /// Additional JVM flags.
    pub jvm_args: Vec<String>,
}

impl ServerConfig {
    /// A configuration with no extra JVM flags.
    pub fn new(jar_path: &str, java_path: &str, min_memory: &str, max_memory: &str, server_dir: &str) -> (r: Self)
        ensures
            r.jar_path@ == jar_path@,
            r.java_path@ == java_path@,
            r.min_memory@ == min_memory@,
            r.max_memory@ == max_memory@,
            r.server_dir@ == server_dir@,
            r.jvm_args@.len() == 0,
    {
        ServerConfig {
            jar_path: String::from_str(jar_path),
            java_path: String::from_str(java_path),
            min_memory: String::from_str(min_memory),
            max_memory: String::from_str(max_memory),
            server_dir: String::from_str(server_dir),
            jvm_args: Vec::new(),
        }
    }

    /// The same configuration with `args` as its extra JVM flags.
    pub fn with_jvm_args(self, args: Vec<String>) -> (r: Self)
        ensures
            r.jar_path == self.jar_path,
            r.java_path == self.java_path,
            r.min_memory == self.min_memory,
            r.max_memory == self.max_memory,
            r.server_dir == self.server_dir,
            r.jvm_args@ == args@,
    {
        let mut s = self;
        s.jvm_args = args;
        s
    }
}

/// The arguments handed to `java`: heap sizes, extra flags, the JAR, `nogui`.
pub open spec fn launch_args_of(c: ServerConfig) -> Seq<Seq<char>> {
    seq!["-Xms"@ + c.min_memory@, "-Xmx"@ + c.max_memory@] + c.jvm_args@.map_values(
        |a: String| a@,
    ) + seq!["-jar"@, c.jar_path@, "nogui"@]
}

impl ServerConfig {
    /// The command line of the Java process, after the executable.
    pub fn launch_args(&self) -> (r: Vec<String>)
        ensures
            r@.map_values(|a: String| a@) == launch_args_of(*self),
    {
        let mut r: Vec<String> = Vec::new();
        r.push(concat("-Xms", self.min_memory.as_str()));
        r.push(concat("-Xmx", self.max_memory.as_str()));
        let mut i: usize = 0;
        while i < self.jvm_args.len()
            invariant
                i <= self.jvm_args@.len(),
                r@.map_values(|a: String| a@) == seq!["-Xms"@ + self.min_memory@, "-Xmx"@
                    + self.max_memory@] + self.jvm_args@.take(i as int).map_values(|a: String| a@),
            decreases self.jvm_args@.len() - i,
        {
            let ghost before = r@;
            r.push(self.jvm_args[i].clone());
            assert(self.jvm_args@.take(i + 1) =~= self.jvm_args@.take(i as int).push(self.jvm_args@[i as int]));
            assert(r@ =~= before.push(self.jvm_args@[i as int]));
            assert(r@.map_values(|a: String| a@) =~= before.map_values(|a: String| a@).push(self.jvm_args@[i as int]@));
            assert(self.jvm_args@.take(i + 1).map_values(|a: String| a@) =~= self.jvm_args@.take(i as int).map_values(|a: String| a@).push(self.jvm_args@[i as int]@));
            i = i + 1;
        }
        assert(self.jvm_args@.take(self.jvm_args@.len() as int) =~= self.jvm_args@);
        let ghost mid = r@;
        r.push(String::from_str("-jar"));
        r.push(self.jar_path.clone());
        r.push(String::from_str("nogui"));
        assert(r@ =~= mid.push(r@[mid.len() as int]).push(r@[mid.len() + 1int]).push(r@[mid.len() + 2int]));
        assert(r@.map_values(|a: String| a@) =~= launch_args_of(*self));
        r
    }
}

// ---------------------------------------------------------------------------
// Installer-based providers
// ---------------------------------------------------------------------------

/// Providers whose server is produced by running an installer JAR.
pub open spec fn uses_installer(provider_lower: Seq<char>) -> bool {
    provider_lower == "fabric"@ || provider_lower == "forge"@ || provider_lower == "neoforge"@
}

/// Whether the (lower-cased) provider needs an installer run.
pub fn is_installer_provider(provider_lower: &str) -> (b: bool)
    ensures
        b == uses_installer(provider_lower@),
{
    str_eq(provider_lower, "fabric") || str_eq(provider_lower, "forge") || str_eq(provider_lower, "neoforge")
}

/// Arguments after `-jar <installer>`: Fabric installs the server for the
/// given Minecraft version; NeoForge's installer takes `--install-server`,
/// Forge's `--installServer`.
pub open spec fn installer_args_of(provider_lower: Seq<char>, version: Seq<char>) -> Seq<Seq<char>> {
    if provider_lower == "fabric"@ {
        seq!["server"@, "-dir"@, "."@, "-mcversion"@, version, "-downloadMinecraft"@]
    } else if provider_lower == "neoforge"@ {
        seq!["--install-server"@]
    } else {
        seq!["--installServer"@]
    }
}

/// The installer's command-line arguments.
pub fn installer_args(provider_lower: &str, version: &str) -> (r: Vec<String>)
    ensures
        r@.map_values(|a: String| a@) == installer_args_of(provider_lower@, version@),
{
    let mut r: Vec<String> = Vec::new();
    if str_eq(provider_lower, "fabric") {
        r.push(String::from_str("server"));
        r.push(String::from_str("-dir"));
        r.push(String::from_str("."));
        r.push(String::from_str("-mcversion"));
        r.push(String::from_str(version));
        r.push(String::from_str("-downloadMinecraft"));
    } else if str_eq(provider_lower, "neoforge") {
        r.push(String::from_str("--install-server"));
    } else {
        r.push(String::from_str("--installServer"));
    }
    assert(r@.map_values(|a: String| a@) =~= installer_args_of(provider_lower@, version@));
    r
}

/// A file name that an installer leaves as the server JAR.
pub open spec fn is_server_jar_name(n: Seq<char>) -> bool {
    crate::text::ends_with(n, "-server.jar"@) || crate::text::ends_with(n, "-universal.jar"@)
}

/// The JAR file to launch after an installer ran, given the names in the
/// server directory in listing order: Fabric's launcher, else the first
/// `*-server.jar` or `*-universal.jar`, else `server.jar`.
pub fn installed_jar_name(provider_lower: &str, dir_names: &Vec<String>) -> (r: String)
    ensures
        provider_lower@ == "fabric"@ ==> r@ == "fabric-server-launch.jar"@,
        provider_lower@ != "fabric"@ ==> (exists|i: int|
            0 <= i < dir_names@.len() && r@ == (#[trigger] dir_names@[i])@ && is_server_jar_name(
                r@,
            ) && forall|j: int| 0 <= j < i ==> !is_server_jar_name((#[trigger] dir_names@[j])@))
            || (r@ == "server.jar"@ && forall|j: int|
            0 <= j < dir_names@.len() ==> !is_server_jar_name((#[trigger] dir_names@[j])@)),
{
    if str_eq(provider_lower, "fabric") {
        return String::from_str("fabric-server-launch.jar");
    }
    let s1 = crate::text::chars_of("-server.jar");
    let s2 = crate::text::chars_of("-universal.jar");
    let mut i: usize = 0;
    while i < dir_names.len()
        invariant
            i <= dir_names@.len(),
            provider_lower@ != "fabric"@,
            s1@ == "-server.jar"@,
            s2@ == "-universal.jar"@,
            forall|j: int| 0 <= j < i ==> !is_server_jar_name((#[trigger] dir_names@[j])@),
        decreases dir_names@.len() - i,
    {
        let n = crate::text::chars_of(dir_names[i].as_str());
        if crate::text::ends_with_chars(&n, &s1) || crate::text::ends_with_chars(&n, &s2) {
            return dir_names[i].clone();
        }
        i = i + 1;
    }
    String::from_str("server.jar")
}

/// Snapshot of a server's current status.
#[derive(Debug)]
pub struct ServerStatus {
    pub id: String,
    pub name: String,
    pub running: bool,
    pub online_players: Vec<String>,
    pub player_count: usize,
    pub log_lines: usize,
    pub properties_count: usize,
}

/// The status of a server from its parts; the player count is the number
/// of online players listed.
pub fn server_status(id: &str, name: &str, running: bool, players: Vec<String>, log_lines: usize, properties_count: usize) -> (r: ServerStatus)
    ensures
        r.id@ == id@,
        r.name@ == name@,
        r.running == running,
        r.online_players@ == players@,
        r.player_count == players@.len(),
        r.log_lines == log_lines,
        r.properties_count == properties_count,
{
    let n = players.len();
    ServerStatus {
        id: String::from_str(id),
        name: String::from_str(name),
        running,
        online_players: players,
        player_count: n,
        log_lines,
        properties_count,
    }
}

/// A server that is running is not started again.
pub fn start_check(running: bool) -> (r: Result<(), crate::errors::Error>)
    ensures
        running ==> (r matches Err(crate::errors::Error::Other(m)) && m@ == "Already running"@),
        !running ==> r is Ok,
{
    if running {
        Err(crate::errors::Error::Other(String::from_str("Already running")))
    } else {
        Ok(())
    }
}

/// A server whose process is gone right after the launch failed to start;
/// a provider's installer that did not succeed fails the start too.
pub fn launch_outcome(provider: &str, installer_ok: bool, alive_after_launch: bool) -> (r: Result<(), crate::errors::Error>)
    ensures
        !installer_ok ==> (r matches Err(crate::errors::Error::Other(m)) && m@ == provider@ + " installer failed"@),
        installer_ok && !alive_after_launch ==> (r matches Err(crate::errors::Error::Other(m)) && m@ == "Server exited immediately"@),
        installer_ok && alive_after_launch ==> r is Ok,
{
    if !installer_ok {
        return Err(crate::errors::Error::Other(concat(provider, " installer failed")));
    }
    if !alive_after_launch {
        return Err(crate::errors::Error::Other(String::from_str("Server exited immediately")));
    }
    Ok(())
}

/// Commands go only to a running server process.
pub fn command_target_check(has_process: bool) -> (r: Result<(), crate::errors::Error>)
    ensures
        !has_process ==> (r matches Err(crate::errors::Error::Other(m)) && m@ == "Not running"@),
        has_process ==> r is Ok,
{
    if has_process {
        Ok(())
    } else {
        Err(crate::errors::Error::Other(String::from_str("Not running")))
    }
}

} // verus!
