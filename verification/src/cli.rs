//! The command line: its options, subcommands, and the arguments a
//! daemonised server is restarted with.
use vstd::prelude::*;

verus! {

/// Options of the backend's command line.
#[derive(Debug)]
pub struct Cli {
    /// Log filter used when `RUST_LOG` is not set.
    pub log_level: String,
    pub command: Commands,
}

/// The subcommands.
#[derive(Debug)]
pub enum Commands {
    /// Start the HTTP API server.
    Serve { daemon: bool, tmpfs: bool, tmpfs_size: Option<String>, tmpfs_path: Option<String> },
    /// Create a sudo user directly in the database.
    CreateSudo { username: String },
    /// List all users.
    ListUsers,
    /// View fail2ban status.
    BanStatus,
    /// Remove an IP from the blacklist.
    Unban { ip: String },
    /// Reset database, settings, and blacklist.
    ResetDb,
    /// Install a systemd service.
    InstallService { output: Option<String> },
    /// List IP whitelist entries.
    WhitelistList,
    /// Clear IP whitelist for a user.
    WhitelistClear { user: String },
}

/// The arguments the server is restarted with in the background:
/// `serve`, then the RAM-disk options that were given.
pub open spec fn daemon_args_of(tmpfs: bool, size: Option<Seq<char>>, path: Option<Seq<char>>) -> Seq<Seq<char>> {
    seq!["serve"@] + (if tmpfs {
        seq!["--tmpfs"@]
    } else {
        Seq::empty()
    }) + match size {
        Some(s) => seq!["--tmpfs-size"@, s],
        None => Seq::empty(),
    } + match path {
        Some(p) => seq!["--tmpfs-path"@, p],
        None => Seq::empty(),
    }
}

/// Arguments for the background server process.
pub fn daemon_args(tmpfs: bool, tmpfs_size: &Option<String>, tmpfs_path: &Option<String>) -> (r: Vec<String>)
    ensures
        crate::text::views(r@) == daemon_args_of(
            tmpfs,
            match tmpfs_size {
                Some(s) => Some(s@),
                None => None,
            },
            match tmpfs_path {
                Some(p) => Some(p@),
                None => None,
            },
        ),
{
    let mut r: Vec<String> = Vec::new();
    r.push(String::from_str("serve"));
    if tmpfs {
        r.push(String::from_str("--tmpfs"));
    }
    match tmpfs_size {
        Some(s) => {
            r.push(String::from_str("--tmpfs-size"));
            r.push(s.clone());
        },
        None => {},
    }
    match tmpfs_path {
        Some(p) => {
            r.push(String::from_str("--tmpfs-path"));
            r.push(p.clone());
        },
        None => {},
    }
    assert(crate::text::views(r@) =~= daemon_args_of(
        tmpfs,
        match tmpfs_size {
            Some(s) => Some(s@),
            None => None,
        },
        match tmpfs_path {
            Some(p) => Some(p@),
            None => None,
        },
    ));
    r
}

/// Removes every occurrence of `ip` from a blacklist and tells whether it
/// was there.
pub fn remove_ip(ips: &Vec<String>, ip: &str) -> (r: (Vec<String>, bool))
    ensures
        r.1 == crate::text::views(ips@).contains(ip@),
        crate::text::views(r.0@) == crate::text::views(ips@).filter(|x: Seq<char>| x != ip@),
{
    let mut out: Vec<String> = Vec::new();
    let mut found = false;
    let mut i: usize = 0;
    while i < ips.len()
        invariant
            i <= ips@.len(),
            found == crate::text::views(ips@).take(i as int).contains(ip@),
            crate::text::views(out@) == crate::text::views(ips@).take(i as int).filter(|x: Seq<char>| x != ip@),
        decreases ips@.len() - i,
    {
        let ghost vs = crate::text::views(ips@);
        assert(vs.take(i + 1) =~= vs.take(i as int).push(vs[i as int]));
        proof {
            vs.take(i as int).lemma_filter_push(vs[i as int], |x: Seq<char>| x != ip@);
        }
        proof {
            lemma_contains_push(vs.take(i as int), vs[i as int], ip@);
        }
        if crate::text::str_eq(ips[i].as_str(), ip) {
            found = true;
        } else {
            let ghost before = crate::text::views(out@);
            out.push(ips[i].clone());
            assert(crate::text::views(out@) =~= before.push(vs[i as int]));
        }
        i = i + 1;
    }
    assert(crate::text::views(ips@).take(ips@.len() as int) =~= crate::text::views(ips@));
    (out, found)
}

proof fn lemma_contains_push(s: Seq<Seq<char>>, e: Seq<char>, x: Seq<char>)
    ensures
        s.push(e).contains(x) == (s.contains(x) || e == x),
{
    if s.push(e).contains(x) {
        let k = choose|k: int| 0 <= k < s.push(e).len() && #[trigger] s.push(e)[k] == x;
        if k < s.len() {
            assert(s[k] == x);
        }
    }
    if s.contains(x) {
        let k = choose|k: int| 0 <= k < s.len() && #[trigger] s[k] == x;
        assert(s.push(e)[k] == x);
    }
    if e == x {
        assert(s.push(e)[s.len() as int] == x);
    }
}

/// A whitelist entry's state `age` seconds after its last use: active with
/// the whole hours left, or expired after twelve hours.
pub open spec fn entry_status_of(age: int) -> Seq<char> {
    if age < 43200 {
        "active ("@ + crate::installer::decimal(((43200 - age) / 3600) as nat) + "h left)"@
    } else {
        "expired"@
    }
}

/// The status column of the whitelist listing; a negative age (an entry
/// dated in the future) leaves more than twelve hours.
pub fn entry_status(age_secs: i64) -> (r: String)
    ensures
        r@ == entry_status_of(age_secs as int),
{
    status_for_age(age_secs as i128)
}

fn status_for_age(age: i128) -> (r: String)
    requires
        i64::MIN as i128 - i64::MAX as i128 <= age <= i64::MAX as i128 - i64::MIN as i128,
    ensures
        r@ == entry_status_of(age as int),
{
    if age < 43200 {
        let hours = ((43200 - age) / 3600) as u64;
        let mut s = String::from_str("active (");
        s.append(crate::installer::dec_string(hours).as_str());
        s.append("h left)");
        s
    } else {
        String::from_str("expired")
    }
}

/// The status column for an entry last used at the database time
/// `updated_at`, listed at `now_secs`: `unknown` when that text is not a
/// time.
pub open spec fn entry_status_at_of(updated_at: Seq<char>, now_secs: int) -> Seq<char> {
    match crate::auth::naive_datetime_secs(updated_at) {
        Some(t) => entry_status_of(now_secs - t),
        None => "unknown"@,
    }
}

/// The status column of the whitelist listing, from the stored time.
pub fn entry_status_at(updated_at: &str, now_secs: i64) -> (r: String)
    ensures
        r@ == entry_status_at_of(updated_at@, now_secs as int),
{
    match crate::auth::parse_utc_text(updated_at) {
        Some(t) => status_for_age(now_secs as i128 - t as i128),
        None => String::from_str("unknown"),
    }
}

/// The systemd unit that runs the backend from `cwd` with the executable
/// `exe`, logging to `server.log` there.
pub open spec fn unit_text(exe: Seq<char>, cwd: Seq<char>) -> Seq<char> {
    "[Unit]\nDescription=Minecraft Server Backend API\nAfter=network.target\n\n[Service]\nType=simple\nExecStart="@
        + exe + " serve\nWorkingDirectory="@ + cwd
        + "\nRestart=on-failure\nRestartSec=5\nEnvironment=RUST_LOG=info\nStandardOutput=append:"@ + cwd
        + "/server.log\nStandardError=append:"@ + cwd + "/server.log\n\n[Install]\nWantedBy=multi-user.target\n"@
}

/// Writes the systemd unit text.
pub fn systemd_unit(exe: &str, cwd: &str) -> (r: String)
    ensures
        r@ == unit_text(exe@, cwd@),
{
    let mut u = String::from_str(
        "[Unit]\nDescription=Minecraft Server Backend API\nAfter=network.target\n\n[Service]\nType=simple\nExecStart=",
    );
    u.append(exe);
    u.append(" serve\nWorkingDirectory=");
    u.append(cwd);
    u.append("\nRestart=on-failure\nRestartSec=5\nEnvironment=RUST_LOG=info\nStandardOutput=append:");
    u.append(cwd);
    u.append("/server.log\nStandardError=append:");
    u.append(cwd);
    u.append("/server.log\n\n[Install]\nWantedBy=multi-user.target\n");
    u
}

/// Whether a unit path is a per-user service (under `systemd/user/`).
pub fn is_user_service(output: &str) -> (b: bool)
    ensures
        b == crate::text::contains_seq(output@, "systemd/user/"@),
{
    crate::text::contains_chars(&crate::text::chars_of(output), &crate::text::chars_of("systemd/user/"))
}

/// The file behind a `sqlite:` database URL: what follows the scheme, up
/// to a `?`.
pub open spec fn sqlite_path_of(url: Seq<char>) -> Option<Seq<char>> {
    if crate::text::starts_with(url, "sqlite:"@) {
        let rest = url.subrange(7, url.len() as int);
        match crate::text::idx_from(rest, '?', 0) {
            Some(i) => Some(rest.subrange(0, i)),
            None => Some(rest),
        }
    } else {
        None
    }
}

/// The database file of a `sqlite:` URL, whose directory is created before
/// connecting.
pub fn sqlite_path(url: &str) -> (r: Option<String>)
    ensures
        match r {
            Some(p) => sqlite_path_of(url@) == Some(p@),
            None => sqlite_path_of(url@) is None,
        },
{
    let c = crate::text::chars_of(url);
    let pre = crate::text::chars_of("sqlite:");
    proof {
        reveal_strlit("sqlite:");
    }
    if !crate::text::starts_with_chars(&c, &pre) {
        return None;
    }
    let len = c.len();
    let rest = crate::text::slice_range(&c, 7, len);
    match crate::text::find_char_from(&rest, '?', 0) {
        Some(i) => {
            proof {
                crate::text::lemma_idx_from(rest@, '?', 0);
            }
            Some(crate::text::string_of(&crate::text::slice_range(&rest, 0, i)))
        },
        None => Some(crate::text::string_of(&rest)),
    }
}

} // verus!
