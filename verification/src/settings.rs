//! Application settings and their validation.
use vstd::prelude::*;
use crate::errors::{ApiError, AppError};
use crate::ip_ban::IpBanManager;
use crate::text::{chars_of, contains_chars, contains_seq, starts_with};

verus! {

/// Backend settings.
#[derive(Debug)]
pub struct AppSettings {
    pub fail2ban_max_attempts: u32,
    pub servers_dir: String,
    pub java_path: String,
    pub ip_whitelist_enabled: bool,
    pub trust_proxy_headers: bool,
    /// Whether failed logins count towards a ban.
    pub fail2ban_enabled: bool,
    /// Minutes after which idle servers are stopped; 0 turns this off.
    pub auto_stop_timeout_minutes: u32,
}

/// Default directory for new server instances.
pub fn default_servers_dir() -> (r: String)
    ensures
        r@ == "./servers"@,
{
    String::from_str("./servers")
}

/// The platform's path separator (`std::path::MAIN_SEPARATOR`).
/// Trusted for nothing: it depends on the target platform.
#[verifier::external_body]
fn main_separator() -> (c: char) {
    std::path::MAIN_SEPARATOR
}

/// Default Java executable: `java` on Windows (whose path separator is a
/// backslash), `/usr/bin/java` elsewhere.
pub fn default_java_path() -> (r: String)
    ensures
        r@ == "java"@ || r@ == "/usr/bin/java"@,
{
    if main_separator() == '\\' {
        String::from_str("java")
    } else {
        String::from_str("/usr/bin/java")
    }
}

/// Default location of the settings file.
pub fn default_settings_path() -> (r: String)
    ensures
        r@ == "./data/settings.json"@,
{
    String::from_str("./data/settings.json")
}

impl AppSettings {
    /// A copy of these settings.
    pub fn duplicate(&self) -> (r: Self)
        ensures
            r == *self,
    {
        AppSettings {
            fail2ban_max_attempts: self.fail2ban_max_attempts,
            servers_dir: self.servers_dir.clone(),
            java_path: self.java_path.clone(),
            ip_whitelist_enabled: self.ip_whitelist_enabled,
            trust_proxy_headers: self.trust_proxy_headers,
            fail2ban_enabled: self.fail2ban_enabled,
            auto_stop_timeout_minutes: self.auto_stop_timeout_minutes,
        }
    }
}

impl Default for AppSettings {
    /// Five attempts before a ban, `./servers`, the platform's Java, no
    /// whitelist, proxy headers not trusted, fail2ban on, idle servers
    /// stopped after 30 minutes.
    fn default() -> (r: Self)
        ensures
            r.fail2ban_max_attempts == 5,
            r.servers_dir@ == "./servers"@,
            r.java_path@ == "java"@ || r.java_path@ == "/usr/bin/java"@,
            !r.ip_whitelist_enabled,
            !r.trust_proxy_headers,
            r.fail2ban_enabled,
            r.auto_stop_timeout_minutes == 30,
    {
        AppSettings {
            fail2ban_max_attempts: 5,
            servers_dir: default_servers_dir(),
            java_path: default_java_path(),
            ip_whitelist_enabled: false,
            trust_proxy_headers: false,
            fail2ban_enabled: true,
            auto_stop_timeout_minutes: 30,
        }
    }
}

/// Why new settings are refused, if they are.
pub open spec fn settings_error(servers_dir: Seq<char>, java_path: Seq<char>) -> Option<ApiError> {
    if contains_seq(servers_dir, ".."@) || servers_dir.contains('~') || starts_with(
        servers_dir,
        "/"@,
    ) {
        Some(ApiError::Internal("servers_dir must be a relative path without '..' or '~'"@))
    } else if !contains_seq(java_path, "java"@) || contains_seq(java_path, ".."@) {
        Some(ApiError::Internal("java_path must point to a Java executable"@))
    } else {
        None
    }
}

/// Checks settings submitted by an administrator: `servers_dir` must be a
/// relative path without `..` or `~`, `java_path` must name Java.
pub fn validate_settings(n: &AppSettings) -> (r: Result<(), AppError>)
    ensures
        match (r, settings_error(n.servers_dir@, n.java_path@)) {
            (Ok(()), None) => true,
            (Err(e), Some(se)) => e.view() == se,
            _ => false,
        },
{
    let sd = chars_of(n.servers_dir.as_str());
    let jp = chars_of(n.java_path.as_str());
    let dots = chars_of("..");
    let slash = chars_of("/");
    if contains_chars(&sd, &dots) || crate::text::contains_char(&sd, '~')
        || crate::text::starts_with_chars(&sd, &slash) {
        return Err(
            AppError::Internal(
                String::from_str("servers_dir must be a relative path without '..' or '~'"),
            ),
        );
    }
    let java = chars_of("java");
    if !contains_chars(&jp, &java) || contains_chars(&jp, &dots) {
        return Err(AppError::Internal(String::from_str("java_path must point to a Java executable")));
    }
    Ok(())
}

/// Installs new settings: they replace the current ones and the ban
/// threshold follows them. Returns the installed settings.
pub fn update_settings(settings: &mut AppSettings, ip_ban: &mut IpBanManager, new: AppSettings) -> (r: AppSettings)
    requires
        old(ip_ban).wf(),
    ensures
        *final(settings) == new,
        r == new,
        final(ip_ban).wf(),
        final(ip_ban).state() == (crate::ip_ban::BanState {
            max_attempts: new.fail2ban_max_attempts,
            ..old(ip_ban).state()
        }),
{
    *settings = new.duplicate();
    ip_ban.set_max_attempts(new.fail2ban_max_attempts);
    new
}

} // verus!
