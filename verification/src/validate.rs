//! Validation of identifiers, world names and instance paths, and the
//! sanitising of log lines for server-sent events.
use vstd::prelude::*;
use crate::auth::{all_ident_chars, ident_char};
use crate::errors::{concat, ApiError, AppError, Error};
use crate::registry::InstanceConfig;
use crate::text::{all_ascii, ascii_lower_seq, chars_of, contains_char, contains_chars, contains_seq, ends_with, ends_with_chars, starts_with, starts_with_chars, string_of, to_lowercase, trim, trim_str, unicode_lowercase};

verus! {

/// Holds a path separator, `..` or `~`.
pub open spec fn has_path_tricks(s: Seq<char>) -> bool {
    s.contains('/') || s.contains('\\') || contains_seq(s, ".."@) || s.contains('~')
}

fn has_path_tricks_exec(s: &[char]) -> (b: bool)
    ensures
        b == has_path_tricks(s@),
{
    let dots = chars_of("..");
    contains_char(s, '/') || contains_char(s, '\\') || contains_chars(s, &dots) || contains_char(s, '~')
}

/// Why an instance identifier is refused, if it is.
pub open spec fn id_error(id: Seq<char>) -> Option<ApiError> {
    if id.len() == 0 {
        Some(ApiError::Internal("ID cannot be empty"@))
    } else if has_path_tricks(id) {
        Some(ApiError::Internal("ID cannot contain path separators, '..', or '~'"@))
    } else if !(forall|i: int| 0 <= i < id.len() ==> ident_char(#[trigger] id[i])) {
        Some(ApiError::Internal("ID can only contain letters, numbers, hyphens, underscores"@))
    } else {
        None
    }
}

/// Checks an instance identifier received from a client.
pub fn validate_id(id: &str) -> (r: Result<(), AppError>)
    ensures
        match (r, id_error(id@)) {
            (Ok(()), None) => true,
            (Err(e), Some(se)) => e.view() == se,
            _ => false,
        },
{
    let c = chars_of(id);
    if c.len() == 0 {
        return Err(AppError::Internal(String::from_str("ID cannot be empty")));
    }
    if has_path_tricks_exec(&c) {
        return Err(AppError::Internal(String::from_str("ID cannot contain path separators, '..', or '~'")));
    }
    if !all_ident_chars(&c) {
        return Err(AppError::Internal(String::from_str("ID can only contain letters, numbers, hyphens, underscores")));
    }
    Ok(())
}

/// Why a world name is refused, if it is.
pub open spec fn world_name_error(name: Seq<char>) -> Option<ApiError> {
    if name.len() == 0 {
        Some(ApiError::Internal("World name empty"@))
    } else if has_path_tricks(name) {
        Some(ApiError::Internal("Invalid world name"@))
    } else if !(forall|i: int| 0 <= i < name.len() ==> ident_char(#[trigger] name[i])) {
        Some(ApiError::Internal("Only letters, numbers, -, _ allowed"@))
    } else {
        None
    }
}

/// Checks a world name received from a client.
pub fn validate_world_name(name: &str) -> (r: Result<(), AppError>)
    ensures
        match (r, world_name_error(name@)) {
            (Ok(()), None) => true,
            (Err(e), Some(se)) => e.view() == se,
            _ => false,
        },
{
    let c = chars_of(name);
    if c.len() == 0 {
        return Err(AppError::Internal(String::from_str("World name empty")));
    }
    if has_path_tricks_exec(&c) {
        return Err(AppError::Internal(String::from_str("Invalid world name")));
    }
    if !all_ident_chars(&c) {
        return Err(AppError::Internal(String::from_str("Only letters, numbers, -, _ allowed")));
    }
    Ok(())
}

/// Whether the registry accepts an instance identifier for a directory name.
pub open spec fn registry_id_ok(id: Seq<char>) -> bool {
    id.len() > 0 && !has_path_tricks(id)
}

/// Refuses identifiers that could escape the instance directory.
pub fn sanitize_id(id: &str) -> (r: Result<(), Error>)
    ensures
        r is Ok <==> registry_id_ok(id@),
        r matches Err(e) ==> e matches Error::Other(m) && m@ == "Invalid instance ID"@,
{
    let c = chars_of(id);
    if c.len() == 0 || has_path_tricks_exec(&c) {
        return Err(Error::Other(String::from_str("Invalid instance ID")));
    }
    Ok(())
}

// ---------------------------------------------------------------------------
// Instance paths
// ---------------------------------------------------------------------------

/// The segments of a `/`-separated path.
pub open spec fn last_component_from(p: Seq<char>, end: int) -> Option<Seq<char>>
    decreases end,
{
    if end <= 0 {
        None
    } else {
        let start = last_sep_before(p, end);
        let seg = p.subrange(start, end);
        if seg.len() == 0 || seg == "."@ {
            if start <= 0 {
                None
            } else {
                proof {
                    lemma_last_sep_le(p, end);
                }
                last_component_from(p, start - 1)
            }
        } else {
            Some(seg)
        }
    }
}

/// Start of the segment that ends at `end`: one past the last `/` before it.
pub open spec fn last_sep_before(p: Seq<char>, end: int) -> int
    decreases end,
{
    if end <= 0 {
        0
    } else if p[end - 1] == '/' {
        end
    } else {
        last_sep_before(p, end - 1)
    }
}

pub proof fn lemma_last_sep_le(p: Seq<char>, end: int)
    ensures
        last_sep_before(p, end) <= end || end < 0,
    decreases end,
{
    if end > 0 && p[end - 1] != '/' {
        lemma_last_sep_le(p, end - 1);
    }
}

proof fn lemma_last_sep_before(p: Seq<char>, end: int)
    requires
        0 <= end <= p.len(),
    ensures
        0 <= last_sep_before(p, end) <= end,
        last_sep_before(p, end) > 0 ==> p[last_sep_before(p, end) - 1] == '/',
        forall|k: int| last_sep_before(p, end) <= k < end ==> p[k] != '/',
    decreases end,
{
    if end > 0 && p[end - 1] != '/' {
        lemma_last_sep_before(p, end - 1);
    }
}

/// `Path::file_name` on Unix for a path without `..`: the last segment
/// that is neither empty nor `.`.
pub open spec fn file_name(p: Seq<char>) -> Option<Seq<char>> {
    last_component_from(p, p.len() as int)
}

/// The last path component.
pub fn file_name_chars(p: &[char]) -> (r: Option<Vec<char>>)
    ensures
        match r {
            Some(v) => file_name(p@) == Some(v@),
            None => file_name(p@) is None,
        },
{
    let dot = chars_of(".");
    proof {
        reveal_strlit(".");
    }
    let mut end: usize = p.len();
    loop
        invariant
            end <= p@.len(),
            dot@ == "."@,
            last_component_from(p@, end as int) == file_name(p@),
        decreases end,
    {
        if end == 0 {
            return None;
        }
        let mut start: usize = end;
        while start > 0 && p[start - 1] != '/'
            invariant
                start <= end <= p@.len(),
                last_sep_before(p@, start as int) == last_sep_before(p@, end as int),
            decreases start,
        {
            start = start - 1;
        }
        proof {
            lemma_last_sep_before(p@, end as int);
            reveal_strlit(".");
        }
        let seg = crate::text::slice_range(p, start, end);
        let is_dot = seg.len() == 1 && seg[0] == '.';
        proof {
            if seg@.len() == 1 && seg@[0] == '.' {
                assert(seg@ =~= dot@);
            }
            if seg@ == dot@ {
                assert(dot@.len() == 1 && dot@[0] == '.') by {
                    assert(seg@.len() == 1);
                }
            }
        }
        if seg.len() == 0 || is_dot {
            if start == 0 {
                return None;
            }
            end = start - 1;
        } else {
            return Some(seg);
        }
    }
}

/// Why the paths of an instance configuration are refused, if they are.
pub open spec fn path_error(jar: Seq<char>, java: Seq<char>) -> Option<ApiError> {
    match single_path_error("jar_path"@, trim(jar)) {
        Some(e) => Some(e),
        None => match single_path_error("java_path"@, trim(java)) {
            Some(e) => Some(e),
            None => if !ends_with(unicode_lowercase(trim(jar)), ".jar"@) {
                Some(ApiError::InvalidPath("jar_path must end with .jar"@))
            } else {
                let f = match file_name(trim(java)) {
                    Some(f) => unicode_lowercase(f),
                    None => Seq::empty(),
                };
                if !contains_seq(f, "java"@) {
                    Some(ApiError::InvalidPath("java_path must point to a Java executable"@))
                } else {
                    None
                }
            },
        },
    }
}

/// The URL schemes a local path must not start with.
pub open spec fn remote_scheme(v: Seq<char>) -> bool {
    starts_with(v, "http://"@) || starts_with(v, "https://"@) || starts_with(v, "ftp://"@)
        || starts_with(v, "file://"@)
}

/// The checks on one trimmed path.
pub open spec fn single_path_error(name: Seq<char>, v: Seq<char>) -> Option<ApiError> {
    if v.len() == 0 {
        Some(ApiError::InvalidPath(name + " must not be empty"@))
    } else if contains_seq(v, ".."@) {
        Some(ApiError::InvalidPath(name + " contains '..'"@))
    } else if v.contains('~') {
        Some(ApiError::InvalidPath(name + " contains '~'"@))
    } else if remote_scheme(unicode_lowercase(v)) {
        Some(ApiError::InvalidPath(name + " must be a local path"@))
    } else {
        None
    }
}

fn check_one_path(name: &str, val: &String) -> (r: Result<(), AppError>)
    ensures
        match (r, single_path_error(name@, trim(val@))) {
            (Ok(()), None) => true,
            (Err(e), Some(se)) => e.view() == se,
            _ => false,
        },
{
    let v = trim_str(val.as_str());
    let vc = chars_of(v.as_str());
    if vc.len() == 0 {
        return Err(AppError::InvalidPath(concat(name, " must not be empty")));
    }
    let dots = chars_of("..");
    if contains_chars(&vc, &dots) {
        return Err(AppError::InvalidPath(concat(name, " contains '..'")));
    }
    if contains_char(&vc, '~') {
        return Err(AppError::InvalidPath(concat(name, " contains '~'")));
    }
    let low = chars_of(to_lowercase(v.as_str()).as_str());
    let s1 = chars_of("http://");
    let s2 = chars_of("https://");
    let s3 = chars_of("ftp://");
    let s4 = chars_of("file://");
    if starts_with_chars(&low, &s1) || starts_with_chars(&low, &s2) || starts_with_chars(&low, &s3)
        || starts_with_chars(&low, &s4) {
        return Err(AppError::InvalidPath(concat(name, " must be a local path")));
    }
    Ok(())
}

/// Checks the JAR and Java paths of an instance configuration: neither may
/// be empty, hold `..` or `~`, or be a URL; the JAR must end in `.jar`
/// and the Java executable's file name must mention `java`.
pub fn validate_instance_paths(config: &InstanceConfig) -> (r: Result<(), AppError>)
    ensures
        match (r, path_error(config.jar_path@, config.java_path@)) {
            (Ok(()), None) => true,
            (Err(e), Some(se)) => e.view() == se,
            _ => false,
        },
{
    check_one_path("jar_path", &config.jar_path)?;
    check_one_path("java_path", &config.java_path)?;
    let jar = trim_str(config.jar_path.as_str());
    let jar_low = chars_of(to_lowercase(jar.as_str()).as_str());
    let ext = chars_of(".jar");
    if !ends_with_chars(&jar_low, &ext) {
        return Err(AppError::InvalidPath(String::from_str("jar_path must end with .jar")));
    }
    let java = chars_of(trim_str(config.java_path.as_str()).as_str());
    let f: Vec<char> = match file_name_chars(&java) {
        Some(f) => chars_of(to_lowercase(string_of(&f).as_str()).as_str()),
        None => Vec::new(),
    };
    let word = chars_of("java");
    if !contains_chars(&f, &word) {
        return Err(AppError::InvalidPath(String::from_str("java_path must point to a Java executable")));
    }
    Ok(())
}

// ---------------------------------------------------------------------------
// Server-sent events
// ---------------------------------------------------------------------------

/// What one character of a log line becomes in an event: line breaks are
/// escaped, printable ASCII, spaces and tabs are kept, the rest dropped.
pub open spec fn sse_char(c: char) -> Seq<char> {
    if c == '\n' {
        seq!['\\', 'n']
    } else if c == '\r' {
        seq!['\\', 'r']
    } else if ('!' <= c && c <= '~') || c == ' ' || c == '\t' {
        seq![c]
    } else {
        Seq::empty()
    }
}

/// The sanitised text of a whole line.
pub open spec fn sse_text(s: Seq<char>) -> Seq<char>
    decreases s.len(),
{
    if s.len() == 0 {
        Seq::empty()
    } else {
        sse_text(s.drop_last()) + sse_char(s.last())
    }
}

/// Makes a log line safe for a server-sent event.
pub fn sanitize_sse(s: &str) -> (r: String)
    ensures
        r@ == sse_text(s@),
{
    let c = chars_of(s);
    let mut out: Vec<char> = Vec::new();
    let mut i: usize = 0;
    while i < c.len()
        invariant
            i <= c@.len(),
            out@ == sse_text(c@.take(i as int)),
        decreases c@.len() - i,
    {
        let ch = c[i];
        let ghost before = out@;
        if ch == '\n' {
            out.push('\\');
            out.push('n');
        } else if ch == '\r' {
            out.push('\\');
            out.push('r');
        } else if ('!' <= ch && ch <= '~') || ch == ' ' || ch == '\t' {
            out.push(ch);
        }
        assert(c@.take(i + 1).drop_last() =~= c@.take(i as int));
        assert(out@ =~= before + sse_char(ch));
        i = i + 1;
    }
    assert(c@.take(c@.len() as int) =~= c@);
    string_of(&out)
}

/// Sanitised text has no line breaks, so one log line is one event line.
pub proof fn law_sse_single_line(s: Seq<char>)
    ensures
        !sse_text(s).contains('\n'),
        !sse_text(s).contains('\r'),
    decreases s.len(),
{
    if s.len() > 0 {
        law_sse_single_line(s.drop_last());
        let a = sse_text(s.drop_last());
        let b = sse_char(s.last());
        assert(sse_text(s) == a + b);
        assert forall|i: int| 0 <= i < (a + b).len() implies (a + b)[i] != '\n' && (a + b)[i] != '\r' by {
            if i < a.len() {
                assert((a + b)[i] == a[i]);
            } else {
                assert((a + b)[i] == b[i - a.len()]);
            }
        }
    }
}

} // verus!
