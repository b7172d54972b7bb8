//! The instance registry: instance configurations keyed by identifier, and
//! the rules for creating, updating, archiving and restoring them.
use vstd::prelude::*;
use crate::assoc::{amap, find_key, insert_sorted, keys_sorted, lemma_amap_dom, lemma_amap_index, lemma_sorted_unique, remove_key};
use crate::errors::Error;
use crate::instance::ServerConfig;
use crate::text::{copy_strings, seq_lt};
use crate::validate::{registry_id_ok, sanitize_id};

verus! {

/// The persisted description of one server instance.
#[derive(Debug, Clone)]
pub struct InstanceConfig {
    pub id: String,
    pub name: String,
    pub provider: String,
    pub version: String,
    pub java_path: String,
    pub min_memory: String,
    pub max_memory: String,
    pub jvm_args: Vec<String>,
    pub server_dir: String,
    pub jar_path: String,
}

/// One line of the instance list.
#[derive(Debug)]
pub struct InstanceSummary {
    pub id: String,
    pub name: String,
    pub running: bool,
}

/// One archived instance.
#[derive(Debug)]
pub struct ArchivedSummary {
    pub id: String,
    pub name: String,
    pub provider: String,
    pub version: String,
    pub archived_at: String,
    pub size_bytes: u64,
    pub size_human: String,
}

/// The contents of an [`InstanceConfig`] as character sequences.
pub struct ConfigView {
    pub id: Seq<char>,
    pub name: Seq<char>,
    pub provider: Seq<char>,
    pub version: Seq<char>,
    pub java_path: Seq<char>,
    pub min_memory: Seq<char>,
    pub max_memory: Seq<char>,
    pub jvm_args: Seq<Seq<char>>,
    pub server_dir: Seq<char>,
    pub jar_path: Seq<char>,
}

impl InstanceConfig {
    pub open spec fn view(&self) -> ConfigView {
        ConfigView {
            id: self.id@,
            name: self.name@,
            provider: self.provider@,
            version: self.version@,
            java_path: self.java_path@,
            min_memory: self.min_memory@,
            max_memory: self.max_memory@,
            jvm_args: self.jvm_args@.map_values(|a: String| a@),
            server_dir: self.server_dir@,
            jar_path: self.jar_path@,
        }
    }

    /// A field-for-field copy.
    pub fn duplicate(&self) -> (r: Self)
        ensures
            r@ == self@,
    {
        InstanceConfig {
            id: self.id.clone(),
            name: self.name.clone(),
            provider: self.provider.clone(),
            version: self.version.clone(),
            java_path: self.java_path.clone(),
            min_memory: self.min_memory.clone(),
            max_memory: self.max_memory.clone(),
            jvm_args: copy_strings(&self.jvm_args),
            server_dir: self.server_dir.clone(),
            jar_path: self.jar_path.clone(),
        }
    }

    /// The launch configuration of this instance.
    pub fn server_config(&self) -> (r: ServerConfig)
        ensures
            r.jar_path@ == self.jar_path@,
            r.java_path@ == self.java_path@,
            r.min_memory@ == self.min_memory@,
            r.max_memory@ == self.max_memory@,
            r.server_dir@ == self.server_dir@,
            r.jvm_args@ == self.jvm_args@,
    {
        ServerConfig::new(
            self.jar_path.as_str(),
            self.java_path.as_str(),
            self.min_memory.as_str(),
            self.max_memory.as_str(),
            self.server_dir.as_str(),
        ).with_jvm_args(copy_strings(&self.jvm_args))
    }
}

/// `'` + `id` + `'` + `tail`: the registry's messages about one instance.
pub fn quoted_id_message(id: &str, tail: &str) -> (r: String)
    ensures
        r@ == seq!['\''] + id@ + tail@,
{
    let mut s = String::from_str("'");
    proof {
        reveal_strlit("'");
    }
    s.append(id);
    s.append(tail);
    s
}

/// The configurations of all known instances, keyed by identifier.
#[derive(Debug)]
pub struct InstanceTable {
    entries: Vec<(String, InstanceConfig)>,
}

impl InstanceTable {
    /// Entries stay sorted by identifier, so no identifier occurs twice.
    pub closed spec fn wf(&self) -> bool {
        keys_sorted(self.entries@)
    }

    /// The identifier-to-configuration map.
    pub closed spec fn view(&self) -> Map<Seq<char>, InstanceConfig> {
        amap(self.entries@)
    }

    /// A table with no instance.
    pub fn new() -> (r: Self)
        ensures
            r.wf(),
            r@ == Map::<Seq<char>, InstanceConfig>::empty(),
    {
        InstanceTable { entries: Vec::new() }
    }

    /// Whether an instance with this identifier is known.
    pub fn contains(&self, id: &String) -> (b: bool)
        requires
            self.wf(),
        ensures
            b == self@.dom().contains(id@),
    {
        proof {
            lemma_sorted_unique(self.entries@);
            lemma_amap_dom(self.entries@, id@);
        }
        find_key(&self.entries, id).is_some()
    }

    /// The configuration of an instance.
    pub fn get(&self, id: &String) -> (r: Option<&InstanceConfig>)
        requires
            self.wf(),
        ensures
            match r {
                Some(c) => self@.dom().contains(id@) && *c == self@[id@],
                None => !self@.dom().contains(id@),
            },
    {
        proof {
            lemma_sorted_unique(self.entries@);
            lemma_amap_dom(self.entries@, id@);
        }
        match find_key(&self.entries, id) {
            Some(i) => {
                proof {
                    lemma_amap_index(self.entries@, i as int);
                }
                Some(&self.entries[i].1)
            },
            None => None,
        }
    }

    /// Number of instances.
    pub fn len(&self) -> (n: usize)
        requires
            self.wf(),
        ensures
            n == self@.len(),
    {
        proof {
            lemma_sorted_unique(self.entries@);
            crate::assoc::lemma_amap_len(self.entries@);
        }
        self.entries.len()
    }

    /// The identifiers, in ascending order.
    pub closed spec fn ids(&self) -> Seq<Seq<char>> {
        Seq::new(self.entries@.len(), |i: int| self.entries@[i].0@)
    }

    /// All configurations, in identifier order: the `i`-th is that of the
    /// `i`-th smallest identifier, and every identifier has one.
    pub fn configs(&self) -> (r: Vec<InstanceConfig>)
        requires
            self.wf(),
        ensures
            r@.len() == self@.len(),
            self.ids().len() == r@.len(),
            forall|i: int, j: int| 0 <= i < j < r@.len() ==> seq_lt(#[trigger] self.ids()[i], #[trigger] self.ids()[j]),
            forall|i: int| 0 <= i < r@.len() ==> self@.dom().contains(#[trigger] self.ids()[i])
                && r@[i]@ == self@[self.ids()[i]]@,
            forall|k: Seq<char>| #[trigger] self@.dom().contains(k) ==> exists|i: int|
                0 <= i < r@.len() && self.ids()[i] == k,
    {
        proof {
            lemma_sorted_unique(self.entries@);
            crate::assoc::lemma_amap_len(self.entries@);
        }
        let mut r: Vec<InstanceConfig> = Vec::new();
        let mut i: usize = 0;
        while i < self.entries.len()
            invariant
                i <= self.entries@.len(),
                r@.len() == i,
                forall|j: int| 0 <= j < i ==> r@[j]@ == (#[trigger] self.entries@[j]).1@,
            decreases self.entries@.len() - i,
        {
            r.push(self.entries[i].1.duplicate());
            i = i + 1;
        }
        proof {
            assert forall|j: int| 0 <= j < r@.len() implies self@.dom().contains(#[trigger] self.ids()[j])
                && r@[j]@ == self@[self.ids()[j]]@ by {
                lemma_amap_index(self.entries@, j);
            }
            assert forall|k: Seq<char>| #[trigger] self@.dom().contains(k) implies exists|i: int|
                0 <= i < r@.len() && self.ids()[i] == k by {
                lemma_amap_dom(self.entries@, k);
                let j = choose|j: int| 0 <= j < self.entries@.len() && (#[trigger] self.entries@[j]).0@ == k;
                assert(self.ids()[j] == k);
            }
        }
        r
    }

    /// Registers a new instance; refused if the identifier is taken.
    pub fn create(&mut self, config: InstanceConfig) -> (r: Result<(), Error>)
        requires
            old(self).wf(),
        ensures
            final(self).wf(),
            old(self)@.dom().contains(config.id@) ==> (r matches Err(Error::Other(m)) && m@
                == seq!['\''] + config.id@ + "' exists"@) && final(self)@ == old(self)@,
            !old(self)@.dom().contains(config.id@) ==> r is Ok && final(self)@ == old(self)@.insert(
                config.id@,
                config,
            ),
    {
        if self.contains(&config.id) {
            return Err(Error::Other(quoted_id_message(config.id.as_str(), "' exists")));
        }
        let key = config.id.clone();
        insert_sorted(&mut self.entries, key, config);
        Ok(())
    }

    /// Replaces the configuration of `id`; the new configuration may carry
    /// another identifier, under which it is then filed.
    pub fn update_config(&mut self, id: &String, config: InstanceConfig) -> (r: Result<(), Error>)
        requires
            old(self).wf(),
        ensures
            final(self).wf(),
            !old(self)@.dom().contains(id@) ==> (r matches Err(Error::Other(m)) && m@ == seq!['\'']
                + id@ + "' not found"@) && final(self)@ == old(self)@,
            old(self)@.dom().contains(id@) ==> r is Ok && final(self)@ == old(self)@.remove(
                id@,
            ).insert(config.id@, config),
    {
        if !self.contains(id) {
            return Err(Error::Other(quoted_id_message(id.as_str(), "' not found")));
        }
        let _ = remove_key(&mut self.entries, id);
        let key = config.id.clone();
        insert_sorted(&mut self.entries, key, config);
        Ok(())
    }

    /// Decides whether `id` may be archived: the identifier must be safe as
    /// a directory name, known, and its server stopped. Returns the
    /// configuration to archive.
    pub fn removal_check(&self, id: &String, running: bool) -> (r: Result<InstanceConfig, Error>)
        requires
            self.wf(),
        ensures
            !registry_id_ok(id@) ==> (r matches Err(Error::Other(m)) && m@ == "Invalid instance ID"@),
            registry_id_ok(id@) && !self@.dom().contains(id@) ==> (r matches Err(Error::Other(m))
                && m@ == seq!['\''] + id@ + "' not found"@),
            registry_id_ok(id@) && self@.dom().contains(id@) && running ==> (r matches Err(
                Error::Other(m),
            ) && m@ == "Stop first"@),
            registry_id_ok(id@) && self@.dom().contains(id@) && !running ==> (r matches Ok(c)
                && c@ == self@[id@]@),
    {
        sanitize_id(id.as_str())?;
        match self.get(id) {
            None => Err(Error::Other(quoted_id_message(id.as_str(), "' not found"))),
            Some(c) => {
                if running {
                    Err(Error::Other(String::from_str("Stop first")))
                } else {
                    Ok(c.duplicate())
                }
            },
        }
    }

    /// Drops `id` from the table (after its directory was archived).
    pub fn forget(&mut self, id: &String)
        requires
            old(self).wf(),
        ensures
            final(self).wf(),
            final(self)@ == old(self)@.remove(id@),
    {
        let _ = remove_key(&mut self.entries, id);
    }

    /// Files a restored configuration under `id`, replacing any entry.
    pub fn restore(&mut self, id: &String, config: InstanceConfig)
        requires
            old(self).wf(),
        ensures
            final(self).wf(),
            final(self)@ == old(self)@.insert(id@, config),
    {
        insert_sorted(&mut self.entries, id.clone(), config);
    }
}

/// Archiving an instance and restoring the configuration that
/// `removal_check` handed out gives back the same table.
pub proof fn law_archive_then_restore(t: InstanceTable, id: Seq<char>)
    requires
        t.wf(),
        t@.dom().contains(id),
    ensures
        t@.remove(id).insert(id, t@[id]) == t@,
{
    assert(t@.remove(id).insert(id, t@[id]) =~= t@);
}

/// A created instance is found under its identifier with the configuration
/// it was created with, and every other instance is left as it was.
pub proof fn law_create_then_get(t: InstanceTable, c: InstanceConfig, other: Seq<char>)
    requires
        t.wf(),
        !t@.dom().contains(c.id@),
        other != c.id@,
    ensures
        t@.insert(c.id@, c).dom().contains(c.id@),
        t@.insert(c.id@, c)[c.id@] == c,
        t@.insert(c.id@, c).dom().contains(other) == t@.dom().contains(other),
        t@.dom().contains(other) ==> t@.insert(c.id@, c)[other] == t@[other],
{
}

/// The text without any trailing `c`.
pub open spec fn trim_end_char(s: Seq<char>, c: char) -> Seq<char>
    decreases s.len(),
{
    if s.len() > 0 && s.last() == c {
        trim_end_char(s.drop_last(), c)
    } else {
        s
    }
}

/// Fills in where an instance lives: its directory is `<servers_dir>/<id>`
/// (trailing slashes of the servers directory dropped), its JAR is
/// `server.jar` in it, and an empty Java path becomes the configured one.
pub fn place_instance(config: InstanceConfig, id: &str, servers_dir: &str, default_java: &str) -> (r: InstanceConfig)
    ensures
        r.server_dir@ == trim_end_char(servers_dir@, '/') + seq!['/'] + id@,
        r.jar_path@ == r.server_dir@ + "/server.jar"@,
        config.java_path@.len() == 0 ==> r.java_path@ == default_java@,
        config.java_path@.len() > 0 ==> r.java_path == config.java_path,
        r.id == config.id,
        r.name == config.name,
        r.provider == config.provider,
        r.version == config.version,
        r.min_memory == config.min_memory,
        r.max_memory == config.max_memory,
        r.jvm_args == config.jvm_args,
{
    let c = crate::text::chars_of(servers_dir);
    let mut n: usize = c.len();
    assert(c@.subrange(0, n as int) =~= c@);
    while n > 0 && c[n - 1] == '/'
        invariant
            n <= c@.len(),
            c@ == servers_dir@,
            trim_end_char(c@.subrange(0, n as int), '/') == trim_end_char(servers_dir@, '/'),
        decreases n,
    {
        assert(c@.subrange(0, n - 1) =~= c@.subrange(0, n as int).drop_last());
        n = n - 1;
    }
    let base = crate::text::slice_range(&c, 0, n);
    let mut dir = crate::text::string_of(&base);
    dir.append("/");
    dir.append(id);
    proof {
        reveal_strlit("/");
    }
    let mut jar = dir.clone();
    jar.append("/server.jar");
    let mut out = config;
    if out.java_path.as_str().unicode_len() == 0 {
        out.java_path = String::from_str(default_java);
    }
    out.server_dir = dir;
    out.jar_path = jar;
    out
}

} // verus!
