//! The configuration: the upstream servers by name and the admin API
//! settings, and where the configuration lives.
use vstd::prelude::*;
use crate::text::{chars_of, push_str, string_of};

verus! {

broadcast use vstd::string::group_string_axioms;

// ---------------------------------------------------------------------------
// Maps keyed by name
// ---------------------------------------------------------------------------

/// Whether some entry of `s` has key `k`.
pub open spec fn has_key<V>(s: Seq<(String, V)>, k: Seq<char>) -> bool {
    exists|i: int| 0 <= i < s.len() && (#[trigger] s[i]).0@ == k
}

/// The keys of `s` are pairwise distinct.
pub open spec fn distinct_keys<V>(s: Seq<(String, V)>) -> bool {
    forall|i: int, j: int| 0 <= i < s.len() && 0 <= j < s.len() && i != j ==> (#[trigger] s[i]).0@ != (#[trigger] s[j]).0@
}

/// The map that a list of entries with distinct keys stands for.
pub open spec fn map_of<V: View>(s: Seq<(String, V)>) -> Map<Seq<char>, V::V> {
    Map::new(
        |k: Seq<char>| has_key(s, k),
        |k: Seq<char>| s[choose|i: int| 0 <= i < s.len() && (#[trigger] s[i]).0@ == k].1@,
    )
}

proof fn lemma_map_of_at<V: View>(s: Seq<(String, V)>, i: int)
    requires
        distinct_keys(s),
        0 <= i < s.len(),
    ensures
        map_of(s).contains_key(s[i].0@),
        map_of(s)[s[i].0@] == s[i].1@,
{
    let k = s[i].0@;
    assert(has_key(s, k));
    let j = choose|j: int| 0 <= j < s.len() && (#[trigger] s[j]).0@ == k;
    assert(j == i);
}

/// A map from names to values, keeping its entries in insertion order.
pub struct NameMap<V> {
    entries: Vec<(String, V)>,
}

impl<V: View> View for NameMap<V> {
    type V = Map<Seq<char>, V::V>;

    closed spec fn view(&self) -> Map<Seq<char>, V::V> {
        map_of(self.entries@)
    }
}

impl<V> NameMap<V> {
    #[verifier::type_invariant]
    spec fn keys_distinct(self) -> bool {
        distinct_keys(self.entries@)
    }
}

impl<V: View> NameMap<V> {
    /// The entries, in insertion order.
    pub closed spec fn pairs(&self) -> Seq<(String, V)> {
        self.entries@
    }

    /// An empty map.
    pub fn new() -> (r: NameMap<V>)
        ensures
            r@ == Map::<Seq<char>, V::V>::empty(),
            r.pairs().len() == 0,
    {
        let r = NameMap { entries: Vec::new() };
        assert(r@ =~= Map::<Seq<char>, V::V>::empty());
        r
    }

    fn find(&self, key: &str) -> (r: Option<usize>)
        ensures
            r matches Some(i) ==> i < self.entries@.len() && self.entries@[i as int].0@ == key@,
            r is None ==> !has_key(self.entries@, key@),
    {
        let k = crate::text::string_from(key);
        let mut i: usize = 0;
        while i < self.entries.len()
            invariant
                i <= self.entries.len(),
                k@ == key@,
                forall|j: int| 0 <= j < i ==> self.entries@[j].0@ != key@,
            decreases self.entries.len() - i,
        {
            if self.entries[i].0 == k {
                return Some(i);
            }
            i = i + 1;
        }
        None
    }

    /// Whether the map has an entry for `key`.
    pub fn contains_key(&self, key: &str) -> (r: bool)
        ensures
            r == self@.contains_key(key@),
    {
        self.find(key).is_some()
    }

    /// The value for `key`, if there is one.
    pub fn get(&self, key: &str) -> (r: Option<&V>)
        ensures
            r matches Some(v) ==> self@.contains_key(key@) && self@[key@] == v@,
            r is None ==> !self@.contains_key(key@),
    {
        proof {
            use_type_invariant(self);
        }
        match self.find(key) {
            Some(i) => {
                proof {
                    lemma_map_of_at(self.entries@, i as int);
                }
                Some(&self.entries[i].1)
            },
            None => None,
        }
    }

    /// Sets the value for `key`, returning the value it replaces. A new key
    /// goes after the keys already there; a present key keeps its place.
    pub fn insert(&mut self, key: String, value: V) -> (r: Option<V>)
        ensures
            final(self)@ == old(self)@.insert(key@, value@),
            r matches Some(o) ==> old(self)@.contains_key(key@) && o@ == old(self)@[key@],
            r is None ==> !old(self)@.contains_key(key@),
    {
        proof {
            use_type_invariant(&*self);
        }
        let ghost k = key@;
        let ghost v = value@;
        let ghost old_entries = self.entries@;
        let found = self.find(key.as_str());
        let mut entries: Vec<(String, V)> = Vec::new();
        std::mem::swap(&mut entries, &mut self.entries);
        match found {
            Some(p) => {
                proof {
                    lemma_map_of_at(old_entries, p as int);
                }
                let mut pair = (key, value);
                entries.set_and_swap(p, &mut pair);
                proof {
                    let s = entries@;
                    assert(s == old_entries.update(p as int, s[p as int]));
                    assert(distinct_keys(s)) by {
                        assert forall|i: int, j: int|
                            0 <= i < s.len() && 0 <= j < s.len() && i != j implies (#[trigger] s[i]).0@
                            != (#[trigger] s[j]).0@ by {
                            if i != p && j != p {
                                assert(s[i] == old_entries[i] && s[j] == old_entries[j]);
                            } else if i == p {
                                assert(old_entries[p as int].0@ == k);
                                assert(s[j] == old_entries[j]);
                            } else {
                                assert(old_entries[p as int].0@ == k);
                                assert(s[i] == old_entries[i]);
                            }
                        }
                    }
                    assert(map_of(s) =~= map_of(old_entries).insert(k, v)) by {
                        assert forall|q: Seq<char>| #[trigger] map_of(s).contains_key(q) <==> map_of(
                            old_entries,
                        ).insert(k, v).contains_key(q) by {
                            if has_key(s, q) {
                                let i = choose|i: int| 0 <= i < s.len() && (#[trigger] s[i]).0@ == q;
                                if i != p {
                                    assert(old_entries[i] == s[i]);
                                }
                            }
                            if has_key(old_entries, q) {
                                let i = choose|i: int| 0 <= i < old_entries.len() && (#[trigger] old_entries[i]).0@ == q;
                                if i != p {
                                    assert(old_entries[i] == s[i]);
                                } else {
                                    assert(s[p as int].0@ == q);
                                }
                            }
                            if q == k {
                                assert(s[p as int].0@ == q);
                            }
                        }
                        assert forall|q: Seq<char>| #[trigger] map_of(s).contains_key(q) implies map_of(s)[q]
                            == map_of(old_entries).insert(k, v)[q] by {
                            let i = choose|i: int| 0 <= i < s.len() && (#[trigger] s[i]).0@ == q;
                            lemma_map_of_at(s, i);
                            if i != p {
                                assert(old_entries[i] == s[i]);
                                lemma_map_of_at(old_entries, i);
                            }
                        }
                    }
                }
                self.entries = entries;
                Some(pair.1)
            },
            None => {
                entries.push((key, value));
                proof {
                    let s = entries@;
                    assert(s == old_entries.push(s.last()));
                    assert(distinct_keys(s)) by {
                        assert forall|i: int, j: int|
                            0 <= i < s.len() && 0 <= j < s.len() && i != j implies (#[trigger] s[i]).0@
                            != (#[trigger] s[j]).0@ by {
                            if i < old_entries.len() && j < old_entries.len() {
                                assert(s[i] == old_entries[i] && s[j] == old_entries[j]);
                            } else if i < old_entries.len() {
                                assert(s[i] == old_entries[i]);
                            } else {
                                assert(s[j] == old_entries[j]);
                            }
                        }
                    }
                    let n = old_entries.len() as int;
                    assert(map_of(s) =~= map_of(old_entries).insert(k, v)) by {
                        assert forall|q: Seq<char>| #[trigger] map_of(s).contains_key(q) <==> map_of(
                            old_entries,
                        ).insert(k, v).contains_key(q) by {
                            if has_key(s, q) {
                                let i = choose|i: int| 0 <= i < s.len() && (#[trigger] s[i]).0@ == q;
                                if i < n {
                                    assert(old_entries[i] == s[i]);
                                }
                            }
                            if has_key(old_entries, q) {
                                let i = choose|i: int| 0 <= i < old_entries.len() && (#[trigger] old_entries[i]).0@ == q;
                                assert(old_entries[i] == s[i]);
                            }
                            if q == k {
                                assert(s[n].0@ == q);
                            }
                        }
                        assert forall|q: Seq<char>| #[trigger] map_of(s).contains_key(q) implies map_of(s)[q]
                            == map_of(old_entries).insert(k, v)[q] by {
                            let i = choose|i: int| 0 <= i < s.len() && (#[trigger] s[i]).0@ == q;
                            lemma_map_of_at(s, i);
                            if i < n {
                                assert(old_entries[i] == s[i]);
                                lemma_map_of_at(old_entries, i);
                            }
                        }
                    }
                }
                self.entries = entries;
                None
            },
        }
    }

    /// Removes the entry for `key`, returning its value if there was one.
    pub fn remove(&mut self, key: &str) -> (r: Option<V>)
        ensures
            final(self)@ == old(self)@.remove(key@),
            r matches Some(o) ==> old(self)@.contains_key(key@) && o@ == old(self)@[key@],
            r is None ==> !old(self)@.contains_key(key@) && final(self)@ == old(self)@,
    {
        proof {
            use_type_invariant(&*self);
        }
        let ghost old_entries = self.entries@;
        match self.find(key) {
            Some(p) => {
                proof {
                    lemma_map_of_at(old_entries, p as int);
                }
                let mut entries: Vec<(String, V)> = Vec::new();
                std::mem::swap(&mut entries, &mut self.entries);
                let pair = entries.remove(p);
                proof {
                    let s = entries@;
                    assert(s == old_entries.remove(p as int));
                    assert(distinct_keys(s)) by {
                        assert forall|i: int, j: int|
                            0 <= i < s.len() && 0 <= j < s.len() && i != j implies (#[trigger] s[i]).0@
                            != (#[trigger] s[j]).0@ by {
                            let oi = if i < p { i } else { i + 1 };
                            let oj = if j < p { j } else { j + 1 };
                            assert(s[i] == old_entries[oi] && s[j] == old_entries[oj]);
                        }
                    }
                    assert(map_of(s) =~= map_of(old_entries).remove(key@)) by {
                        assert forall|q: Seq<char>| #[trigger] map_of(s).contains_key(q) <==> map_of(
                            old_entries,
                        ).remove(key@).contains_key(q) by {
                            if has_key(s, q) {
                                let i = choose|i: int| 0 <= i < s.len() && (#[trigger] s[i]).0@ == q;
                                let oi = if i < p { i } else { i + 1 };
                                assert(s[i] == old_entries[oi]);
                                assert(oi != p);
                            }
                            if has_key(old_entries, q) && q != key@ {
                                let i = choose|i: int| 0 <= i < old_entries.len() && (#[trigger] old_entries[i]).0@ == q;
                                assert(i != p);
                                if i < p {
                                    assert(s[i] == old_entries[i]);
                                } else {
                                    assert(s[i - 1] == old_entries[i]);
                                }
                            }
                        }
                        assert forall|q: Seq<char>| #[trigger] map_of(s).contains_key(q) implies map_of(s)[q]
                            == map_of(old_entries).remove(key@)[q] by {
                            let i = choose|i: int| 0 <= i < s.len() && (#[trigger] s[i]).0@ == q;
                            lemma_map_of_at(s, i);
                            let oi = if i < p { i } else { i + 1 };
                            assert(s[i] == old_entries[oi]);
                            lemma_map_of_at(old_entries, oi);
                        }
                    }
                }
                self.entries = entries;
                Some(pair.1)
            },
            None => {
                proof {
                    assert(map_of(old_entries).remove(key@) =~= map_of(old_entries));
                }
                None
            },
        }
    }

    /// The entries, in insertion order.
    pub fn entries(&self) -> (r: &[(String, V)])
        ensures
            r@ == self.pairs(),
            distinct_keys(r@),
            forall|i: int| 0 <= i < r@.len() ==> self@.contains_key(#[trigger] r@[i].0@) && self@[r@[i].0@] == r@[i].1@,
            forall|k: Seq<char>| #[trigger] self@.contains_key(k) ==> has_key(r@, k),
    {
        proof {
            use_type_invariant(self);
            assert forall|i: int| 0 <= i < self.entries@.len() implies self@.contains_key(
                #[trigger] self.entries@[i].0@,
            ) && self@[self.entries@[i].0@] == self.entries@[i].1@ by {
                lemma_map_of_at(self.entries@, i);
            }
        }
        self.entries.as_slice()
    }
}

// ---------------------------------------------------------------------------
// Server and admin settings
// ---------------------------------------------------------------------------

/// How to reach one upstream MCP server.
pub enum ServerConfig {
    /// Streamable HTTP; `auth` is a bearer token (without `Bearer `).
    Http { url: String, auth: Option<String>, headers: NameMap<String> },
    /// Server-sent events; `auth` is a bearer token (without `Bearer `).
    Sse { url: String, auth: Option<String>, headers: NameMap<String> },
    /// A child process spoken to over its standard input and output.
    Stdio { command: String, args: Vec<String>, env: NameMap<String> },
}

/// The view of a [`ServerConfig`]: its texts, argument list and maps.
pub enum ServerSpec {
    Http { url: Seq<char>, auth: Option<Seq<char>>, headers: Map<Seq<char>, Seq<char>> },
    Sse { url: Seq<char>, auth: Option<Seq<char>>, headers: Map<Seq<char>, Seq<char>> },
    Stdio { command: Seq<char>, args: Seq<Seq<char>>, env: Map<Seq<char>, Seq<char>> },
}

/// The view of an optional string.
pub open spec fn opt_view(o: Option<String>) -> Option<Seq<char>> {
    match o {
        Some(s) => Some(s@),
        None => None,
    }
}

impl View for ServerConfig {
    type V = ServerSpec;

    open spec fn view(&self) -> ServerSpec {
        match self {
            ServerConfig::Http { url, auth, headers } => ServerSpec::Http {
                url: url@,
                auth: opt_view(*auth),
                headers: headers@,
            },
            ServerConfig::Sse { url, auth, headers } => ServerSpec::Sse {
                url: url@,
                auth: opt_view(*auth),
                headers: headers@,
            },
            ServerConfig::Stdio { command, args, env } => ServerSpec::Stdio {
                command: command@,
                args: crate::text::views(args@),
                env: env@,
            },
        }
    }
}

/// The admin API settings.
pub struct AdminConfig {
    /// Port of the admin HTTP API.
    pub port: u16,
    /// Bearer token that admin requests must carry, if any.
    pub token: Option<String>,
}

/// The port of the admin API when the configuration names none.
pub const DEFAULT_ADMIN_PORT: u16 = 7337;

impl Default for AdminConfig {
    fn default() -> (r: AdminConfig)
        ensures
            r.port == DEFAULT_ADMIN_PORT,
            r.token is None,
    {
        AdminConfig { port: DEFAULT_ADMIN_PORT, token: None }
    }
}

/// The whole configuration.
pub struct Config {
    pub servers: NameMap<ServerConfig>,
    pub admin: AdminConfig,
}

impl Default for Config {
    fn default() -> (r: Config)
        ensures
            r.servers@ == Map::<Seq<char>, ServerSpec>::empty(),
            r.admin.port == DEFAULT_ADMIN_PORT,
            r.admin.token is None,
    {
        Config { servers: NameMap::new(), admin: AdminConfig::default() }
    }
}

impl Config {
    /// Adds a server, replacing any server of the same name.
    pub fn add_server(&mut self, name: String, config: ServerConfig)
        ensures
            final(self).servers@ == old(self).servers@.insert(name@, config@),
            final(self).admin == old(self).admin,
    {
        let _ = self.servers.insert(name, config);
    }

    /// Removes a server; tells whether there was one of that name.
    pub fn remove_server(&mut self, name: &str) -> (r: bool)
        ensures
            r == old(self).servers@.contains_key(name@),
            final(self).servers@ == old(self).servers@.remove(name@),
            final(self).admin == old(self).admin,
    {
        self.servers.remove(name).is_some()
    }
}

// ---------------------------------------------------------------------------
// Paths
// ---------------------------------------------------------------------------

/// `PathBuf::join` with a relative component: a separator goes between the
/// two unless the base is empty or already ends with one.
pub open spec fn join(base: Seq<char>, part: Seq<char>) -> Seq<char> {
    if base.len() == 0 || base.last() == '/' {
        base + part
    } else {
        base + seq!['/'] + part
    }
}

fn join_chars(base: &Vec<char>, part: &str) -> (r: Vec<char>)
    ensures
        r@ == join(base@, part@),
{
    let mut r: Vec<char> = Vec::new();
    crate::text::push_all(&mut r, base);
    if base.len() > 0 && base[base.len() - 1] != '/' {
        r.push('/');
    }
    push_str(&mut r, part);
    r
}

/// Why a path of the configuration cannot be given.
pub enum PathError {
    /// Neither `XDG_CONFIG_HOME` nor `HOME` is set.
    NoConfigDir,
}

impl PathError {
    /// The message of the error.
    pub fn message(&self) -> (r: String)
        ensures
            r@ == "could not determine config directory"@,
    {
        crate::text::string_from("could not determine config directory")
    }
}

/// The configuration directory from the values of `XDG_CONFIG_HOME` and
/// `HOME`: the former if it is set, else `.config` under the latter.
pub fn config_dir(xdg_config_home: Option<String>, home: Option<String>) -> (r: Option<String>)
    ensures
        xdg_config_home matches Some(x) ==> r matches Some(d) && d@ == x@,
        xdg_config_home is None && home is Some ==> (r matches Some(d) && d@ == join(
            home->0@,
            ".config"@,
        )),
        xdg_config_home is None && home is None ==> r is None,
{
    match xdg_config_home {
        Some(x) => Some(x),
        None => match home {
            Some(h) => Some(string_of(&join_chars(&chars_of(h.as_str()), ".config"))),
            None => None,
        },
    }
}

/// The directory of kondi's files: `kondi` under the configuration directory.
pub fn runtime_dir(config_dir: &Option<String>) -> (r: Result<String, PathError>)
    ensures
        config_dir matches Some(d) ==> r matches Ok(p) && p@ == join(d@, "kondi"@),
        config_dir is None ==> r is Err,
{
    match config_dir {
        Some(d) => Ok(string_of(&join_chars(&chars_of(d.as_str()), "kondi"))),
        None => Err(PathError::NoConfigDir),
    }
}

/// The configuration file: `kondi/config.toml` under the configuration
/// directory.
pub fn default_config_path(config_dir: &Option<String>) -> (r: Result<String, PathError>)
    ensures
        config_dir matches Some(d) ==> r matches Ok(p) && p@ == join(join(d@, "kondi"@), "config.toml"@),
        config_dir is None ==> r is Err,
{
    match config_dir {
        Some(d) => {
            let k = join_chars(&chars_of(d.as_str()), "kondi");
            Ok(string_of(&join_chars(&k, "config.toml")))
        },
        None => Err(PathError::NoConfigDir),
    }
}

/// The PID file of the daemon: `kondi/kondid.pid` under the configuration
/// directory.
pub fn pid_path(config_dir: &Option<String>) -> (r: Result<String, PathError>)
    ensures
        config_dir matches Some(d) ==> r matches Ok(p) && p@ == join(join(d@, "kondi"@), "kondid.pid"@),
        config_dir is None ==> r is Err,
{
    match config_dir {
        Some(d) => {
            let k = join_chars(&chars_of(d.as_str()), "kondi");
            Ok(string_of(&join_chars(&k, "kondid.pid")))
        },
        None => Err(PathError::NoConfigDir),
    }
}

// ---------------------------------------------------------------------------
// Laws
// ---------------------------------------------------------------------------

/// A server that was added is there with its configuration, the other
/// servers are unchanged, and removing it again removes it as if it had
/// never been added (but for an older server of the same name, which goes
/// too).
pub proof fn law_add_then_remove(
    servers: Map<Seq<char>, ServerSpec>,
    name: Seq<char>,
    config: ServerSpec,
)
    ensures
        servers.insert(name, config).contains_key(name),
        servers.insert(name, config)[name] == config,
        forall|other: Seq<char>|
            other != name ==> (#[trigger] servers.insert(name, config).contains_key(other)
                == servers.contains_key(other)),
        forall|other: Seq<char>|
            other != name && servers.contains_key(other) ==> #[trigger] servers.insert(name, config)[other]
                == servers[other],
        servers.insert(name, config).remove(name) == servers.remove(name),
        !servers.contains_key(name) ==> servers.insert(name, config).remove(name) == servers,
{
    assert(servers.insert(name, config).remove(name) =~= servers.remove(name));
    if !servers.contains_key(name) {
        assert(servers.remove(name) =~= servers);
    }
}

/// Adding a server twice under one name keeps the second configuration.
pub proof fn law_add_replaces(servers: Map<Seq<char>, ServerSpec>, name: Seq<char>, first: ServerSpec, second: ServerSpec)
    ensures
        servers.insert(name, first).insert(name, second) == servers.insert(name, second),
{
    assert(servers.insert(name, first).insert(name, second) =~= servers.insert(name, second));
}

} // verus!
