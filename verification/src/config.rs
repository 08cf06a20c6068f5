//! Connection settings. The configuration file is an INI text with one
//! section per connection; its sections and keys are read into a `Config`,
//! from which a `Connection` is taken by name.

use vstd::prelude::*;

verus! {

/// Settings of one database connection.
#[derive(Clone, Debug)]
pub struct Connection {
    pub name: String,
    pub system: String,
    pub host: String,
    pub port: String,
    pub username: String,
    pub password: String,
    pub database: String,
    pub namespace: String,
}

/// One `key` or `key = value` line of a section.
#[derive(Debug)]
pub struct ConfigEntry {
    pub key: String,
    pub value: Option<String>,
}

/// A `[name]` section and its entries.
#[derive(Debug)]
pub struct ConfigSection {
    pub name: String,
    pub entries: Vec<ConfigEntry>,
}

/// A configuration file: its sections.
#[derive(Debug)]
pub struct Config {
    pub sections: Vec<ConfigSection>,
}

/// The map from the first components of `ps` to the second ones.
pub open spec fn pairs_map<V>(ps: Seq<(Seq<char>, V)>) -> Map<Seq<char>, V>
    decreases ps.len(),
{
    if ps.len() == 0 {
        Map::empty()
    } else {
        pairs_map(ps.drop_last()).insert(ps.last().0, ps.last().1)
    }
}

/// No name occurs twice among the first components of `ps`.
pub open spec fn distinct_names<V>(ps: Seq<(Seq<char>, V)>) -> bool {
    forall|i: int, j: int| 0 <= i < j < ps.len() ==> ps[i].0 != ps[j].0
}

/// With distinct names, each pair stands in the map, and nothing else does.
pub proof fn lemma_pairs_map<V>(ps: Seq<(Seq<char>, V)>)
    requires
        distinct_names(ps),
    ensures
        forall|i: int|
            0 <= i < ps.len() ==> #[trigger] pairs_map(ps).contains_key(ps[i].0) && pairs_map(
                ps,
            )[ps[i].0] == ps[i].1,
        forall|k: Seq<char>|
            #[trigger] pairs_map(ps).contains_key(k) ==> exists|i: int|
                0 <= i < ps.len() && ps[i].0 == k,
    decreases ps.len(),
{
    if ps.len() > 0 {
        let front = ps.drop_last();
        assert(distinct_names(front));
        lemma_pairs_map(front);
        assert forall|i: int| 0 <= i < ps.len() implies #[trigger] pairs_map(ps).contains_key(
            ps[i].0,
        ) && pairs_map(ps)[ps[i].0] == ps[i].1 by {
            if i < ps.len() - 1 {
                assert(front[i] == ps[i]);
                assert(pairs_map(front).contains_key(front[i].0));
                assert(ps[i].0 != ps[ps.len() - 1].0);
            }
        }
        assert forall|k: Seq<char>| #[trigger] pairs_map(ps).contains_key(k) implies exists|i: int|
            0 <= i < ps.len() && ps[i].0 == k by {
            if k != ps.last().0 {
                assert(pairs_map(front).contains_key(k));
                let i = choose|i: int| 0 <= i < front.len() && front[i].0 == k;
                assert(ps[i] == front[i]);
            } else {
                assert(ps[ps.len() - 1].0 == k);
            }
        }
    }
}

/// The text of an optional value.
pub open spec fn opt_view(o: Option<String>) -> Option<Seq<char>> {
    match o {
        Some(s) => Some(s@),
        None => None,
    }
}

impl ConfigEntry {
    pub open spec fn pair(self) -> (Seq<char>, Option<Seq<char>>) {
        (self.key@, opt_view(self.value))
    }
}

impl ConfigSection {
    pub open spec fn pairs(self) -> Seq<(Seq<char>, Option<Seq<char>>)> {
        self.entries@.map_values(|e: ConfigEntry| e.pair())
    }

    /// No key occurs twice.
    pub open spec fn wf(self) -> bool {
        distinct_names(self.pairs())
    }

    /// The value of `key`, if the section has that key.
    pub fn get(&self, key: &String) -> (r: Option<&Option<String>>)
        requires
            self.wf(),
        ensures
            r is Some <==> self@.contains_key(key@),
            r matches Some(v) ==> opt_view(*v) == self@[key@],
    {
        proof {
            lemma_pairs_map(self.pairs());
        }
        let mut i: usize = 0;
        while i < self.entries.len()
            invariant
                i <= self.entries.len(),
                self.wf(),
                forall|j: int| 0 <= j < i ==> self.entries@[j].key@ != key@,
            decreases self.entries.len() - i,
        {
            if self.entries[i].key == *key {
                proof {
                    lemma_pairs_map(self.pairs());
                }
                assert(self.pairs()[i as int] == self.entries@[i as int].pair());
                assert(pairs_map(self.pairs()).contains_key(self.pairs()[i as int].0));
                return Some(&self.entries[i].value);
            }
            i = i + 1;
        }
        assert forall|k: Seq<char>| k == key@ implies !self@.contains_key(k) by {
            if self@.contains_key(k) {
                let j = choose|j: int| 0 <= j < self.pairs().len() && self.pairs()[j].0 == k;
                assert(self.pairs()[j] == self.entries@[j].pair());
                assert(self.entries@[j].key@ == k);
            }
        }
        None
    }
}

impl View for ConfigSection {
    type V = Map<Seq<char>, Option<Seq<char>>>;

    open spec fn view(&self) -> Map<Seq<char>, Option<Seq<char>>> {
        pairs_map(self.pairs())
    }
}

impl Config {
    pub open spec fn pairs(self) -> Seq<(Seq<char>, Map<Seq<char>, Option<Seq<char>>>)> {
        self.sections@.map_values(|s: ConfigSection| (s.name@, s@))
    }

    /// No section name occurs twice, and no key twice in a section.
    pub open spec fn wf(self) -> bool {
        &&& distinct_names(self.pairs())
        &&& forall|i: int| 0 <= i < self.sections@.len() ==> (#[trigger] self.sections@[i]).wf()
    }

    /// The section called `name`, if there is one.
    pub fn section(&self, name: &String) -> (r: Option<&ConfigSection>)
        requires
            self.wf(),
        ensures
            r is Some <==> self@.contains_key(name@),
            r matches Some(s) ==> s@ == self@[name@] && s.wf(),
    {
        proof {
            lemma_pairs_map(self.pairs());
        }
        let mut i: usize = 0;
        while i < self.sections.len()
            invariant
                i <= self.sections.len(),
                self.wf(),
                forall|j: int| 0 <= j < i ==> self.sections@[j].name@ != name@,
            decreases self.sections.len() - i,
        {
            if self.sections[i].name == *name {
                proof {
                    lemma_pairs_map(self.pairs());
                }
                assert(self.pairs()[i as int] == (self.sections@[i as int].name@, self.sections@[i as int]@));
                assert(pairs_map(self.pairs()).contains_key(self.pairs()[i as int].0));
                assert(self.sections@[i as int].wf());
                return Some(&self.sections[i]);
            }
            i = i + 1;
        }
        assert forall|k: Seq<char>| k == name@ implies !self@.contains_key(k) by {
            if self@.contains_key(k) {
                let j = choose|j: int| 0 <= j < self.pairs().len() && self.pairs()[j].0 == k;
                assert(self.pairs()[j] == (self.sections@[j].name@, self.sections@[j]@));
                assert(self.sections@[j].name@ == k);
            }
        }
        None
    }
}

impl View for Config {
    type V = Map<Seq<char>, Map<Seq<char>, Option<Seq<char>>>>;

    open spec fn view(&self) -> Map<Seq<char>, Map<Seq<char>, Option<Seq<char>>>> {
        pairs_map(self.pairs())
    }
}

/// Whether a section gives `key` a value.
pub open spec fn sets(section: Map<Seq<char>, Option<Seq<char>>>, key: Seq<char>) -> bool {
    section.contains_key(key) && section[key] is Some
}

pub open spec fn key_system() -> Seq<char> {
    seq!['s', 'y', 's', 't', 'e', 'm']
}

pub open spec fn key_host() -> Seq<char> {
    seq!['h', 'o', 's', 't']
}

pub open spec fn key_port() -> Seq<char> {
    seq!['p', 'o', 'r', 't']
}

pub open spec fn key_username() -> Seq<char> {
    seq!['u', 's', 'e', 'r', 'n', 'a', 'm', 'e']
}

pub open spec fn key_password() -> Seq<char> {
    seq!['p', 'a', 's', 's', 'w', 'o', 'r', 'd']
}

pub open spec fn key_database() -> Seq<char> {
    seq!['d', 'a', 't', 'a', 'b', 'a', 's', 'e']
}

pub open spec fn key_namespace() -> Seq<char> {
    seq!['n', 'a', 'm', 'e', 's', 'p', 'a', 'c', 'e']
}

impl Config {
    /// The section `name` exists and gives every connection setting a value.
    pub open spec fn has_connection(self, name: Seq<char>) -> bool {
        &&& self@.contains_key(name)
        &&& sets(self@[name], key_system())
        &&& sets(self@[name], key_host())
        &&& sets(self@[name], key_port())
        &&& sets(self@[name], key_username())
        &&& sets(self@[name], key_password())
        &&& sets(self@[name], key_database())
        &&& sets(self@[name], key_namespace())
    }

    /// The value of `key` in section `name`.
    pub open spec fn setting(self, name: Seq<char>, key: Seq<char>) -> Seq<char> {
        self@[name][key]->Some_0
    }
}

/// The value that a section gives `key`.
fn setting_value(section: &ConfigSection, key: &str) -> (v: String)
    requires
        section.wf(),
        sets(section@, key@),
    ensures
        section@[key@] == Some(v@),
{
    let k = key.to_owned();
    match section.get(&k) {
        Some(Some(v)) => v.clone(),
        _ => {
            assert(false);
            String::new()
        },
    }
}

impl Connection {
    /// The connection called `connection_name` in the configuration.
    pub fn from_config(connection_name: String, config: &Config) -> (c: Connection)
        requires
            config.wf(),
            config.has_connection(connection_name@),
        ensures
            c.name@ == connection_name@,
            c.system@ == config.setting(connection_name@, key_system()),
            c.host@ == config.setting(connection_name@, key_host()),
            c.port@ == config.setting(connection_name@, key_port()),
            c.username@ == config.setting(connection_name@, key_username()),
            c.password@ == config.setting(connection_name@, key_password()),
            c.database@ == config.setting(connection_name@, key_database()),
            c.namespace@ == config.setting(connection_name@, key_namespace()),
    {
        proof {
            reveal_strlit("system");
            reveal_strlit("host");
            reveal_strlit("port");
            reveal_strlit("username");
            reveal_strlit("password");
            reveal_strlit("database");
            reveal_strlit("namespace");
            assert("system"@ =~= key_system());
            assert("host"@ =~= key_host());
            assert("port"@ =~= key_port());
            assert("username"@ =~= key_username());
            assert("password"@ =~= key_password());
            assert("database"@ =~= key_database());
            assert("namespace"@ =~= key_namespace());
        }
        let section = config.section(&connection_name).unwrap();
        Connection {
            name: connection_name.clone(),
            system: setting_value(section, "system"),
            host: setting_value(section, "host"),
            port: setting_value(section, "port"),
            username: setting_value(section, "username"),
            password: setting_value(section, "password"),
            database: setting_value(section, "database"),
            namespace: setting_value(section, "namespace"),
        }
    }
}

/// Whether a section gives `key` a value.
fn section_sets(section: &ConfigSection, key: &str) -> (b: bool)
    requires
        section.wf(),
    ensures
        b == sets(section@, key@),
{
    let k = key.to_owned();
    match section.get(&k) {
        Some(Some(_)) => true,
        _ => false,
    }
}

impl Config {
    /// Whether section `name` exists and gives every connection setting a
    /// value.
    pub fn has_connection_settings(&self, name: &String) -> (b: bool)
        requires
            self.wf(),
        ensures
            b == self.has_connection(name@),
    {
        proof {
            reveal_strlit("system");
            reveal_strlit("host");
            reveal_strlit("port");
            reveal_strlit("username");
            reveal_strlit("password");
            reveal_strlit("database");
            reveal_strlit("namespace");
            assert("system"@ =~= key_system());
            assert("host"@ =~= key_host());
            assert("port"@ =~= key_port());
            assert("username"@ =~= key_username());
            assert("password"@ =~= key_password());
            assert("database"@ =~= key_database());
            assert("namespace"@ =~= key_namespace());
        }
        match self.section(name) {
            Some(section) => section_sets(section, "system") && section_sets(section, "host")
                && section_sets(section, "port") && section_sets(section, "username")
                && section_sets(section, "password") && section_sets(section, "database")
                && section_sets(section, "namespace"),
            None => false,
        }
    }
}

/// The keys that a connection section gives values to.
pub open spec fn connection_keys() -> Seq<Seq<char>> {
    seq![
        key_system(),
        key_host(),
        key_port(),
        key_username(),
        key_password(),
        key_database(),
        key_namespace(),
    ]
}

/// A section makes a usable connection exactly when it has every connection
/// key with a value, whatever the value's text, the empty text included
/// (`namespace =` gives `Some("")`): `validate_connection` accepts any
/// non-empty name of such a section.
pub proof fn lemma_connection_settings(c: Config, name: Seq<char>)
    ensures
        c.has_connection(name) <==> c@.contains_key(name) && forall|j: int|
            0 <= j < connection_keys().len() ==> c@[name].contains_key(
                #[trigger] connection_keys()[j],
            ) && c@[name][connection_keys()[j]] is Some,
{
    let ks = connection_keys();
    if c@.contains_key(name) && forall|j: int|
        0 <= j < ks.len() ==> c@[name].contains_key(#[trigger] ks[j]) && c@[name][ks[j]] is Some {
        assert(ks[0] == key_system());
        assert(ks[1] == key_host());
        assert(ks[2] == key_port());
        assert(ks[3] == key_username());
        assert(ks[4] == key_password());
        assert(ks[5] == key_database());
        assert(ks[6] == key_namespace());
    }
}

/// Checks the connection named on the command line against the loaded
/// configuration, and gives back its name when it may be used: when the
/// configuration was read, has a section of that name that gives every
/// connection setting a value, and the name is not empty.
pub fn validate_connection(connection: Option<String>, config_loaded: Result<Config, String>) -> (r:
    Result<String, &'static str>)
    requires
        config_loaded matches Ok(c) ==> c.wf(),
    ensures
        match connection {
            None => r matches Err(e) && e@ == "--connection not set"@,
            Some(n) => if config_loaded matches Ok(c) && c.has_connection(n@) && n@.len() > 0 {
                r matches Ok(name) && name@ == n@
            } else {
                r matches Err(e) && e@ == "Connection not found"@
            },
        },
{
    match connection {
        Some(connection_value) => {
            let connection_name = connection_value;
            match config_loaded {
                Ok(config) => {
                    if config.has_connection_settings(&connection_name) {
                        // Validate connection is the right struct
                        let connection = Connection::from_config(connection_name.clone(), &config);
                        if connection.name.as_str().is_empty() {
                            return Err("Connection not found");
                        }
                        Ok(connection_name)
                    } else {
                        Err("Connection not found")
                    }
                },
                Err(_) => Err("Connection not found"),
            }
        },
        None => Err("--connection not set"),
    }
}

/// What `configparser`'s `Ini::read` (with the settings of `Ini::new`) gives
/// for a text: each section with its keys and optional values, or an error
/// message.
pub uninterp spec fn ini_read(text: Seq<char>) -> Result<
    Map<Seq<char>, Map<Seq<char>, Option<Seq<char>>>>,
    Seq<char>,
>;

/// `configparser::ini::Ini::read` on a fresh `Ini::new()`. Its result, a
/// function of the text alone, is named `ini_read`; the parsed map is copied
/// section by section and key by key into a `Config`, whose names are
/// distinct because they were the keys of hash maps.
#[verifier::external_body]
fn ini_read_text(text: String) -> (r: Result<Config, String>)
    ensures
        match r {
            Ok(c) => c.wf() && ini_read(text@) == Ok::<_, Seq<char>>(c@),
            Err(e) => ini_read(text@) == Err::<Map<Seq<char>, Map<Seq<char>, Option<Seq<char>>>>, _>(
                e@,
            ),
        },
{
    match configparser::ini::Ini::new().read(text) {
        Ok(map) => Ok(Config {
            sections: map.into_iter().map(|(name, entries)| ConfigSection {
                name,
                entries: entries.into_iter().map(|(key, value)| ConfigEntry { key, value }).collect(),
            }).collect(),
        }),
        Err(e) => Err(e),
    }
}

/// Reads the text of a configuration file.
pub fn parse_config(text: String) -> (r: Result<Config, String>)
    ensures
        match r {
            Ok(c) => c.wf() && ini_read(text@) == Ok::<_, Seq<char>>(c@),
            Err(e) => ini_read(text@) == Err::<Map<Seq<char>, Map<Seq<char>, Option<Seq<char>>>>, _>(
                e@,
            ),
        },
{
    ini_read_text(text)
}

} // verus!
