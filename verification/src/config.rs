//! The table of miscellaneous data (settings, cookies) and the `config` command.
use crate::table_map::{distinct_keys, map_of, KeyEq, TableMap, ValueCopy};
use crate::text::{split_once, split_once_spec};
use vstd::prelude::*;

verus! {

/// The key of a row of miscellaneous data: a block, an identifier in it, and a key.
pub struct KeyType {
    pub block: String,
    pub identifier: String,
    pub key: String,
}

pub struct KeyTypeView {
    pub block: Seq<char>,
    pub identifier: Seq<char>,
    pub key: Seq<char>,
}

impl View for KeyType {
    type V = KeyTypeView;

    open spec fn view(&self) -> KeyTypeView {
        KeyTypeView { block: self.block@, identifier: self.identifier@, key: self.key@ }
    }
}

impl KeyEq for KeyType {
    fn key_eq(&self, other: &Self) -> (r: bool) {
        let r = self.block == other.block && self.identifier == other.identifier && self.key
            == other.key;
        proof {
            if self.block@ == other.block@ && self.identifier@ == other.identifier@ && self.key@
                == other.key@ {
                assert(self@ == other@);
            }
        }
        r
    }

    fn key_clone(&self) -> (r: Self) {
        KeyType {
            block: self.block.clone(),
            identifier: self.identifier.clone(),
            key: self.key.clone(),
        }
    }
}

/// Miscellaneous data, by `KeyType`.
pub struct CommonDataTable {
    map: TableMap<KeyType, String>,
}

impl View for CommonDataTable {
    type V = Map<KeyTypeView, Seq<char>>;

    closed spec fn view(&self) -> Map<KeyTypeView, Seq<char>> {
        self.map@
    }
}

impl CommonDataTable {
    pub closed spec fn wf(&self) -> bool {
        self.map.wf()
    }

    pub fn new() -> (r: CommonDataTable)
        ensures
            r.wf(),
            r@ == Map::<KeyTypeView, Seq<char>>::empty(),
    {
        CommonDataTable { map: TableMap::new() }
    }

    /// Every row.
    pub fn iter(&self) -> (r: Vec<(KeyType, String)>)
        requires
            self.wf(),
        ensures
            distinct_keys(r@),
            map_of(r@) == self@,
    {
        self.map.to_vec()
    }

    /// The value stored under `key`.
    pub fn get(&self, key: &KeyType) -> (r: Option<String>)
        requires
            self.wf(),
        ensures
            match r {
                Some(v) => self@.contains_key(key@) && v@ == self@[key@],
                None => !self@.contains_key(key@),
            },
    {
        self.map.get_copy(key)
    }

    /// Deletes the row of `key`; returns its value.
    pub fn remove(&mut self, key: &KeyType) -> (r: Option<String>)
        requires
            old(self).wf(),
        ensures
            final(self).wf(),
            final(self)@ == old(self)@.remove(key@),
            match r {
                Some(v) => old(self)@.contains_key(key@) && v@ == old(self)@[key@],
                None => !old(self)@.contains_key(key@),
            },
    {
        self.map.remove(key)
    }

    /// Stores `value` under `key`; returns what it replaces.
    pub fn insert(&mut self, key: KeyType, value: String) -> (r: Option<String>)
        requires
            old(self).wf(),
        ensures
            final(self).wf(),
            final(self)@ == old(self)@.insert(key@, value@),
            match r {
                Some(v) => old(self)@.contains_key(key@) && v@ == old(self)@[key@],
                None => !old(self)@.contains_key(key@),
            },
    {
        self.map.insert(key, value)
    }

    /// Stores the cookies of the account `uid`, logged in by `login_type`.
    pub fn store_cookies(&mut self, cookies: String, uid: &str, login_type: &str)
        requires
            old(self).wf(),
        ensures
            final(self).wf(),
            final(self)@ == old(self)@.insert(cookies_key_spec(uid@, login_type@), cookies@),
    {
        let _ = self.insert(cookies_key(uid, login_type), cookies);
    }

    /// The cookies stored for the account `uid`, logged in by `login_type`.
    pub fn cookies_of(&self, uid: &str, login_type: &str) -> (r: Option<String>)
        requires
            self.wf(),
        ensures
            match r {
                Some(v) => self@.contains_key(cookies_key_spec(uid@, login_type@)) && v@
                    == self@[cookies_key_spec(uid@, login_type@)],
                None => !self@.contains_key(cookies_key_spec(uid@, login_type@)),
            },
    {
        self.get(&cookies_key(uid, login_type))
    }
}

impl CommonDataTable {
    /// Stores each row in turn, as an import does; returns, for each row, the
    /// value it replaced.
    pub fn import_rows(&mut self, rows: Vec<(KeyType, String)>) -> (r: Vec<Option<String>>)
        requires
            old(self).wf(),
        ensures
            final(self).wf(),
            final(self)@ == old(self)@.union_prefer_right(map_of(rows@)),
            r@.len() == rows@.len(),
            forall|i: int| #![trigger r@[i]] 0 <= i < r@.len() ==> {
                let before = old(self)@.union_prefer_right(map_of(rows@.take(i)));
                let k = rows@[i].0@;
                match r@[i] {
                    Some(v) => before.contains_key(k) && v@ == before[k],
                    None => !before.contains_key(k),
                }
            },
    {
        let ghost start = self@;
        let ghost all = rows@;
        let mut replaced: Vec<Option<String>> = Vec::new();
        assert(all.take(0) =~= Seq::<(KeyType, String)>::empty());
        assert(start.union_prefer_right(map_of(all.take(0))) =~= start);
        let mut i: usize = 0;
        let n = rows.len();
        while i < n
            invariant
                n == all.len(),
                all == rows@,
                i <= n,
                self.wf(),
                self@ == start.union_prefer_right(map_of(all.take(i as int))),
                replaced@.len() == i,
                forall|j: int| #![trigger replaced@[j]] 0 <= j < i ==> {
                    let before = start.union_prefer_right(map_of(all.take(j)));
                    let k = all[j].0@;
                    match replaced@[j] {
                        Some(v) => before.contains_key(k) && v@ == before[k],
                        None => !before.contains_key(k),
                    }
                },
            decreases n - i,
        {
            let k = rows[i].0.key_clone();
            let v = rows[i].1.clone();
            proof {
                assert(all.take(i + 1) =~= all.take(i as int).push(all[i as int]));
                crate::table_map::lemma_map_of_push(all.take(i as int), all[i as int]);
            }
            let old_value = self.insert(k, v);
            proof {
                assert(self@ =~= start.union_prefer_right(map_of(all.take(i + 1))));
            }
            replaced.push(old_value);
            i += 1;
        }
        assert(all.take(n as int) =~= all);
        replaced
    }
}

/// The key under which the cookies of an account are kept.
pub open spec fn cookies_key_spec(uid: Seq<char>, login_type: Seq<char>) -> KeyTypeView {
    KeyTypeView { block: "cookies"@, identifier: login_type, key: uid }
}

pub fn cookies_key(uid: &str, login_type: &str) -> (r: KeyType)
    ensures
        r@ == cookies_key_spec(uid@, login_type@),
{
    KeyType {
        block: String::from_str("cookies"),
        identifier: String::from_str(login_type),
        key: String::from_str(uid),
    }
}

/// The key of a setting: an identifier and a key within it.
pub struct ConfigKey {
    identifier: String,
    key: String,
}

pub struct ConfigKeyView {
    pub identifier: Seq<char>,
    pub key: Seq<char>,
}

impl View for ConfigKey {
    type V = ConfigKeyView;

    closed spec fn view(&self) -> ConfigKeyView {
        ConfigKeyView { identifier: self.identifier@, key: self.key@ }
    }
}

/// The row key under which a setting is kept.
pub open spec fn config_key_type(k: ConfigKeyView) -> KeyTypeView {
    KeyTypeView { block: "config"@, identifier: k.identifier, key: k.key }
}

impl ConfigKey {
    pub fn into_identifier_key(self) -> (r: (String, String))
        ensures
            r.0@ == self@.identifier,
            r.1@ == self@.key,
    {
        (self.identifier, self.key)
    }

    pub fn from_identifier_key(identifier_key: (String, String)) -> (r: ConfigKey)
        ensures
            r@ == (ConfigKeyView { identifier: identifier_key.0@, key: identifier_key.1@ }),
    {
        ConfigKey { identifier: identifier_key.0, key: identifier_key.1 }
    }

    /// The row key of this setting in the table of miscellaneous data.
    pub fn to_key_type(self) -> (r: KeyType)
        ensures
            r@ == config_key_type(self@),
    {
        KeyType { block: String::from_str("config"), identifier: self.identifier, key: self.key }
    }

    /// The value of this setting.
    pub fn get(self, table: &CommonDataTable) -> (r: Option<String>)
        requires
            table.wf(),
        ensures
            match r {
                Some(v) => table@.contains_key(config_key_type(self@)) && v@ == table@[config_key_type(self@)],
                None => !table@.contains_key(config_key_type(self@)),
            },
    {
        table.get(&self.to_key_type())
    }

    /// Unsets this setting; returns its value.
    pub fn remove(self, table: &mut CommonDataTable) -> (r: Option<String>)
        requires
            old(table).wf(),
        ensures
            final(table).wf(),
            final(table)@ == old(table)@.remove(config_key_type(self@)),
            match r {
                Some(v) => old(table)@.contains_key(config_key_type(self@)) && v@ == old(table)@[config_key_type(self@)],
                None => !old(table)@.contains_key(config_key_type(self@)),
            },
    {
        table.remove(&self.to_key_type())
    }

    /// Sets this setting to `value`; returns the value it replaces.
    pub fn insert(self, table: &mut CommonDataTable, value: String) -> (r: Option<String>)
        requires
            old(table).wf(),
        ensures
            final(table).wf(),
            final(table)@ == old(table)@.insert(config_key_type(self@), value@),
            match r {
                Some(v) => old(table)@.contains_key(config_key_type(self@)) && v@ == old(table)@[config_key_type(self@)],
                None => !old(table)@.contains_key(config_key_type(self@)),
            },
    {
        table.insert(self.to_key_type(), value)
    }
}

/// The `config` command: get, set or unset the setting `key`, written
/// `identifier.key`; `identifier` is `default` where it is left out.
pub enum ConfigParser {
    Get { key: String },
    SetValue { key: String, value: String },
    Unset { key: String },
}

/// A setting key that names one setting: after its first `.` no other follows.
pub open spec fn valid_config_key(key: Seq<char>) -> bool {
    match split_once_spec(key, '.') {
        Some((_, k)) => !k.contains('.'),
        None => true,
    }
}

/// The setting named by `identifier.key`, or by `key` in the identifier `default`.
pub open spec fn parse_key_spec(key: Seq<char>) -> ConfigKeyView {
    match split_once_spec(key, '.') {
        Some((i, k)) => ConfigKeyView { identifier: i, key: k },
        None => ConfigKeyView { identifier: "default"@, key },
    }
}

impl ConfigParser {
    /// Reads `identifier.key`, or `key` alone in the identifier `default`.
    pub fn parse_key(key: String) -> (r: ConfigKey)
        requires
            valid_config_key(key@),
        ensures
            r@ == parse_key_spec(key@),
    {
        match split_once(key.as_str(), '.') {
            Some((identifier, k)) => ConfigKey::from_identifier_key((identifier, k)),
            None => ConfigKey::from_identifier_key((String::from_str("default"), key)),
        }
    }

    /// The setting key that the command names.
    pub open spec fn spec_key(&self) -> Seq<char> {
        match self {
            ConfigParser::Get { key } => key@,
            ConfigParser::SetValue { key, .. } => key@,
            ConfigParser::Unset { key } => key@,
        }
    }
}

/// The `config` command.
pub struct ConfigCmdApp {}

impl ConfigCmdApp {
    /// Runs a `config` command on the settings: `Get` returns the value of the
    /// setting, `SetValue` stores the value and `Unset` deletes the setting, each
    /// returning the value that was there before.
    pub fn run(table: &mut CommonDataTable, cmd: ConfigParser) -> (r: Option<String>)
        requires
            old(table).wf(),
            valid_config_key(cmd.spec_key()),
        ensures
            final(table).wf(),
            final(table)@ == config_step(old(table)@, cmd).1,
            match r {
                Some(v) => config_step(old(table)@, cmd).0 == Some(v@),
                None => config_step(old(table)@, cmd).0 is None,
            },
    {
        match cmd {
            ConfigParser::Get { key } => ConfigParser::parse_key(key).get(table),
            ConfigParser::SetValue { key, value } => ConfigParser::parse_key(key).insert(table, value),
            ConfigParser::Unset { key } => ConfigParser::parse_key(key).remove(table),
        }
    }
}

/// A `config` command run on settings `t`, as `ConfigCmdApp::run` states: the
/// value it returns and the settings after it.
pub open spec fn config_step(t: Map<KeyTypeView, Seq<char>>, cmd: ConfigParser) -> (
    Option<Seq<char>>,
    Map<KeyTypeView, Seq<char>>,
) {
    let k = config_key_type(parse_key_spec(cmd.spec_key()));
    let before = if t.contains_key(k) {
        Some(t[k])
    } else {
        None
    };
    (before, match cmd {
        ConfigParser::Get { .. } => t,
        ConfigParser::SetValue { value, .. } => t.insert(k, value@),
        ConfigParser::Unset { .. } => t.remove(k),
    })
}

/// Of `ConfigCmdApp::run`: after a setting is set, getting a key that names the
/// same setting gives the value set, and getting one that names another setting gives what it gave
/// before; after a setting is unset, getting it gives nothing.
pub proof fn lemma_config_get_after_set(
    t: Map<KeyTypeView, Seq<char>>,
    set: ConfigParser,
    get: ConfigParser,
)
    requires
        get is Get,
    ensures
        set matches ConfigParser::SetValue { value, .. } ==> {
            let after = config_step(t, set).1;
            if parse_key_spec(set.spec_key()) == parse_key_spec(get.spec_key()) {
                config_step(after, get).0 == Some(value@)
            } else {
                config_step(after, get).0 == config_step(t, get).0
            }
        },
        set is Unset && parse_key_spec(set.spec_key()) == parse_key_spec(get.spec_key()) ==> config_step(
            config_step(t, set).1,
            get,
        ).0 is None,
{
    let kg = config_key_type(parse_key_spec(get.spec_key()));
    let ks = config_key_type(parse_key_spec(set.spec_key()));
    if parse_key_spec(set.spec_key()) != parse_key_spec(get.spec_key()) {
        assert(kg != ks);
    }
}

} // verus!
