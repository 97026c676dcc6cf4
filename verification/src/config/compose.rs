//! The model of a docker compose file and the queries made on it.
//!
//! Each named table of the file (services, networks, volumes, build
//! arguments, an environment given as a mapping) is held as a vector of
//! `(name, value)` entries. A compose file names each entry once, which
//! `well_formed` states; queries that look a name up take its first entry.
use vstd::prelude::*;
use vstd::string::*;
use crate::text::str_eq;

verus! {

/// A docker compose file.
#[derive(Debug)]
pub struct DockerCompose {
    pub version: Option<String>,
    pub services: Vec<(String, Service)>,
    pub networks: Option<Vec<(String, Network)>>,
    pub volumes: Option<Vec<(String, Volume)>>,
}

/// One service of a compose file.
#[derive(Debug)]
pub struct Service {
    pub image: Option<String>,
    pub build: Option<BuildConfig>,
    pub ports: Vec<String>,
    pub environment: Option<Environment>,
    pub volumes: Vec<String>,
    pub depends_on: Vec<String>,
    pub command: Option<String>,
    pub container_name: Option<String>,
    pub restart: Option<String>,
    pub networks: Vec<String>,
}

/// How a service is built from source.
#[derive(Debug)]
pub enum BuildConfig {
    Simple(String),
    Detailed { context: String, dockerfile: Option<String>, args: Option<Vec<(String, String)>> },
}

/// The environment of a service, as a list of `KEY=VALUE` items or as a
/// mapping.
#[derive(Debug)]
pub enum Environment {
    List(Vec<String>),
    Mapping(Vec<(String, String)>),
}

/// A network of a compose file.
#[derive(Debug)]
pub struct Network {
    pub driver: Option<String>,
    pub external: Option<bool>,
}

/// A volume of a compose file.
#[derive(Debug)]
pub struct Volume {
    pub driver: Option<String>,
    pub external: Option<bool>,
}

/// The names of a table's entries.
pub open spec fn entry_names<V>(entries: Seq<(String, V)>) -> Seq<Seq<char>> {
    entries.map_values(|e: (String, V)| e.0@)
}

impl BuildConfig {
    /// Build arguments are named once each, as in the file.
    pub open spec fn well_formed(self) -> bool {
        match self {
            BuildConfig::Detailed { args: Some(a), .. } => names_unique(a@),
            _ => true,
        }
    }
}

impl Environment {
    /// A mapping names each variable once, as in the file.
    pub open spec fn well_formed(self) -> bool {
        match self {
            Environment::Mapping(m) => names_unique(m@),
            Environment::List(_) => true,
        }
    }
}

impl Service {
    /// The named tables inside the service name each entry once.
    pub open spec fn well_formed(self) -> bool {
        &&& (self.build matches Some(b) ==> b.well_formed())
        &&& (self.environment matches Some(e) ==> e.well_formed())
    }
}

impl DockerCompose {
    /// Each table of the file (services, networks, volumes) names each
    /// entry once, as a compose file does, and each service is well formed.
    pub open spec fn well_formed(self) -> bool {
        &&& names_unique(self.services@)
        &&& (self.networks matches Some(n) ==> names_unique(n@))
        &&& (self.volumes matches Some(v) ==> names_unique(v@))
        &&& forall|i: int| 0 <= i < self.services@.len() ==> (#[trigger] self.services@[i]).1.well_formed()
    }
}

/// Entry `k` is the first entry named `key`.
pub open spec fn first_match<V>(entries: Seq<(String, V)>, key: Seq<char>, k: int) -> bool {
    &&& 0 <= k < entries.len()
    &&& entries[k].0@ == key
    &&& forall|j: int| 0 <= j < k ==> entries[j].0@ != key
}

/// The value of the first entry named `key`, if there is one.
pub open spec fn lookup<V>(entries: Seq<(String, V)>, key: Seq<char>) -> Option<V> {
    if exists|k: int| first_match(entries, key, k) {
        Some(entries[choose|k: int| first_match(entries, key, k)].1)
    } else {
        None
    }
}

/// No two entries carry the same name, as in the file the entries come from.
pub open spec fn names_unique<V>(entries: Seq<(String, V)>) -> bool {
    forall|i: int, j: int| 0 <= i < j < entries.len() ==> entries[i].0@ != entries[j].0@
}

/// There is at most one first entry for a name.
pub proof fn lemma_first_match_unique<V>(entries: Seq<(String, V)>, key: Seq<char>, k1: int, k2: int)
    requires
        first_match(entries, key, k1),
        first_match(entries, key, k2),
    ensures
        k1 == k2,
{
    if k1 < k2 {
        assert(entries[k1].0@ == key);
    } else if k2 < k1 {
        assert(entries[k2].0@ == key);
    }
}

/// A name that some entry carries has a first entry.
pub proof fn lemma_first_match_exists<V>(entries: Seq<(String, V)>, key: Seq<char>, i: int)
    requires
        0 <= i < entries.len(),
        entries[i].0@ == key,
    ensures
        exists|k: int| first_match(entries, key, k),
    decreases i,
{
    if forall|j: int| 0 <= j < i ==> entries[j].0@ != key {
        assert(first_match(entries, key, i));
    } else {
        let j = choose|j: int| 0 <= j < i && entries[j].0@ == key;
        lemma_first_match_exists(entries, key, j);
    }
}

/// A name is found exactly when some entry carries it.
pub proof fn lemma_lookup_none_iff_absent<V>(entries: Seq<(String, V)>, key: Seq<char>)
    ensures
        lookup(entries, key) is None <==> (forall|i: int| 0 <= i < entries.len() ==> #[trigger] entries[i].0@ != key),
{
    if !(forall|i: int| 0 <= i < entries.len() ==> #[trigger] entries[i].0@ != key) {
        let i = choose|i: int| 0 <= i < entries.len() && entries[i].0@ == key;
        lemma_first_match_exists(entries, key, i);
    }
}

/// Where names are unique, looking up the name of an entry finds that
/// entry's value.
pub proof fn lemma_lookup_unique_names<V>(entries: Seq<(String, V)>, i: int)
    requires
        names_unique(entries),
        0 <= i < entries.len(),
    ensures
        lookup(entries, entries[i].0@) == Some(entries[i].1),
{
    let key = entries[i].0@;
    assert(first_match(entries, key, i));
    let k = choose|k: int| first_match(entries, key, k);
    lemma_first_match_unique(entries, key, i, k);
}

/// `service` lists `target` among the services it depends on.
pub open spec fn depends_on(service: Service, target: Seq<char>) -> bool {
    exists|j: int| 0 <= j < service.depends_on@.len() && service.depends_on@[j]@ == target
}

/// A service depends on `target` exactly when its list of dependencies
/// holds `target` as a whole element (a dependency whose name merely
/// contains `target` does not count).
pub proof fn lemma_depends_on_whole_name(service: Service, target: Seq<char>)
    ensures
        depends_on(service, target) == string_views(service.depends_on@).contains(target),
{
    let v = string_views(service.depends_on@);
    if depends_on(service, target) {
        let j = choose|j: int| 0 <= j < service.depends_on@.len() && service.depends_on@[j]@ == target;
        assert(v[j] == target);
    }
    if v.contains(target) {
        let j = choose|j: int| 0 <= j < v.len() && v[j] == target;
        assert(service.depends_on@[j]@ == target);
    }
}

/// The names of the entries whose service depends on `target`, in order.
pub open spec fn dependents(entries: Seq<(String, Service)>, target: Seq<char>) -> Seq<Seq<char>>
    decreases entries.len(),
{
    if entries.len() == 0 {
        Seq::empty()
    } else {
        let before = dependents(entries.drop_last(), target);
        if depends_on(entries.last().1, target) {
            before.push(entries.last().0@)
        } else {
            before
        }
    }
}

/// Entry `i` is named `name` and its service depends on `target`.
pub open spec fn dependent_at(entries: Seq<(String, Service)>, target: Seq<char>, name: Seq<char>, i: int) -> bool {
    &&& 0 <= i < entries.len()
    &&& entries[i].0@ == name
    &&& depends_on(entries[i].1, target)
}

/// The dependents of `target` are the names of exactly those entries whose
/// service depends on `target`.
pub proof fn lemma_dependents_membership(entries: Seq<(String, Service)>, target: Seq<char>, name: Seq<char>)
    ensures
        dependents(entries, target).contains(name)
            <==> exists|i: int| #[trigger] dependent_at(entries, target, name, i),
    decreases entries.len(),
{
    if entries.len() > 0 {
        let front = entries.drop_last();
        let last = entries.len() - 1;
        lemma_dependents_membership(front, target, name);
        let before = dependents(front, target);
        assert((exists|i: int| #[trigger] dependent_at(entries, target, name, i))
            == ((exists|i: int| #[trigger] dependent_at(front, target, name, i)) || dependent_at(entries, target, name, last))) by {
            if exists|i: int| #[trigger] dependent_at(entries, target, name, i) {
                let i = choose|i: int| #[trigger] dependent_at(entries, target, name, i);
                if i < last {
                    assert(dependent_at(front, target, name, i));
                }
            }
            if exists|i: int| #[trigger] dependent_at(front, target, name, i) {
                let i = choose|i: int| #[trigger] dependent_at(front, target, name, i);
                assert(dependent_at(entries, target, name, i));
            }
        }
        if depends_on(entries.last().1, target) {
            let after = before.push(entries.last().0@);
            assert(after.contains(name) == (before.contains(name) || entries.last().0@ == name)) by {
                if after.contains(name) {
                    let k = choose|k: int| 0 <= k < after.len() && after[k] == name;
                    if k < before.len() {
                        assert(before[k] == name);
                    }
                }
                if before.contains(name) {
                    let k = choose|k: int| 0 <= k < before.len() && before[k] == name;
                    assert(after[k] == name);
                }
                if entries.last().0@ == name {
                    assert(after[after.len() - 1] == name);
                }
            }
        }
    }
}

/// The dependents of `target` are the names of exactly those entries whose
/// list of dependencies holds `target` as a whole element.
pub proof fn lemma_dependents_exactly(entries: Seq<(String, Service)>, target: Seq<char>, name: Seq<char>)
    ensures
        dependents(entries, target).contains(name) <==> exists|i: int| 0 <= i < entries.len()
            && #[trigger] entries[i].0@ == name && string_views(entries[i].1.depends_on@).contains(target),
{
    lemma_dependents_membership(entries, target, name);
    assert forall|i: int| 0 <= i < entries.len() implies
        depends_on(#[trigger] entries[i].1, target) == string_views(entries[i].1.depends_on@).contains(target) by {
        lemma_depends_on_whole_name(entries[i].1, target);
    }
    if dependents(entries, target).contains(name) {
        let i = choose|i: int| #[trigger] dependent_at(entries, target, name, i);
        assert(entries[i].0@ == name);
    }
    if exists|i: int| 0 <= i < entries.len()
        && #[trigger] entries[i].0@ == name && string_views(entries[i].1.depends_on@).contains(target) {
        let i = choose|i: int| 0 <= i < entries.len()
            && #[trigger] entries[i].0@ == name && string_views(entries[i].1.depends_on@).contains(target);
        assert(dependent_at(entries, target, name, i));
    }
}

/// Where the entries are named once each, no name is listed twice among
/// the dependents.
pub proof fn lemma_dependents_no_duplicates(entries: Seq<(String, Service)>, target: Seq<char>)
    requires
        names_unique(entries),
    ensures
        dependents(entries, target).no_duplicates(),
    decreases entries.len(),
{
    if entries.len() > 0 {
        let front = entries.drop_last();
        let last = entries.len() - 1;
        assert(names_unique(front));
        lemma_dependents_no_duplicates(front, target);
        let before = dependents(front, target);
        if depends_on(entries.last().1, target) {
            let name = entries.last().0@;
            lemma_dependents_membership(front, target, name);
            if before.contains(name) {
                let i = choose|i: int| #[trigger] dependent_at(front, target, name, i);
                assert(entries[i] == front[i]);
                assert(entries[last].0@ == name);
            }
            let after = before.push(name);
            assert forall|a: int, b: int| 0 <= a < after.len() && 0 <= b < after.len() && a != b
                implies after[a] != after[b] by {
                if a == before.len() && b < before.len() {
                    assert(after[b] == before[b]);
                } else if b == before.len() && a < before.len() {
                    assert(after[a] == before[a]);
                } else {
                    assert(after[a] == before[a]);
                    assert(after[b] == before[b]);
                }
            }
        }
    }
}

/// The entries whose service exposes at least one port, in order.
pub open spec fn with_ports(entries: Seq<(String, Service)>) -> Seq<(String, Service)>
    decreases entries.len(),
{
    if entries.len() == 0 {
        Seq::empty()
    } else {
        let before = with_ports(entries.drop_last());
        if entries.last().1.ports@.len() > 0 {
            before.push(entries.last())
        } else {
            before
        }
    }
}

/// The entries with ports are exactly the entries whose service exposes
/// at least one port.
pub proof fn lemma_with_ports_membership(entries: Seq<(String, Service)>, e: (String, Service))
    ensures
        with_ports(entries).contains(e) <==> (entries.contains(e) && e.1.ports@.len() > 0),
    decreases entries.len(),
{
    if entries.len() > 0 {
        let front = entries.drop_last();
        lemma_with_ports_membership(front, e);
        let before = with_ports(front);
        if front.contains(e) {
            let i = choose|i: int| 0 <= i < front.len() && front[i] == e;
            assert(entries[i] == e);
        }
        if entries.contains(e) {
            let i = choose|i: int| 0 <= i < entries.len() && entries[i] == e;
            if i < entries.len() - 1 {
                assert(front[i] == e);
            }
        }
        if entries.last().1.ports@.len() > 0 {
            let after = before.push(entries.last());
            if after.contains(e) {
                let k = choose|k: int| 0 <= k < after.len() && after[k] == e;
                if k < before.len() {
                    assert(before[k] == e);
                }
            }
            if e == entries.last() {
                assert(after[after.len() - 1] == e);
            }
            if before.contains(e) {
                let k = choose|k: int| 0 <= k < before.len() && before[k] == e;
                assert(after[k] == e);
            }
        }
    }
}

/// Where the entries are named once each, so are the entries with ports.
pub proof fn lemma_with_ports_names_unique(entries: Seq<(String, Service)>)
    requires
        names_unique(entries),
    ensures
        names_unique(with_ports(entries)),
    decreases entries.len(),
{
    if entries.len() > 0 {
        let front = entries.drop_last();
        let last = entries.len() - 1;
        assert(names_unique(front));
        lemma_with_ports_names_unique(front);
        let before = with_ports(front);
        if entries.last().1.ports@.len() > 0 {
            let after = before.push(entries.last());
            assert forall|k: int| 0 <= k < before.len() implies #[trigger] before[k].0@ != entries[last].0@ by {
                lemma_with_ports_membership(front, before[k]);
                assert(before.contains(before[k]));
                let i = choose|i: int| 0 <= i < front.len() && front[i] == before[k];
                assert(entries[i] == front[i]);
            }
            assert forall|a: int, b: int| 0 <= a < b < after.len()
                implies after[a].0@ != after[b].0@ by {
                assert(after[a] == before[a]);
                if b < before.len() {
                    assert(after[b] == before[b]);
                }
            }
        }
    }
}

/// Whether one of `items` equals `s`.
fn contains_string(items: &Vec<String>, s: &str) -> (res: bool)
    ensures
        res == exists|j: int| 0 <= j < items@.len() && items@[j]@ == s@,
{
    let n = items.len();
    let mut i: usize = 0;
    while i < n
        invariant
            n == items@.len(),
            i <= n,
            forall|j: int| 0 <= j < i ==> items@[j]@ != s@,
        decreases n - i,
    {
        if str_eq(items[i].as_str(), s) {
            return true;
        }
        i += 1;
    }
    false
}

/// Position `i` holds the first `=` of `s`.
pub open spec fn first_equals_at(s: Seq<char>, i: int) -> bool {
    &&& 0 <= i < s.len()
    &&& s[i] == '='
    &&& forall|j: int| 0 <= j < i ==> s[j] != '='
}

/// A `KEY=VALUE` item split at its first `=`; `None` for an item without `=`.
pub open spec fn split_assignment(s: Seq<char>) -> Option<(Seq<char>, Seq<char>)> {
    if exists|i: int| first_equals_at(s, i) {
        let i = choose|i: int| first_equals_at(s, i);
        Some((s.take(i), s.skip(i + 1)))
    } else {
        None
    }
}

/// The variables that a list of `KEY=VALUE` items defines: items without
/// `=` are skipped, and a later item for a key replaces an earlier one.
pub open spec fn list_env(items: Seq<Seq<char>>) -> Map<Seq<char>, Seq<char>>
    decreases items.len(),
{
    if items.len() == 0 {
        Map::empty()
    } else {
        let before = list_env(items.drop_last());
        match split_assignment(items.last()) {
            Some(kv) => before.insert(kv.0, kv.1),
            None => before,
        }
    }
}

/// The key an item assigns (empty for an item without `=`).
pub open spec fn assigned_key(s: Seq<char>) -> Seq<char> {
    match split_assignment(s) {
        Some(kv) => kv.0,
        None => Seq::empty(),
    }
}

/// The value an item assigns (empty for an item without `=`).
pub open spec fn assigned_value(s: Seq<char>) -> Seq<char> {
    match split_assignment(s) {
        Some(kv) => kv.1,
        None => Seq::empty(),
    }
}

/// Item `i` of `items` assigns a value to `key`.
pub open spec fn assigns(items: Seq<Seq<char>>, key: Seq<char>, i: int) -> bool {
    &&& 0 <= i < items.len()
    &&& split_assignment(items[i]) is Some
    &&& assigned_key(items[i]) == key
}

/// A list of `KEY=VALUE` items defines exactly the keys that some item
/// assigns, and each such key takes the value of the last item that
/// assigns it.
pub proof fn lemma_list_env_last_wins(items: Seq<Seq<char>>, key: Seq<char>)
    ensures
        list_env(items).dom().contains(key) <==> exists|i: int| #[trigger] assigns(items, key, i),
        forall|i: int| #[trigger] assigns(items, key, i)
            && (forall|j: int| i < j < items.len() ==> !assigns(items, key, j))
            ==> list_env(items)[key] == assigned_value(items[i]),
    decreases items.len(),
{
    if items.len() > 0 {
        let front = items.drop_last();
        let last = items.len() - 1;
        lemma_list_env_last_wins(front, key);
        assert(items.last() == items[last]);
        assert(list_env(items).dom().contains(key)
            == (list_env(front).dom().contains(key) || assigns(items, key, last)));
        assert forall|i: int| 0 <= i < last implies #[trigger] assigns(items, key, i) == assigns(front, key, i) by {
            assert(items[i] == front[i]);
        }
        if exists|i: int| #[trigger] assigns(items, key, i) {
            let i = choose|i: int| #[trigger] assigns(items, key, i);
            if i < last {
                assert(assigns(front, key, i));
            }
        }
        if exists|i: int| #[trigger] assigns(front, key, i) {
            let i = choose|i: int| #[trigger] assigns(front, key, i);
            assert(assigns(items, key, i));
        }
        assert forall|i: int| #[trigger] assigns(items, key, i)
            && (forall|j: int| i < j < items.len() ==> !assigns(items, key, j))
            implies list_env(items)[key] == assigned_value(items[i]) by {
            if i < last {
                assert(!assigns(items, key, last));
                assert(assigns(front, key, i));
                assert forall|j: int| i < j < front.len() implies !assigns(front, key, j) by {
                    assert(!assigns(items, key, j));
                }
            }
        }
    }
}

/// The mapping that a vector of `(key, value)` pairs stands for.
pub open spec fn pairs_map(pairs: Seq<(String, String)>) -> Map<Seq<char>, Seq<char>>
    decreases pairs.len(),
{
    if pairs.len() == 0 {
        Map::empty()
    } else {
        pairs_map(pairs.drop_last()).insert(pairs.last().0@, pairs.last().1@)
    }
}

/// With unique keys, the mapping of a vector of pairs holds exactly its
/// keys, each with the value paired with it.
pub proof fn lemma_pairs_map_unique(pairs: Seq<(String, String)>, key: Seq<char>)
    requires
        names_unique(pairs),
    ensures
        pairs_map(pairs).dom().contains(key) <==> exists|i: int| 0 <= i < pairs.len() && #[trigger] pairs[i].0@ == key,
        forall|i: int| 0 <= i < pairs.len() && #[trigger] pairs[i].0@ == key ==> pairs_map(pairs)[key] == pairs[i].1@,
    decreases pairs.len(),
{
    if pairs.len() > 0 {
        let front = pairs.drop_last();
        let last = pairs.len() - 1;
        assert(names_unique(front));
        lemma_pairs_map_unique(front, key);
        assert(pairs.last() == pairs[last]);
        if exists|i: int| 0 <= i < front.len() && #[trigger] front[i].0@ == key {
            let i = choose|i: int| 0 <= i < front.len() && #[trigger] front[i].0@ == key;
            assert(pairs[i] == front[i]);
        }
        if exists|i: int| 0 <= i < pairs.len() && #[trigger] pairs[i].0@ == key {
            let i = choose|i: int| 0 <= i < pairs.len() && #[trigger] pairs[i].0@ == key;
            if i < last {
                assert(front[i] == pairs[i]);
            }
        }
        assert forall|i: int| 0 <= i < pairs.len() && #[trigger] pairs[i].0@ == key
            implies pairs_map(pairs)[key] == pairs[i].1@ by {
            if i < last {
                assert(front[i] == pairs[i]);
                assert(pairs[last].0@ != key);
            }
        }
    }
}

/// The `KEY=VALUE` item that writes the pair `(key, value)`.
pub open spec fn assignment_text(key: Seq<char>, value: Seq<char>) -> Seq<char> {
    key + seq!['='] + value
}

/// No `=` occurs in `s`.
pub open spec fn has_no_equals(s: Seq<char>) -> bool {
    forall|i: int| 0 <= i < s.len() ==> #[trigger] s[i] != '='
}

/// An item written from a key without `=` splits back into its key and
/// value.
pub proof fn lemma_split_assignment_text(key: Seq<char>, value: Seq<char>)
    requires
        has_no_equals(key),
    ensures
        split_assignment(assignment_text(key, value)) == Some((key, value)),
{
    let t = assignment_text(key, value);
    let n = key.len() as int;
    assert(t[n] == '=');
    assert forall|j: int| 0 <= j < n implies t[j] != '=' by {
        assert(t[j] == key[j]);
    }
    assert(first_equals_at(t, n));
    let k = choose|k: int| first_equals_at(t, k);
    assert(k == n) by {
        if k < n {
            assert(t[k] == key[k]);
        } else if k > n {
            assert(t[n] == '=');
        }
    }
    assert(t.take(n) =~= key);
    assert(t.skip(n + 1) =~= value);
}

/// An item is split exactly when it holds a `=`; the key is then the text
/// before the first `=`, which holds no `=`, and the value all the text
/// after it.
pub proof fn lemma_split_assignment_shape(s: Seq<char>)
    ensures
        (split_assignment(s) is None) == has_no_equals(s),
        split_assignment(s) matches Some(kv) ==> {
            &&& has_no_equals(kv.0)
            &&& s == assignment_text(kv.0, kv.1)
        },
{
    if !has_no_equals(s) {
        let i0 = choose|i: int| 0 <= i < s.len() && s[i] == '=';
        assert(exists|i: int| first_equals_at(s, i)) by {
            lemma_first_equals_exists(s, i0);
        }
    }
    if exists|i: int| first_equals_at(s, i) {
        let i = choose|i: int| first_equals_at(s, i);
        assert(s[i] == '=');
        assert(s =~= assignment_text(s.take(i), s.skip(i + 1)));
    }
}

proof fn lemma_first_equals_exists(s: Seq<char>, i: int)
    requires
        0 <= i < s.len(),
        s[i] == '=',
    ensures
        exists|k: int| first_equals_at(s, k),
    decreases i,
{
    if forall|j: int| 0 <= j < i ==> s[j] != '=' {
        assert(first_equals_at(s, i));
    } else {
        let j = choose|j: int| 0 <= j < i && s[j] == '=';
        lemma_first_equals_exists(s, j);
    }
}

/// Where some item assigns `key`, one of them is the last to do so.
pub proof fn lemma_last_assignment_exists(items: Seq<Seq<char>>, key: Seq<char>, i: int)
    requires
        assigns(items, key, i),
    ensures
        exists|k: int| #[trigger] assigns(items, key, k)
            && (forall|j: int| k < j < items.len() ==> !assigns(items, key, j)),
    decreases items.len() - i,
{
    if exists|j: int| i < j < items.len() && #[trigger] assigns(items, key, j) {
        let j = choose|j: int| i < j < items.len() && #[trigger] assigns(items, key, j);
        lemma_last_assignment_exists(items, key, j);
    } else {
        assert(forall|j: int| i < j < items.len() ==> !assigns(items, key, j));
    }
}

/// Every item of `items` writes some pair of `pairs`, and every pair is
/// written by some item.
#[verifier::opaque]
pub open spec fn writes_each_pair(pairs: Seq<(String, String)>, items: Seq<Seq<char>>) -> bool {
    &&& forall|i: int| 0 <= i < items.len() ==> exists|j: int|
        0 <= j < pairs.len() && #[trigger] items[i] == assignment_text(pairs[j].0@, pairs[j].1@)
    &&& forall|j: int| 0 <= j < pairs.len() ==> exists|i: int|
        0 <= i < items.len() && items[i] == assignment_text(#[trigger] pairs[j].0@, pairs[j].1@)
}

proof fn lemma_item_writes(pairs: Seq<(String, String)>, items: Seq<Seq<char>>, i: int) -> (j: int)
    requires
        writes_each_pair(pairs, items),
        0 <= i < items.len(),
    ensures
        0 <= j < pairs.len(),
        items[i] == assignment_text(pairs[j].0@, pairs[j].1@),
{
    reveal(writes_each_pair);
    choose|j: int| 0 <= j < pairs.len() && #[trigger] items[i] == assignment_text(pairs[j].0@, pairs[j].1@)
}

proof fn lemma_pair_written(pairs: Seq<(String, String)>, items: Seq<Seq<char>>, j: int) -> (i: int)
    requires
        writes_each_pair(pairs, items),
        0 <= j < pairs.len(),
    ensures
        0 <= i < items.len(),
        items[i] == assignment_text(pairs[j].0@, pairs[j].1@),
{
    reveal(writes_each_pair);
    choose|i: int| 0 <= i < items.len() && items[i] == assignment_text(#[trigger] pairs[j].0@, pairs[j].1@)
}

proof fn lemma_agree_at(pairs: Seq<(String, String)>, items: Seq<Seq<char>>, key: Seq<char>)
    requires
        names_unique(pairs),
        forall|j: int| 0 <= j < pairs.len() ==> has_no_equals(#[trigger] pairs[j].0@),
        writes_each_pair(pairs, items),
    ensures
        list_env(items).dom().contains(key) == pairs_map(pairs).dom().contains(key),
        list_env(items).dom().contains(key) ==> list_env(items)[key] == pairs_map(pairs)[key],
{
    lemma_list_env_last_wins(items, key);
    lemma_pairs_map_unique(pairs, key);
    if exists|i: int| #[trigger] assigns(items, key, i) {
        let i0 = choose|i: int| #[trigger] assigns(items, key, i);
        lemma_last_assignment_exists(items, key, i0);
        let i = choose|k: int| #[trigger] assigns(items, key, k)
            && (forall|j: int| k < j < items.len() ==> !assigns(items, key, j));
        let j = lemma_item_writes(pairs, items, i);
        lemma_split_assignment_text(pairs[j].0@, pairs[j].1@);
        assert(pairs[j].0@ == key);
        assert(list_env(items)[key] == assigned_value(items[i]));
    }
    if exists|j: int| 0 <= j < pairs.len() && #[trigger] pairs[j].0@ == key {
        let j = choose|j: int| 0 <= j < pairs.len() && #[trigger] pairs[j].0@ == key;
        let i = lemma_pair_written(pairs, items, j);
        lemma_split_assignment_text(pairs[j].0@, pairs[j].1@);
        assert(assigns(items, key, i));
    }
}

/// An environment written as a list of `KEY=VALUE` items, one for each
/// pair of a mapping (in any order, each at least once), defines the same
/// variables as the mapping, provided its keys are unique and hold no `=`.
pub proof fn lemma_list_and_mapping_agree(pairs: Seq<(String, String)>, items: Seq<Seq<char>>)
    requires
        names_unique(pairs),
        forall|j: int| 0 <= j < pairs.len() ==> has_no_equals(#[trigger] pairs[j].0@),
        writes_each_pair(pairs, items),
    ensures
        list_env(items) == pairs_map(pairs),
{
    assert forall|key: Seq<char>| #[trigger] list_env(items).dom().contains(key)
        == pairs_map(pairs).dom().contains(key) by {
        lemma_agree_at(pairs, items, key);
    }
    assert forall|key: Seq<char>| #[trigger] list_env(items).dom().contains(key)
        implies list_env(items)[key] == pairs_map(pairs)[key] by {
        lemma_agree_at(pairs, items, key);
    }
    assert(list_env(items) =~= pairs_map(pairs));
}

/// The views of a vector of strings.
pub open spec fn string_views(items: Seq<String>) -> Seq<Seq<char>> {
    items.map_values(|s: String| s@)
}

/// Replacing the value of a pair whose key occurs once replaces that key's
/// value in the mapping.
pub proof fn lemma_pairs_map_update(pairs: Seq<(String, String)>, j: int, e: (String, String))
    requires
        names_unique(pairs),
        0 <= j < pairs.len(),
        e.0@ == pairs[j].0@,
    ensures
        pairs_map(pairs.update(j, e)) == pairs_map(pairs).insert(e.0@, e.1@),
    decreases pairs.len(),
{
    let upd = pairs.update(j, e);
    if j == pairs.len() - 1 {
        assert(upd.drop_last() =~= pairs.drop_last());
        assert(pairs_map(upd) =~= pairs_map(pairs).insert(e.0@, e.1@));
    } else {
        let front = pairs.drop_last();
        assert(upd.drop_last() =~= front.update(j, e));
        lemma_pairs_map_update(front, j, e);
        assert(pairs.last().0@ != e.0@);
        assert(pairs_map(upd) =~= pairs_map(pairs).insert(e.0@, e.1@));
    }
}

/// Adds the pair `(key, value)` to `pairs`, replacing the value of an
/// existing pair with that key.
fn insert_pair(pairs: &mut Vec<(String, String)>, key: String, value: String)
    requires
        names_unique(old(pairs)@),
    ensures
        names_unique(final(pairs)@),
        pairs_map(final(pairs)@) == pairs_map(old(pairs)@).insert(key@, value@),
{
    let n = pairs.len();
    let mut i: usize = 0;
    while i < n
        invariant
            n == pairs@.len(),
            i <= n,
            pairs@ == old(pairs)@,
            names_unique(pairs@),
            forall|j: int| 0 <= j < i ==> pairs@[j].0@ != key@,
        decreases n - i,
    {
        if str_eq(pairs[i].0.as_str(), key.as_str()) {
            proof {
                lemma_pairs_map_update(pairs@, i as int, (key, value));
            }
            pairs.set(i, (key, value));
            return;
        }
        i += 1;
    }
    pairs.push((key, value));
    assert(pairs@.drop_last() =~= old(pairs)@);
}

/// Splits a `KEY=VALUE` item at its first `=`.
fn split_item(s: &str) -> (res: Option<(String, String)>)
    ensures
        match res {
            Some(kv) => split_assignment(s@) == Some((kv.0@, kv.1@)),
            None => split_assignment(s@) is None,
        },
{
    let n = s.unicode_len();
    let mut i: usize = 0;
    while i < n
        invariant
            n == s@.len(),
            i <= n,
            forall|j: int| 0 <= j < i ==> s@[j] != '=',
        decreases n - i,
    {
        if s.get_char(i) == '=' {
            let key = String::from_str(s.substring_char(0, i));
            let value = String::from_str(s.substring_char(i + 1, n));
            proof {
                assert(first_equals_at(s@, i as int));
                let k = choose|k: int| first_equals_at(s@, k);
                assert(k == i) by {
                    if k < i {
                        assert(s@[k] == '=');
                    } else if k > i {
                        assert(s@[i as int] == '=');
                    }
                }
                assert(s@.take(i as int) =~= s@.subrange(0, i as int));
                assert(s@.skip(i + 1) =~= s@.subrange(i + 1, n as int));
            }
            return Some((key, value));
        }
        i += 1;
    }
    None
}

impl DockerCompose {
    /// The names of all services, in the order of the entries.
    pub fn service_names(&self) -> (res: Vec<&String>)
        ensures
            res@.len() == self.services@.len(),
            forall|i: int| 0 <= i < res@.len() ==> *res@[i] == self.services@[i].0,
            names_unique(self.services@) ==> res@.map_values(|r: &String| r@).no_duplicates(),
    {
        let mut res: Vec<&String> = Vec::new();
        let n = self.services.len();
        let mut i: usize = 0;
        while i < n
            invariant
                n == self.services@.len(),
                i <= n,
                res@.len() == i,
                forall|j: int| 0 <= j < i ==> *res@[j] == self.services@[j].0,
            decreases n - i,
        {
            res.push(&self.services[i].0);
            i += 1;
        }
        proof {
            let v = res@.map_values(|r: &String| r@);
            assert forall|a: int, b: int| 0 <= a < v.len() && 0 <= b < v.len() && a != b
                && names_unique(self.services@) implies v[a] != v[b] by {
                if a < b {
                    assert(self.services@[a].0@ != self.services@[b].0@);
                } else {
                    assert(self.services@[b].0@ != self.services@[a].0@);
                }
            }
        }
        res
    }

    /// The service named `name`, if any.
    pub fn get_service(&self, name: &str) -> (res: Option<&Service>)
        ensures
            match res {
                Some(s) => lookup(self.services@, name@) == Some(*s),
                None => lookup(self.services@, name@) is None,
            },
    {
        let n = self.services.len();
        let mut i: usize = 0;
        while i < n
            invariant
                n == self.services@.len(),
                i <= n,
                forall|j: int| 0 <= j < i ==> self.services@[j].0@ != name@,
            decreases n - i,
        {
            if str_eq(self.services[i].0.as_str(), name) {
                proof {
                    assert(first_match(self.services@, name@, i as int));
                    let k = choose|k: int| first_match(self.services@, name@, k);
                    lemma_first_match_unique(self.services@, name@, i as int, k);
                }
                return Some(&self.services[i].1);
            }
            i += 1;
        }
        None
    }

    /// The names of all services that depend on `service_name`.
    pub fn get_dependents(&self, service_name: &str) -> (res: Vec<&String>)
        ensures
            res@.map_values(|r: &String| r@) == dependents(self.services@, service_name@),
            names_unique(self.services@) ==> res@.map_values(|r: &String| r@).no_duplicates(),
    {
        let mut res: Vec<&String> = Vec::new();
        let n = self.services.len();
        let mut i: usize = 0;
        while i < n
            invariant
                n == self.services@.len(),
                i <= n,
                res@.map_values(|r: &String| r@) == dependents(self.services@.take(i as int), service_name@),
            decreases n - i,
        {
            let entry = &self.services[i];
            proof {
                assert(self.services@.take(i + 1).drop_last() =~= self.services@.take(i as int));
            }
            if contains_string(&entry.1.depends_on, service_name) {
                res.push(&entry.0);
            }
            assert(res@.map_values(|r: &String| r@) =~= dependents(self.services@.take(i + 1), service_name@));
            i += 1;
        }
        assert(self.services@.take(n as int) =~= self.services@);
        proof {
            if names_unique(self.services@) {
                lemma_dependents_no_duplicates(self.services@, service_name@);
            }
        }
        res
    }

    /// The services that expose at least one port, with their names.
    pub fn services_with_ports(&self) -> (res: Vec<(&String, &Service)>)
        ensures
            res@.map_values(|p: (&String, &Service)| (*p.0, *p.1)) == with_ports(self.services@),
            names_unique(self.services@) ==> names_unique(res@.map_values(|p: (&String, &Service)| (*p.0, *p.1))),
    {
        let mut res: Vec<(&String, &Service)> = Vec::new();
        let n = self.services.len();
        let mut i: usize = 0;
        while i < n
            invariant
                n == self.services@.len(),
                i <= n,
                res@.map_values(|p: (&String, &Service)| (*p.0, *p.1)) == with_ports(self.services@.take(i as int)),
            decreases n - i,
        {
            let entry = &self.services[i];
            proof {
                assert(self.services@.take(i + 1).drop_last() =~= self.services@.take(i as int));
            }
            if entry.1.ports.len() > 0 {
                res.push((&entry.0, &entry.1));
            }
            assert(res@.map_values(|p: (&String, &Service)| (*p.0, *p.1)) =~= with_ports(self.services@.take(i + 1)));
            i += 1;
        }
        assert(self.services@.take(n as int) =~= self.services@);
        proof {
            if names_unique(self.services@) {
                lemma_with_ports_names_unique(self.services@);
            }
        }
        res
    }
}

impl Service {
    /// Whether the service runs a named image.
    pub fn uses_image(&self) -> (res: bool)
        ensures
            res == self.image is Some,
    {
        self.image.is_some()
    }

    /// Whether the service is built from source.
    pub fn has_build(&self) -> (res: bool)
        ensures
            res == self.build is Some,
    {
        self.build.is_some()
    }

    /// The environment variables of the service, whichever way they are
    /// written. A mapping is copied as it is; from a list, items without
    /// `=` are skipped and a later item for a key replaces an earlier one.
    pub fn get_env_map(&self) -> (res: Vec<(String, String)>)
        ensures
            match self.environment {
                None => res@.len() == 0,
                Some(Environment::Mapping(m)) => res@ == m@,
                Some(Environment::List(items)) => {
                    &&& names_unique(res@)
                    &&& pairs_map(res@) == list_env(string_views(items@))
                },
            },
            self.well_formed() ==> names_unique(res@),
    {
        match &self.environment {
            None => Vec::new(),
            Some(Environment::Mapping(m)) => {
                let mut res: Vec<(String, String)> = Vec::new();
                let n = m.len();
                let mut i: usize = 0;
                while i < n
                    invariant
                        n == m@.len(),
                        i <= n,
                        res@ == m@.take(i as int),
                    decreases n - i,
                {
                    res.push((m[i].0.clone(), m[i].1.clone()));
                    assert(res@ =~= m@.take(i + 1));
                    i += 1;
                }
                assert(m@.take(n as int) =~= m@);
                res
            },
            Some(Environment::List(items)) => {
                let mut res: Vec<(String, String)> = Vec::new();
                let n = items.len();
                let mut i: usize = 0;
                while i < n
                    invariant
                        n == items@.len(),
                        i <= n,
                        names_unique(res@),
                        pairs_map(res@) == list_env(string_views(items@).take(i as int)),
                    decreases n - i,
                {
                    proof {
                        assert(string_views(items@).take(i + 1).drop_last()
                            =~= string_views(items@).take(i as int));
                        assert(string_views(items@).take(i + 1).last() == items@[i as int]@);
                    }
                    match split_item(items[i].as_str()) {
                        Some(kv) => {
                            insert_pair(&mut res, kv.0, kv.1);
                        },
                        None => {},
                    }
                    i += 1;
                }
                assert(string_views(items@).take(n as int) =~= string_views(items@));
                res
            },
        }
    }
}

} // verus!
