//! Registry of commands and plugins.

use vstd::prelude::*;
use crate::text::{clone_strings, owned, str_eq, strs};

verus! {

/// A plugin that can be registered and executed.
pub trait Plugin {
    /// The name the plugin goes by.
    spec fn plugin_name(&self) -> Seq<char>;

    fn name(&self) -> (r: &str)
        ensures
            r@ == self.plugin_name(),
    ;

    fn version(&self) -> &str;
    fn execute(&self, args: &[String]) -> Result<(), String>;
}

/// Metadata of a registered command.
#[derive(Debug)]
pub struct CommandMeta {
    pub name: String,
    pub description: String,
    pub category: String,
    pub aliases: Vec<String>,
}

/// The texts of a command's metadata.
pub struct MetaView {
    pub name: Seq<char>,
    pub description: Seq<char>,
    pub category: Seq<char>,
    pub aliases: Seq<Seq<char>>,
}

impl CommandMeta {
    /// The texts of this metadata.
    pub open spec fn mv(&self) -> MetaView {
        MetaView {
            name: self.name@,
            description: self.description@,
            category: self.category@,
            aliases: strs(self.aliases@),
        }
    }

    pub fn new(name: &str, description: &str, category: &str) -> (m: CommandMeta)
        ensures
            m.mv() == (MetaView { name: name@, description: description@, category: category@, aliases: Seq::empty() }),
    {
        let m = CommandMeta {
            name: owned(name),
            description: owned(description),
            category: owned(category),
            aliases: Vec::new(),
        };
        assert(strs(m.aliases@) =~= Seq::<Seq<char>>::empty());
        m
    }

    /// Adds an alias.
    pub fn with_alias(self, alias: &str) -> (m: CommandMeta)
        ensures
            m.mv() == (MetaView { aliases: self.mv().aliases.push(alias@), ..self.mv() }),
    {
        let mut m = self;
        let ghost before = m.aliases@;
        m.aliases.push(owned(alias));
        assert(strs(m.aliases@) =~= strs(before).push(alias@));
        m
    }

    /// A copy of this metadata.
    pub fn duplicate(&self) -> (m: CommandMeta)
        ensures
            m.mv() == self.mv(),
    {
        CommandMeta {
            name: self.name.clone(),
            description: self.description.clone(),
            category: self.category.clone(),
            aliases: clone_strings(&self.aliases),
        }
    }
}

/// Key/metadata entries of the registry.
pub open spec fn entries_view(e: Seq<(String, CommandMeta)>) -> Seq<(Seq<char>, MetaView)> {
    e.map_values(|p: (String, CommandMeta)| (p.0@, p.1.mv()))
}

/// Position of the entry with key `k`, if any (the first one).
pub open spec fn find_key(e: Seq<(Seq<char>, MetaView)>, k: Seq<char>) -> Option<int>
    decreases e.len(),
{
    if e.len() == 0 {
        None
    } else if e[0].0 == k {
        Some(0)
    } else {
        match find_key(e.drop_first(), k) {
            Some(i) => Some(i + 1),
            None => None,
        }
    }
}

proof fn lemma_find_key(e: Seq<(Seq<char>, MetaView)>, k: Seq<char>)
    ensures
        find_key(e, k) matches Some(i) ==> 0 <= i < e.len() && e[i].0 == k,
        find_key(e, k) is None ==> forall|i: int| 0 <= i < e.len() ==> e[i].0 != k,
    decreases e.len(),
{
    if e.len() > 0 {
        lemma_find_key(e.drop_first(), k);
        assert forall|i: int| 0 < i < e.len() implies e[i] == e.drop_first()[i - 1] by {}
    }
}

/// Inserts or replaces the entry for key `k`.
pub open spec fn put(e: Seq<(Seq<char>, MetaView)>, k: Seq<char>, m: MetaView) -> Seq<(Seq<char>, MetaView)> {
    match find_key(e, k) {
        Some(i) => e.update(i, (k, m)),
        None => e.push((k, m)),
    }
}

/// Entries after registering `m` under each alias `aliases[..n]`.
pub open spec fn put_aliases(e: Seq<(Seq<char>, MetaView)>, aliases: Seq<Seq<char>>, m: MetaView, n: nat) -> Seq<
    (Seq<char>, MetaView),
>
    decreases n,
{
    if n == 0 || n > aliases.len() {
        e
    } else {
        put(put_aliases(e, aliases, m, (n - 1) as nat), aliases[n - 1], m)
    }
}

/// Entries after `register(m)`: every alias, then the name, maps to `m`.
pub open spec fn spec_register(e: Seq<(Seq<char>, MetaView)>, m: MetaView) -> Seq<(Seq<char>, MetaView)> {
    put(put_aliases(e, m.aliases, m, m.aliases.len()), m.name, m)
}

/// Key `k` leads to `m` in the entries.
pub open spec fn maps_to(e: Seq<(Seq<char>, MetaView)>, k: Seq<char>, m: MetaView) -> bool {
    find_key(e, k) matches Some(i) && e[i].1 == m
}

proof fn lemma_find_key_update(e: Seq<(Seq<char>, MetaView)>, i: int, k: Seq<char>, x: (Seq<char>, MetaView), k2: Seq<char>)
    requires
        0 <= i < e.len(),
        e[i].0 == k,
        x.0 == k,
    ensures
        find_key(e.update(i, x), k2) == find_key(e, k2),
    decreases e.len(),
{
    assert(e.update(i, x)[0].0 == e[0].0);
    if i > 0 {
        lemma_find_key_update(e.drop_first(), i - 1, k, x, k2);
        assert(e.update(i, x).drop_first() =~= e.drop_first().update(i - 1, x));
    } else {
        assert(e.update(i, x).drop_first() =~= e.drop_first());
    }
}

proof fn lemma_find_key_push(e: Seq<(Seq<char>, MetaView)>, x: (Seq<char>, MetaView), k2: Seq<char>)
    requires
        find_key(e, x.0) is None,
    ensures
        find_key(e.push(x), k2) == if find_key(e, k2) is None && k2 == x.0 { Some(e.len() as int) } else { find_key(e, k2) },
    decreases e.len(),
{
    if e.len() > 0 {
        assert(e.push(x)[0] == e[0]);
        assert(e[0].0 != x.0);
        lemma_find_key_push(e.drop_first(), x, k2);
        assert(e.push(x).drop_first() =~= e.drop_first().push(x));
        assert(e.drop_first().len() == e.len() - 1);
        if e[0].0 != k2 {
            assert(find_key(e.push(x), k2) == match find_key(e.drop_first().push(x), k2) {
                Some(i) => Some(i + 1),
                None => None::<int>,
            });
            assert(find_key(e, k2) == match find_key(e.drop_first(), k2) {
                Some(i) => Some(i + 1),
                None => None::<int>,
            });
        }
    } else {
        assert(e.push(x)[0] == x);
        assert(e.push(x).len() == 1);
        assert(find_key(e, k2) is None);
        if k2 != x.0 {
            assert(find_key(e.push(x).drop_first(), k2) is None);
            assert(find_key(e.push(x), k2) is None);
        }
        assert(e.push(x).drop_first() =~= Seq::<(Seq<char>, MetaView)>::empty());
    }
}

/// After `put(e, k, m)`, `k` leads to `m`, and every other key leads where
/// it led.
proof fn lemma_put(e: Seq<(Seq<char>, MetaView)>, k: Seq<char>, m: MetaView, k2: Seq<char>, m2: MetaView)
    ensures
        maps_to(put(e, k, m), k, m),
        k2 != k && maps_to(e, k2, m2) ==> maps_to(put(e, k, m), k2, m2),
{
    lemma_find_key(e, k);
    lemma_find_key(e, k2);
    match find_key(e, k) {
        Some(i) => {
            lemma_find_key_update(e, i, k, (k, m), k);
            lemma_find_key_update(e, i, k, (k, m), k2);
        },
        None => {
            lemma_find_key_push(e, (k, m), k);
            lemma_find_key_push(e, (k, m), k2);
        },
    }
}

/// Putting what a key already leads to changes nothing.
proof fn lemma_put_same(e: Seq<(Seq<char>, MetaView)>, k: Seq<char>, m: MetaView)
    requires
        maps_to(e, k, m),
    ensures
        put(e, k, m) == e,
{
    lemma_find_key(e, k);
    let i = find_key(e, k).unwrap();
    assert(e.update(i, (k, m)) =~= e);
}

proof fn lemma_aliases_map(e: Seq<(Seq<char>, MetaView)>, aliases: Seq<Seq<char>>, m: MetaView, n: nat)
    requires
        n <= aliases.len(),
    ensures
        forall|j: int| 0 <= j < n ==> maps_to(put_aliases(e, aliases, m, n), #[trigger] aliases[j], m),
    decreases n,
{
    if n > 0 {
        let prev = put_aliases(e, aliases, m, (n - 1) as nat);
        lemma_aliases_map(e, aliases, m, (n - 1) as nat);
        assert forall|j: int| 0 <= j < n implies maps_to(put_aliases(e, aliases, m, n), #[trigger] aliases[j], m) by {
            lemma_put(prev, aliases[n - 1], m, aliases[j], m);
        }
    }
}

proof fn lemma_aliases_same(e: Seq<(Seq<char>, MetaView)>, aliases: Seq<Seq<char>>, m: MetaView, n: nat)
    requires
        n <= aliases.len(),
        forall|j: int| 0 <= j < n ==> maps_to(e, #[trigger] aliases[j], m),
    ensures
        put_aliases(e, aliases, m, n) == e,
    decreases n,
{
    if n > 0 {
        lemma_aliases_same(e, aliases, m, (n - 1) as nat);
        lemma_put_same(e, aliases[n - 1], m);
    }
}

/// Registering the same command twice leaves the entries as the first
/// registration left them; after it, the name and each alias lead to it.
pub proof fn law_register_twice(e: Seq<(Seq<char>, MetaView)>, m: MetaView)
    ensures
        maps_to(spec_register(e, m), m.name, m),
        forall|j: int| 0 <= j < m.aliases.len() ==> maps_to(spec_register(e, m), #[trigger] m.aliases[j], m),
        spec_register(spec_register(e, m), m) == spec_register(e, m),
{
    let a = put_aliases(e, m.aliases, m, m.aliases.len());
    let r = spec_register(e, m);
    lemma_aliases_map(e, m.aliases, m, m.aliases.len());
    lemma_put(a, m.name, m, m.name, m);
    assert forall|j: int| 0 <= j < m.aliases.len() implies maps_to(r, #[trigger] m.aliases[j], m) by {
        lemma_put(a, m.name, m, m.aliases[j], m);
    }
    lemma_aliases_same(r, m.aliases, m, m.aliases.len());
    lemma_put_same(r, m.name, m);
}

/// Whether `names[..n]` contains `x`.
pub open spec fn seen(names: Seq<Seq<char>>, x: Seq<char>) -> bool {
    names.contains(x)
}

/// The distinct commands of the entries: each metadata whose name was not
/// met earlier, in entry order.
pub open spec fn distinct_commands(e: Seq<(Seq<char>, MetaView)>) -> Seq<MetaView>
    decreases e.len(),
{
    if e.len() == 0 {
        Seq::empty()
    } else {
        let prev = distinct_commands(e.drop_last());
        let m = e.last().1;
        if prev.map_values(|v: MetaView| v.name).contains(m.name) { prev } else { prev.push(m) }
    }
}

/// A registered plugin.
pub struct PluginEntry {
    pub plugin: Box<dyn Plugin>,
}

/// The names of registered plugins, with `n` added when it is new.
pub open spec fn name_insert(names: Seq<Seq<char>>, n: Seq<char>) -> Seq<Seq<char>> {
    if names.contains(n) { names } else { names.push(n) }
}

/// Registry of commands.
pub struct CommandRegistry {
    commands: Vec<(String, CommandMeta)>,
    plugins: Vec<PluginEntry>,
    plugin_names: Vec<String>,
}

impl View for CommandRegistry {
    type V = Seq<(Seq<char>, MetaView)>;

    closed spec fn view(&self) -> Seq<(Seq<char>, MetaView)> {
        entries_view(self.commands@)
    }
}

impl CommandRegistry {
    pub fn new() -> (r: CommandRegistry)
        ensures
            r@.len() == 0,
            r.plugin_len() == 0,
            r.plugin_names().len() == 0,
    {
        let r = CommandRegistry { commands: Vec::new(), plugins: Vec::new(), plugin_names: Vec::new() };
        assert(entries_view(r.commands@) =~= Seq::empty());
        r
    }

    /// Number of registered plugins.
    pub closed spec fn plugin_len(&self) -> nat {
        self.plugin_names@.len()
    }

    /// The names of the registered plugins, in registration order.
    pub closed spec fn plugin_names(&self) -> Seq<Seq<char>> {
        strs(self.plugin_names@)
    }

    fn position(&self, key: &str) -> (r: Option<usize>)
        ensures
            match r {
                Some(i) => find_key(self@, key@) == Some(i as int),
                None => find_key(self@, key@) is None,
            },
    {
        let mut i: usize = 0;
        assert(self@.subrange(0, self@.len() as int) =~= self@);
        while i < self.commands.len()
            invariant
                i <= self.commands@.len(),
                find_key(self@, key@) == match find_key(self@.subrange(i as int, self@.len() as int), key@) {
                    Some(j) => Some(j + i),
                    None => None::<int>,
                },
            decreases self.commands@.len() - i,
        {
            let ghost rest = self@.subrange(i as int, self@.len() as int);
            assert(rest.drop_first() =~= self@.subrange(i + 1, self@.len() as int));
            assert(rest[0].0 == self.commands@[i as int].0@);
            if str_eq(self.commands[i].0.as_str(), key) {
                return Some(i);
            }
            i = i + 1;
        }
        None
    }

    fn put_entry(&mut self, key: String, meta: CommandMeta)
        ensures
            final(self)@ == put(old(self)@, key@, meta.mv()),
            final(self).plugin_len() == old(self).plugin_len(),
            final(self).plugin_names() == old(self).plugin_names(),
    {
        let ghost e = self@;
        match self.position(key.as_str()) {
            Some(i) => {
                proof { lemma_find_key(e, key@); }
                let ghost k = key@;
                self.commands.set(i, (key, meta));
                assert(self@ =~= e.update(i as int, (k, meta.mv())));
            },
            None => {
                let ghost k = key@;
                self.commands.push((key, meta));
                assert(self@ =~= e.push((k, meta.mv())));
            },
        }
    }

    /// Registers `meta` under each of its aliases and under its name.
    pub fn register(&mut self, meta: CommandMeta)
        ensures
            final(self)@ == spec_register(old(self)@, meta.mv()),
            final(self).plugin_len() == old(self).plugin_len(),
            final(self).plugin_names() == old(self).plugin_names(),
    {
        let mut i: usize = 0;
        while i < meta.aliases.len()
            invariant
                i <= meta.aliases@.len(),
                self@ == put_aliases(old(self)@, meta.mv().aliases, meta.mv(), i as nat),
                self.plugin_len() == old(self).plugin_len(),
                self.plugin_names() == old(self).plugin_names(),
            decreases meta.aliases@.len() - i,
        {
            let key = meta.aliases[i].clone();
            let m = meta.duplicate();
            self.put_entry(key, m);
            i = i + 1;
        }
        let key = meta.name.clone();
        self.put_entry(key, meta);
    }

    /// Registers a plugin under its name, replacing a plugin of the same
    /// name. The commands are unchanged.
    pub fn register_plugin(&mut self, plugin: Box<dyn Plugin>)
        ensures
            final(self)@ == old(self)@,
            final(self).plugin_names() == name_insert(old(self).plugin_names(), plugin.plugin_name()),
            final(self).plugin_len() == final(self).plugin_names().len(),
    {
        let ghost names = self.plugin_names();
        let name = owned(plugin.name());
        match self.plugin_position(name.as_str()) {
            Some(i) => {
                // The plugins stand at the positions of their names.
                if i < self.plugins.len() {
                    self.plugins.set(i, PluginEntry { plugin });
                }
            },
            None => {
                self.plugins.push(PluginEntry { plugin });
                self.plugin_names.push(name);
                assert(strs(self.plugin_names@) =~= names.push(name@));
            },
        }
    }

    /// The plugin registered under `name`, if any: one is given back only
    /// when that name is registered, and only after the plugin's own `name`
    /// answered with it. Neither that answer nor that a registered name
    /// always finds its plugin is stated: Verus keeps no fact of a value
    /// that holds a `dyn Plugin` (not the name inside an `Option`, not even
    /// the length of a `Vec` of them after a push), so neither the result
    /// nor the stored plugins can be tied to a name.
    pub fn get_plugin(&self, name: &str) -> (r: Option<&dyn Plugin>)
        ensures
            !self.plugin_names().contains(name@) ==> r is None,
            r is Some ==> self.plugin_names().contains(name@),
    {
        match self.plugin_position(name) {
            Some(i) => {
                // The plugins stand at the positions of their names.
                if i < self.plugins.len() {
                    let p: &dyn Plugin = &*self.plugins[i].plugin;
                    let nm = p.name();
                    if str_eq(nm, name) {
                        proof {
                            assert(self.plugin_names()[i as int] == name@);
                            assert(self.plugin_names().contains(name@));
                        }
                        return Some(p);
                    }
                }
                None
            },
            None => None,
        }
    }

    /// Position of the plugin named `name`.
    fn plugin_position(&self, name: &str) -> (r: Option<usize>)
        ensures
            match r {
                Some(i) => i < self.plugin_names@.len() && self.plugin_names()[i as int] == name@,
                None => !self.plugin_names().contains(name@),
            },
    {
        let mut i: usize = 0;
        while i < self.plugin_names.len()
            invariant
                i <= self.plugin_names@.len(),
                forall|j: int| 0 <= j < i ==> self.plugin_names()[j] != name@,
            decreases self.plugin_names@.len() - i,
        {
            if str_eq(self.plugin_names[i].as_str(), name) {
                return Some(i);
            }
            i = i + 1;
        }
        None
    }

    /// The metadata registered under `name`.
    pub fn get(&self, name: &str) -> (r: Option<&CommandMeta>)
        ensures
            match find_key(self@, name@) {
                Some(i) => r matches Some(m) && m.mv() == self@[i].1,
                None => r is None,
            },
    {
        proof { lemma_find_key(self@, name@); }
        match self.position(name) {
            Some(i) => Some(&self.commands[i].1),
            None => None,
        }
    }

    /// Each registered command once (aliases lead to the same command).
    pub fn list_commands(&self) -> (r: Vec<&CommandMeta>)
        ensures
            r@.map_values(|m: &CommandMeta| m.mv()) == distinct_commands(self@),
    {
        let mut r: Vec<&CommandMeta> = Vec::new();
        let mut names: Vec<String> = Vec::new();
        let mut i: usize = 0;
        while i < self.commands.len()
            invariant
                i <= self.commands@.len(),
                r@.map_values(|m: &CommandMeta| m.mv()) == distinct_commands(self@.subrange(0, i as int)),
                strs(names@) == distinct_commands(self@.subrange(0, i as int)).map_values(|v: MetaView| v.name),
            decreases self.commands@.len() - i,
        {
            let m = &self.commands[i].1;
            proof {
                let sub = self@.subrange(0, i + 1);
                assert(sub.drop_last() =~= self@.subrange(0, i as int));
                assert(sub.last().1 == m.mv());
            }
            if !crate::text::contains_str(&names, m.name.as_str()) {
                let ghost r0 = r@;
                let ghost n0 = names@;
                r.push(m);
                names.push(m.name.clone());
                assert(r@.map_values(|m: &CommandMeta| m.mv()) =~= r0.map_values(|m: &CommandMeta| m.mv()).push(m.mv()));
                assert(strs(names@) =~= strs(n0).push(m.name@));
                assert(distinct_commands(self@.subrange(0, i + 1)).map_values(|v: MetaView| v.name)
                    =~= distinct_commands(self@.subrange(0, i as int)).map_values(|v: MetaView| v.name).push(m.name@));
            }
            i = i + 1;
        }
        assert(self@.subrange(0, self@.len() as int) =~= self@);
        r
    }

    /// The distinct commands of a category.
    pub fn list_by_category(&self, category: &str) -> (r: Vec<&CommandMeta>)
        ensures
            r@.map_values(|m: &CommandMeta| m.mv()) == distinct_commands(self@).filter(
                |v: MetaView| v.category == category@,
            ),
    {
        let all = self.list_commands();
        let ghost av = all@.map_values(|m: &CommandMeta| m.mv());
        let mut r: Vec<&CommandMeta> = Vec::new();
        let mut i: usize = 0;
        while i < all.len()
            invariant
                i <= all@.len(),
                av == all@.map_values(|m: &CommandMeta| m.mv()),
                r@.map_values(|m: &CommandMeta| m.mv()) == av.subrange(0, i as int).filter(
                    |v: MetaView| v.category == category@,
                ),
            decreases all@.len() - i,
        {
            proof {
                let sub = av.subrange(0, i + 1);
                assert(sub.drop_last() =~= av.subrange(0, i as int));
                reveal_with_fuel(Seq::<_>::filter, 1);
            }
            if str_eq(all[i].category.as_str(), category) {
                let ghost r0 = r@;
                r.push(all[i]);
                assert(r@.map_values(|m: &CommandMeta| m.mv()) =~= r0.map_values(|m: &CommandMeta| m.mv()).push(av[i as int]));
            }
            i = i + 1;
        }
        assert(av.subrange(0, av.len() as int) =~= av);
        r
    }

    /// Number of distinct commands.
    pub fn command_count(&self) -> (n: usize)
        ensures
            n == distinct_commands(self@).len(),
    {
        let v = self.list_commands();
        assert(v@.map_values(|m: &CommandMeta| m.mv()).len() == v@.len());
        v.len()
    }

    /// Number of registered plugins.
    pub fn plugin_count(&self) -> (n: usize)
        ensures
            n == self.plugin_len(),
    {
        self.plugin_names.len()
    }
}

impl Default for CommandRegistry {
    fn default() -> (r: CommandRegistry)
        ensures
            r@.len() == 0,
            r.plugin_len() == 0,
    {
        CommandRegistry::new()
    }
}

/// Builder of a [`CommandRegistry`].
pub struct RegistryBuilder {
    registry: CommandRegistry,
}

/// The built-in commands: name, description and category.
pub open spec fn builtin_commands() -> Seq<(Seq<char>, Seq<char>, Seq<char>)> {
    seq![
        ("verify"@, "Verificar documentación"@, "analytics"@),
        ("stats"@, "Estadísticas"@, "analytics"@),
        ("search"@, "Buscar contenido"@, "analytics"@),
        ("deps"@, "Dependencias"@, "analytics"@),
        ("tree"@, "Árbol jerárquico"@, "analytics"@),
        ("batch"@, "Operaciones en lote"@, "modification"@),
        ("sync"@, "Sincronizar metadatos"@, "modification"@),
        ("links"@, "Gestión de enlaces"@, "modification"@),
        ("lint"@, "Análisis estático"@, "diagnostic"@),
        ("health"@, "Salud del proyecto"@, "diagnostic"@),
        ("coverage"@, "Cobertura de contenido"@, "diagnostic"@),
    ]
}

/// Entries after registering the first `n` built-in commands.
pub open spec fn builtins_registered(e: Seq<(Seq<char>, MetaView)>, n: nat) -> Seq<(Seq<char>, MetaView)>
    decreases n,
{
    if n == 0 || n > builtin_commands().len() {
        e
    } else {
        let c = builtin_commands()[n - 1];
        spec_register(
            builtins_registered(e, (n - 1) as nat),
            MetaView { name: c.0, description: c.1, category: c.2, aliases: Seq::empty() },
        )
    }
}

impl View for RegistryBuilder {
    type V = Seq<(Seq<char>, MetaView)>;

    closed spec fn view(&self) -> Seq<(Seq<char>, MetaView)> {
        self.registry@
    }
}

impl RegistryBuilder {
    /// The names of the plugins of the registry being built.
    pub closed spec fn plugin_names(&self) -> Seq<Seq<char>> {
        self.registry.plugin_names()
    }

    /// Number of plugins of the registry being built.
    pub closed spec fn plugin_len(&self) -> nat {
        self.registry.plugin_len()
    }

    pub fn new() -> (b: RegistryBuilder)
        ensures
            b@.len() == 0,
            b.plugin_len() == 0,
            b.plugin_names().len() == 0,
    {
        RegistryBuilder { registry: CommandRegistry::new() }
    }

    /// Registers the eleven built-in commands.
    pub fn with_builtins(self) -> (b: RegistryBuilder)
        ensures
            b@ == builtins_registered(self@, 11),
            b.plugin_len() == self.plugin_len(),
            b.plugin_names() == self.plugin_names(),
    {
        let mut b = self;
        let ghost e = b.registry@;
        b.registry.register(CommandMeta::new("verify", "Verificar documentación", "analytics"));
        b.registry.register(CommandMeta::new("stats", "Estadísticas", "analytics"));
        b.registry.register(CommandMeta::new("search", "Buscar contenido", "analytics"));
        b.registry.register(CommandMeta::new("deps", "Dependencias", "analytics"));
        b.registry.register(CommandMeta::new("tree", "Árbol jerárquico", "analytics"));
        b.registry.register(CommandMeta::new("batch", "Operaciones en lote", "modification"));
        b.registry.register(CommandMeta::new("sync", "Sincronizar metadatos", "modification"));
        b.registry.register(CommandMeta::new("links", "Gestión de enlaces", "modification"));
        b.registry.register(CommandMeta::new("lint", "Análisis estático", "diagnostic"));
        b.registry.register(CommandMeta::new("health", "Salud del proyecto", "diagnostic"));
        b.registry.register(CommandMeta::new("coverage", "Cobertura de contenido", "diagnostic"));
        proof {
            reveal_with_fuel(builtins_registered, 12);
        }
        b
    }

    pub fn build(self) -> (r: CommandRegistry)
        ensures
            r@ == self@,
            r.plugin_len() == self.plugin_len(),
            r.plugin_names() == self.plugin_names(),
    {
        self.registry
    }
}

impl Default for RegistryBuilder {
    fn default() -> (b: RegistryBuilder)
        ensures
            b@.len() == 0,
            b.plugin_len() == 0,
    {
        RegistryBuilder::new()
    }
}

} // verus!
