//! A registry of named text-transforming plugins.
//!
//! A plugin is registered under the name it reports for itself; it can then
//! be looked up, enabled, disabled and executed by that name.  Executing a
//! disabled or unknown plugin fails with a fixed message.

use vstd::prelude::*;

use crate::strutil::{str_eq, to_uppercase_str, upper_of};

verus! {

/// A named, versioned text transformation.
pub trait Plugin {
    /// The plugin's registry name.
    spec fn spec_name(&self) -> Seq<char>;

    /// The plugin's version string.
    spec fn spec_version(&self) -> Seq<char>;

    /// What executing the plugin on an input yields.
    spec fn spec_execute(&self, input: Seq<char>) -> Result<Seq<char>, Seq<char>>;

    fn name(&self) -> (r: &str)
        ensures
            r@ == self.spec_name(),
    ;

    fn version(&self) -> (r: &str)
        ensures
            r@ == self.spec_version(),
    ;

    fn execute(&self, input: &str) -> (r: Result<String, String>)
        ensures
            match r {
                Ok(s) => self.spec_execute(input@) == Ok::<Seq<char>, Seq<char>>(s@),
                Err(m) => self.spec_execute(input@) == Err::<Seq<char>, Seq<char>>(m@),
            },
    ;
}

/// Greets its input.
#[derive(Clone, Copy)]
pub struct GreetPlugin;

impl Plugin for GreetPlugin {
    open spec fn spec_name(&self) -> Seq<char> {
        "GreetPlugin"@
    }

    open spec fn spec_version(&self) -> Seq<char> {
        "1.0.0"@
    }

    open spec fn spec_execute(&self, input: Seq<char>) -> Result<Seq<char>, Seq<char>> {
        Ok("Hello, "@ + input + "!"@)
    }

    fn name(&self) -> (r: &str) {
        "GreetPlugin"
    }

    fn version(&self) -> (r: &str) {
        "1.0.0"
    }

    fn execute(&self, input: &str) -> (r: Result<String, String>) {
        let mut s = String::from_str("Hello, ");
        s.append(input);
        s.append("!");
        Ok(s)
    }
}

/// Reverses its input.
#[derive(Clone, Copy)]
pub struct ReversePlugin;

impl Plugin for ReversePlugin {
    open spec fn spec_name(&self) -> Seq<char> {
        "ReversePlugin"@
    }

    open spec fn spec_version(&self) -> Seq<char> {
        "1.0.0"@
    }

    open spec fn spec_execute(&self, input: Seq<char>) -> Result<Seq<char>, Seq<char>> {
        Ok(input.reverse())
    }

    fn name(&self) -> (r: &str) {
        "ReversePlugin"
    }

    fn version(&self) -> (r: &str) {
        "1.0.0"
    }

    fn execute(&self, input: &str) -> (r: Result<String, String>) {
        Ok(reverse_str(input))
    }
}

/// Uppercases its input.
#[derive(Clone, Copy)]
pub struct UppercasePlugin;

impl Plugin for UppercasePlugin {
    open spec fn spec_name(&self) -> Seq<char> {
        "UppercasePlugin"@
    }

    open spec fn spec_version(&self) -> Seq<char> {
        "1.0.0"@
    }

    open spec fn spec_execute(&self, input: Seq<char>) -> Result<Seq<char>, Seq<char>> {
        Ok(upper_of(input))
    }

    fn name(&self) -> (r: &str) {
        "UppercasePlugin"
    }

    fn version(&self) -> (r: &str) {
        "1.0.0"
    }

    fn execute(&self, input: &str) -> (r: Result<String, String>) {
        Ok(to_uppercase_str(input))
    }
}

/// A string with its characters in reverse order.
fn reverse_str(s: &str) -> (r: String)
    ensures
        r@ == s@.reverse(),
{
    let n = s.unicode_len();
    let mut out = String::new();
    let mut i = n;
    while i > 0
        invariant
            i <= n,
            n == s@.len(),
            out@ == s@.subrange(i as int, n as int).reverse(),
        decreases i,
    {
        i = i - 1;
        let piece = s.substring_char(i, i + 1);
        out.append(piece);
        proof {
            assert(piece@ =~= seq![s@[i as int]]);
            assert(s@.subrange(i as int, n as int).reverse() =~= s@.subrange(
                i + 1,
                n as int,
            ).reverse() + seq![s@[i as int]]);
        }
    }
    proof {
        assert(s@.subrange(0, n as int) =~= s@);
    }
    out
}

/// The closed set of plugins the registry can hold, dispatching each call
/// to the plugin it wraps.
#[derive(Clone, Copy)]
pub enum PluginBox {
    Greet(GreetPlugin),
    Reverse(ReversePlugin),
    Uppercase(UppercasePlugin),
}

impl PluginBox {
    /// The wrapped plugin's registry name.
    pub open spec fn spec_name(&self) -> Seq<char> {
        match self {
            PluginBox::Greet(p) => p.spec_name(),
            PluginBox::Reverse(p) => p.spec_name(),
            PluginBox::Uppercase(p) => p.spec_name(),
        }
    }

    /// What executing the wrapped plugin yields.
    pub open spec fn spec_execute(&self, input: Seq<char>) -> Result<Seq<char>, Seq<char>> {
        match self {
            PluginBox::Greet(p) => p.spec_execute(input),
            PluginBox::Reverse(p) => p.spec_execute(input),
            PluginBox::Uppercase(p) => p.spec_execute(input),
        }
    }

    /// The wrapped plugin's registry name.
    pub fn name(&self) -> (r: &str)
        ensures
            r@ == self.spec_name(),
    {
        match self {
            PluginBox::Greet(p) => p.name(),
            PluginBox::Reverse(p) => p.name(),
            PluginBox::Uppercase(p) => p.name(),
        }
    }

    /// Runs the wrapped plugin.
    pub fn execute(&self, input: &str) -> (r: Result<String, String>)
        ensures
            match r {
                Ok(s) => self.spec_execute(input@) == Ok::<Seq<char>, Seq<char>>(s@),
                Err(m) => self.spec_execute(input@) == Err::<Seq<char>, Seq<char>>(m@),
            },
    {
        match self {
            PluginBox::Greet(p) => p.execute(input),
            PluginBox::Reverse(p) => p.execute(input),
            PluginBox::Uppercase(p) => p.execute(input),
        }
    }
}

/// The entries whose key is not `name`.
pub open spec fn without_key(es: Seq<(Seq<char>, PluginBox)>, name: Seq<char>) -> Seq<
    (Seq<char>, PluginBox),
> {
    es.filter(|p: (Seq<char>, PluginBox)| p.0 != name)
}

/// The names that are not `name`.
pub open spec fn keys_without(ks: Seq<Seq<char>>, name: Seq<char>) -> Seq<Seq<char>> {
    ks.filter(|k: Seq<char>| k != name)
}

/// Keeps the registered plugins and the set of enabled names.
pub struct PluginManager {
    registry: Vec<(String, PluginBox)>,
    activable: Vec<String>,
}

impl PluginManager {
    /// The registered plugins as name/plugin pairs, in registration order.
    pub closed spec fn entries(&self) -> Seq<(Seq<char>, PluginBox)> {
        self.registry@.map_values(|p: (String, PluginBox)| (p.0@, p.1))
    }

    /// The registered names, in registration order.
    pub open spec fn reg_keys(&self) -> Seq<Seq<char>> {
        self.entries().map_values(|p: (Seq<char>, PluginBox)| p.0)
    }

    /// The enabled names.
    pub closed spec fn act_keys(&self) -> Seq<Seq<char>> {
        self.activable@.map_values(|s: String| s@)
    }

    /// Whether a plugin of this name is registered.
    pub open spec fn registered(&self, name: Seq<char>) -> bool {
        self.reg_keys().contains(name)
    }

    /// Whether this name is enabled.
    pub open spec fn enabled(&self, name: Seq<char>) -> bool {
        self.act_keys().contains(name)
    }

    /// Every plugin is stored under the name it reports.
    pub closed spec fn wf(&self) -> bool {
        forall|i: int|
            0 <= i < self.registry@.len() ==> (#[trigger] self.registry@[i]).1.spec_name()
                == self.registry@[i].0@
    }

    /// An empty registry with nothing enabled.
    pub fn new() -> (r: Self)
        ensures
            r.wf(),
            r.reg_keys() == Seq::<Seq<char>>::empty(),
            r.act_keys() == Seq::<Seq<char>>::empty(),
    {
        let r = PluginManager { registry: Vec::new(), activable: Vec::new() };
        proof {
            assert(r.reg_keys() =~= Seq::<Seq<char>>::empty());
            assert(r.act_keys() =~= Seq::<Seq<char>>::empty());
        }
        r
    }

    /// Registers a plugin under its own name, replacing any plugin of that
    /// name, and enables the name.
    pub fn register(&mut self, plugin: PluginBox)
        requires
            old(self).wf(),
        ensures
            final (self).wf(),
            final (self).entries() == without_key(old(self).entries(), plugin.spec_name()).push(
                (plugin.spec_name(), plugin),
            ),
            final (self).act_keys() == if old(self).enabled(plugin.spec_name()) {
                old(self).act_keys()
            } else {
                old(self).act_keys().push(plugin.spec_name())
            },
    {
        let name = String::from_str(plugin.name());
        let enabled_name = String::from_str(name.as_str());
        self.drop_registry_key(name.as_str());
        let ghost filtered = self.entries();
        let ghost n = name@;
        self.registry.push((name, plugin));
        proof {
            assert(self.entries() =~= filtered.push((n, plugin)));
        }
        if !self.has_enabled(enabled_name.as_str()) {
            let ghost acts = self.act_keys();
            self.activable.push(enabled_name);
            proof {
                assert(self.act_keys() =~= acts.push(n));
            }
        }
    }

    /// Removes every registry pair under `name`.
    fn drop_registry_key(&mut self, name: &str)
        requires
            old(self).wf(),
        ensures
            final (self).wf(),
            final (self).entries() == without_key(old(self).entries(), name@),
            final (self).act_keys() == old(self).act_keys(),
    {
        let ghost before = self.entries();
        let mut kept: Vec<(String, PluginBox)> = Vec::new();
        let n = self.registry.len();
        let mut i: usize = 0;
        while i < n
            invariant
                i <= n,
                n == self.registry@.len(),
                before == self.entries(),
                self.wf(),
                kept@.map_values(|p: (String, PluginBox)| (p.0@, p.1)) == without_key(
                    before.take(i as int),
                    name@,
                ),
                forall|j: int|
                    0 <= j < kept@.len() ==> (#[trigger] kept@[j]).1.spec_name() == kept@[j].0@,
            decreases n - i,
        {
            let ghost prefix = before.take(i as int);
            proof {
                reveal_with_fuel(Seq::<_>::filter, 2);
                assert(before[i as int] == (self.registry@[i as int].0@, self.registry@[i as int].1));
                assert(before.take(i + 1) =~= prefix.push(before[i as int]));
                assert(prefix.push(before[i as int]).drop_last() =~= prefix);
            }
            let key = &self.registry[i].0;
            if !str_eq(key.as_str(), name) {
                let ghost kept_before = kept@.map_values(|p: (String, PluginBox)| (p.0@, p.1));
                let copy_name = String::from_str(self.registry[i].0.as_str());
                let copy_plugin = self.registry[i].1;
                kept.push((copy_name, copy_plugin));
                proof {
                    assert(kept@.map_values(|p: (String, PluginBox)| (p.0@, p.1))
                        =~= kept_before.push(before[i as int]));
                }
            }
            i = i + 1;
        }
        proof {
            assert(before.take(n as int) =~= before);
        }
        self.registry = kept;
        proof {
            assert(self.entries() =~= kept@.map_values(|p: (String, PluginBox)| (p.0@, p.1)));
        }
    }

    /// Whether `name` is currently enabled.
    fn has_enabled(&self, name: &str) -> (r: bool)
        ensures
            r == self.enabled(name@),
    {
        let n = self.activable.len();
        let mut i: usize = 0;
        while i < n
            invariant
                i <= n,
                n == self.activable@.len(),
                forall|j: int| 0 <= j < i ==> self.act_keys()[j] != name@,
            decreases n - i,
        {
            if str_eq(self.activable[i].as_str(), name) {
                proof {
                    assert(self.act_keys()[i as int] == name@);
                }
                return true;
            }
            i = i + 1;
        }
        proof {
            assert(forall|j: int| 0 <= j < self.act_keys().len() ==> self.act_keys()[j] != name@);
        }
        false
    }

    /// Drops every enabled occurrence of `name`, reporting whether there was
    /// one.
    fn drop_enabled(&mut self, name: &str) -> (r: bool)
        ensures
            r == old(self).enabled(name@),
            final (self).act_keys() == keys_without(old(self).act_keys(), name@),
            final (self).entries() == old(self).entries(),
            final (self).wf() == old(self).wf(),
    {
        let ghost before = self.act_keys();
        let mut kept: Vec<String> = Vec::new();
        let mut found = false;
        let mut i: usize = 0;
        let n = self.activable.len();
        while i < n
            invariant
                i <= n,
                n == self.activable@.len(),
                before == self.act_keys(),
                kept@.map_values(|s: String| s@) == keys_without(before.take(i as int), name@),
                found == exists|j: int| 0 <= j < i && before[j] == name@,
            decreases n - i,
        {
            let ghost prefix = before.take(i as int);
            proof {
                reveal_with_fuel(Seq::<_>::filter, 2);
                assert(before.take(i + 1) =~= prefix.push(before[i as int]));
                assert(prefix.push(before[i as int]).drop_last() =~= prefix);
            }
            let s = &self.activable[i];
            if str_eq(s.as_str(), name) {
                found = true;
                proof {
                    assert(before[i as int] == name@);
                }
            } else {
                let ghost kept_before = kept@.map_values(|s: String| s@);
                let copy = String::from_str(s.as_str());
                kept.push(copy);
                proof {
                    assert(kept@.map_values(|s: String| s@) =~= kept_before.push(
                        before[i as int],
                    ));
                }
            }
            i = i + 1;
        }
        proof {
            assert(before.take(n as int) =~= before);
            if found {
                assert(old(self).enabled(name@));
            }
        }
        self.activable = kept;
        found
    }

    /// Removes the plugin of this name and disables it; an unknown name is
    /// an error.
    pub fn unregister(&mut self, name: &str) -> (r: Result<bool, String>)
        requires
            old(self).wf(),
        ensures
            final (self).wf(),
            match r {
                Ok(b) => {
                    &&& b == true
                    &&& old(self).registered(name@)
                    &&& final (self).entries() == without_key(old(self).entries(), name@)
                    &&& final (self).act_keys() == keys_without(old(self).act_keys(), name@)
                },
                Err(m) => {
                    &&& m@ == "Plugin not found"@
                    &&& !old(self).registered(name@)
                    &&& *final (self) == *old(self)
                },
            },
    {
        if self.get_plugin(name).is_none() {
            return Err(String::from_str("Plugin not found"));
        }
        self.drop_registry_key(name);
        self.drop_enabled(name);
        Ok(true)
    }

    /// The registered plugin of this name, if any.
    pub fn get_plugin(&self, name: &str) -> (r: Option<&PluginBox>)
        requires
            self.wf(),
        ensures
            match r {
                Some(p) => self.registered(name@) && p.spec_name() == name@,
                None => !self.registered(name@),
            },
    {
        let n = self.registry.len();
        let mut i: usize = 0;
        while i < n
            invariant
                i <= n,
                n == self.registry@.len(),
                self.wf(),
                forall|j: int| 0 <= j < i ==> self.reg_keys()[j] != name@,
            decreases n - i,
        {
            if str_eq(self.registry[i].0.as_str(), name) {
                proof {
                    assert(self.reg_keys()[i as int] == name@);
                }
                return Some(&self.registry[i].1);
            }
            i = i + 1;
        }
        proof {
            assert(forall|j: int| 0 <= j < self.reg_keys().len() ==> self.reg_keys()[j] != name@);
        }
        None
    }

    /// Runs the named plugin on the input.  A disabled name fails, then an
    /// unknown one; otherwise the result of the plugin stored under the
    /// name is returned.
    pub fn execute_plugin(&self, name: &str, input: &str) -> (r: Result<String, String>)
        requires
            self.wf(),
        ensures
            !self.enabled(name@) ==> (r matches Err(m) && m@ == "Plugin is disabled"@),
            self.enabled(name@) && !self.registered(name@) ==> (r matches Err(m) && m@
                == "Plugin not found"@),
            self.enabled(name@) && self.registered(name@) ==> exists|i: int|
                {
                    &&& 0 <= i < self.entries().len()
                    &&& (#[trigger] self.entries()[i]).0 == name@
                    &&& match r {
                        Ok(s) => self.entries()[i].1.spec_execute(input@) == Ok::<
                            Seq<char>,
                            Seq<char>,
                        >(s@),
                        Err(m) => self.entries()[i].1.spec_execute(input@) == Err::<
                            Seq<char>,
                            Seq<char>,
                        >(m@),
                    }
                },
    {
        if !self.has_enabled(name) {
            return Err(String::from_str("Plugin is disabled"));
        }
        let n = self.registry.len();
        let mut i: usize = 0;
        while i < n
            invariant
                i <= n,
                n == self.registry@.len(),
                self.wf(),
                self.enabled(name@),
                forall|j: int| 0 <= j < i ==> self.reg_keys()[j] != name@,
            decreases n - i,
        {
            if str_eq(self.registry[i].0.as_str(), name) {
                let r = self.registry[i].1.execute(input);
                proof {
                    assert(self.entries()[i as int].0 == name@);
                    assert(self.reg_keys()[i as int] == name@);
                }
                return r;
            }
            i = i + 1;
        }
        proof {
            assert(forall|j: int| 0 <= j < self.reg_keys().len() ==> self.reg_keys()[j] != name@);
        }
        Err(String::from_str("Plugin not found"))
    }

    /// Enables a registered name, reporting whether the name is known.
    pub fn enable(&mut self, name: &str) -> (r: bool)
        requires
            old(self).wf(),
        ensures
            final (self).wf(),
            r == old(self).registered(name@),
            final (self).entries() == old(self).entries(),
            final (self).act_keys() == if old(self).registered(name@) && !old(self).enabled(name@) {
                old(self).act_keys().push(name@)
            } else {
                old(self).act_keys()
            },
    {
        if self.get_plugin(name).is_some() {
            if !self.has_enabled(name) {
                let ghost acts = self.act_keys();
                let copy = String::from_str(name);
                self.activable.push(copy);
                proof {
                    assert(self.act_keys() =~= acts.push(name@));
                }
            }
            true
        } else {
            false
        }
    }

    /// Disables a name, reporting whether it was enabled.
    pub fn disable(&mut self, name: &str) -> (r: bool)
        ensures
            r == old(self).enabled(name@),
            final (self).entries() == old(self).entries(),
            final (self).wf() == old(self).wf(),
            final (self).act_keys() == keys_without(old(self).act_keys(), name@),
    {
        self.drop_enabled(name)
    }
}

} // verus!
