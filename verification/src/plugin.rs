//! Modules that add to what the server can do.

use vstd::prelude::*;
use crate::error::{ProxyError, ProxyErrorView};
use crate::error;
use crate::sorted_map;
use crate::sorted_map::SortedMap;
use crate::text;

verus! {

/// What comes of a call of a module.
pub type ModuleResult<T> = Result<T, ProxyError>;

/// A module, as those that add one write it. It is asked for by its name.
///
/// A module that says nothing else takes every configuration and has nothing to do
/// when the server starts, stops or loads its configuration again.
pub trait ModuleLoader {
    /// The name of the directive that asks for the module.
    fn name(&self) -> String;

    /// Checks the configuration of the module.
    fn validate_config(&self, config: &SortedMap<String, String>) -> ModuleResult<()> {
        Ok(())
    }

    /// Called when the server starts.
    fn on_load(&self) -> ModuleResult<()> {
        Ok(())
    }

    /// Called when the server stops.
    fn on_unload(&self) -> ModuleResult<()> {
        Ok(())
    }

    /// Called when the configuration was loaded again.
    fn on_reload(&self, config: &SortedMap<String, String>) -> ModuleResult<()> {
        Ok(())
    }
}

/// A module behind a box, so that a registry can hold modules of several types.
impl<T: ModuleLoader + ?Sized> ModuleLoader for Box<T> {
    fn name(&self) -> (r: String)
        ensures
            call_ensures(T::name, (&**self,), r),
    {
        (**self).name()
    }

    fn validate_config(&self, config: &SortedMap<String, String>) -> (r: ModuleResult<()>)
        ensures
            call_ensures(T::validate_config, (&**self, config), r),
    {
        (**self).validate_config(config)
    }

    fn on_load(&self) -> (r: ModuleResult<()>)
        ensures
            call_ensures(T::on_load, (&**self,), r),
    {
        (**self).on_load()
    }

    fn on_unload(&self) -> (r: ModuleResult<()>)
        ensures
            call_ensures(T::on_unload, (&**self,), r),
    {
        (**self).on_unload()
    }

    fn on_reload(&self, config: &SortedMap<String, String>) -> (r: ModuleResult<()>)
        ensures
            call_ensures(T::on_reload, (&**self, config), r),
    {
        (**self).on_reload(config)
    }
}

/// The modules by their names.
pub struct ModuleRegistry<L> {
    names: Vec<String>,
    loaders: Vec<L>,
}

/// The place of a name from `i` on.
pub open spec fn place(names: Seq<Seq<char>>, name: Seq<char>, i: int) -> Option<int>
    decreases names.len() - i,
{
    if i < 0 || i >= names.len() {
        None
    } else if names[i] == name {
        Some(i)
    } else {
        place(names, name, i + 1)
    }
}

/// A place that is found holds the name, and the names before it are others.
proof fn lemma_place(names: Seq<Seq<char>>, name: Seq<char>, i: int)
    requires
        0 <= i,
    ensures
        match place(names, name, i) {
            Some(k) => i <= k < names.len() && names[k] == name && forall|j: int|
                i <= j < k ==> #[trigger] names[j] != name,
            None => forall|j: int| i <= j < names.len() ==> #[trigger] names[j] != name,
        },
    decreases names.len() - i,
{
    if i < names.len() && names[i] != name {
        lemma_place(names, name, i + 1);
    }
}

/// The names and the modules after one was added under a name.
pub open spec fn registered<L>(names: Seq<Seq<char>>, loaders: Seq<L>, name: Seq<char>, loader: L) -> (
    Seq<Seq<char>>,
    Seq<L>,
) {
    match place(names, name, 0) {
        Some(i) => (names, loaders.update(i, loader)),
        None => (names.push(name), loaders.push(loader)),
    }
}

/// The module with a name.
pub open spec fn module_named<L>(names: Seq<Seq<char>>, loaders: Seq<L>, name: Seq<char>) -> Option<
    L,
> {
    match place(names, name, 0) {
        Some(i) => Some(loaders[i]),
        None => None,
    }
}

/// What is said of a module that failed when the server started.
pub open spec fn load_failure(name: Seq<char>, e: ProxyErrorView) -> ProxyErrorView {
    ProxyErrorView::Internal(
        "module '"@ + name + "' on_load failed: "@ + error::error_message(e),
    )
}

/// Says of a module that it failed when the server started.
pub fn fail_load(name: &str, e: &ProxyError) -> (r: ProxyError)
    ensures
        r.deep_view() == load_failure(name@, e.deep_view()),
{
    let mut out = text::join3("module '", name, "' on_load failed: ");
    out.append(e.message().as_str());
    ProxyError::Internal(out)
}

impl<L> Default for ModuleRegistry<L> {
    fn default() -> (r: ModuleRegistry<L>)
        ensures
            r.names() == Seq::<Seq<char>>::empty(),
            r.loaders() == Seq::<L>::empty(),
    {
        ModuleRegistry::new()
    }
}

impl<L> ModuleRegistry<L> {
    /// The names of the modules.
    pub closed spec fn names(&self) -> Seq<Seq<char>> {
        self.names.deep_view()
    }

    /// The modules, in the order of the names.
    pub closed spec fn loaders(&self) -> Seq<L> {
        self.loaders@
    }

    /// Every module has a name of its own.
    #[verifier::type_invariant]
    spec fn wf(&self) -> bool {
        self.names().len() == self.loaders().len() && self.names().no_duplicates()
    }

    /// The module with the name.
    pub open spec fn found(&self, name: Seq<char>) -> Option<L> {
        module_named(self.names(), self.loaders(), name)
    }

    /// No modules.
    pub fn new() -> (r: ModuleRegistry<L>)
        ensures
            r.names() == Seq::<Seq<char>>::empty(),
            r.loaders() == Seq::<L>::empty(),
    {
        let names: Vec<String> = Vec::new();
        assert(names.deep_view() =~= Seq::<Seq<char>>::empty());
        ModuleRegistry { names, loaders: Vec::new() }
    }

    /// The place of a name.
    fn find(&self, name: &str) -> (r: Option<usize>)
        ensures
            match r {
                Some(i) => place(self.names(), name@, 0) == Some(i as int) && i
                    < self.names().len(),
                None => place(self.names(), name@, 0) is None,
            },
    {
        proof {
            use_type_invariant(self);
        }
        let ghost ns = self.names();
        for i in 0..self.names.len()
            invariant
                ns == self.names.deep_view(),
                place(ns, name@, 0) == place(ns, name@, i as int),
        {
            assert(ns[i as int] == self.names@[i as int]@);
            if text::same(self.names[i].as_str(), name) {
                return Some(i);
            }
        }
        None
    }

    /// The module with the name.
    pub fn get(&self, name: &str) -> (r: Option<&L>)
        ensures
            match r {
                Some(l) => self.found(name@) == Some(*l),
                None => self.found(name@) is None,
            },
    {
        proof {
            use_type_invariant(self);
        }
        match self.find(name) {
            Some(i) => Some(&self.loaders[i]),
            None => None,
        }
    }

    /// Adds a module under a name. One that had the name is replaced.
    pub fn register_as(&mut self, name: String, loader: L)
        ensures
            (final(self).names(), final(self).loaders()) == registered(
                old(self).names(),
                old(self).loaders(),
                name@,
                loader,
            ),
    {
        let ghost before = self.names();
        proof {
            use_type_invariant(&*self);
        }
        let place = self.find(name.as_str());
        let mut all = ModuleRegistry::new();
        std::mem::swap(&mut all, self);
        let mut names = all.names;
        let mut loaders = all.loaders;
        match place {
            Some(i) => {
                loaders.set(i, loader);
            },
            None => {
                proof {
                    lemma_place(before, name@, 0);
                }
                let ghost n = name@;
                names.push(name);
                loaders.push(loader);
                assert(names.deep_view() =~= before.push(n));
                assert(before.push(n).no_duplicates());
            },
        }
        *self = ModuleRegistry { names, loaders };
    }

    /// The number of modules.
    pub fn len(&self) -> (n: usize)
        ensures
            n == self.names().len(),
    {
        self.names.len()
    }

    /// Tells whether there are no modules.
    pub fn is_empty(&self) -> (r: bool)
        ensures
            r == (self.names().len() == 0),
    {
        self.names.len() == 0
    }

    /// The modules with their names.
    pub fn iter(&self) -> (r: Vec<(&str, &L)>)
        ensures
            r@.len() == self.names().len(),
            forall|i: int|
                0 <= i < r@.len() ==> (#[trigger] r@[i]).0@ == self.names()[i] && *r@[i].1
                    == self.loaders()[i],
    {
        proof {
            use_type_invariant(self);
        }
        let mut out: Vec<(&str, &L)> = Vec::new();
        for i in 0..self.names.len()
            invariant
                self.wf(),
                out@.len() == i,
                forall|k: int|
                    0 <= k < i ==> (#[trigger] out@[k]).0@ == self.names()[k] && *out@[k].1
                        == self.loaders()[k],
        {
            assert(self.names()[i as int] == self.names@[i as int]@);
            out.push((self.names[i].as_str(), &self.loaders[i]));
        }
        out
    }

    /// The names of the modules.
    pub fn list(&self) -> (r: Vec<String>)
        ensures
            r.deep_view() == self.names(),
    {
        crate::data::Data::duplicate(&self.names)
    }
}

/// The module at a place failed with the error when the server started, and those
/// before it did not.
pub open spec fn failed_at<L: ModuleLoader>(loaders: Seq<L>, i: int, inner: ProxyError) -> bool {
    &&& 0 <= i < loaders.len()
    &&& call_ensures(L::on_load, (&loaders[i],), Err(inner))
    &&& forall|j: int|
        0 <= j < i ==> call_ensures(L::on_load, (&#[trigger] loaders[j],), Ok(()))
}

/// What the modules from `i` on that failed are called and say, given what came of
/// each of them. One that was not called did not fail.
pub open spec fn failures(
    names: Seq<Seq<char>>,
    outs: Seq<Option<ModuleResult<()>>>,
    i: int,
) -> Seq<(Seq<char>, Seq<char>)>
    decreases outs.len() - i,
{
    if i < 0 || i >= outs.len() {
        seq![]
    } else {
        match outs[i] {
            Some(Err(e)) => seq![(names[i], error::error_message(e.deep_view()))] + failures(
                names,
                outs,
                i + 1,
            ),
            _ => failures(names, outs, i + 1),
        }
    }
}

/// Every module was told that the server stops, and this came of it.
pub open spec fn unloaded<L: ModuleLoader>(
    loaders: Seq<L>,
    outs: Seq<Option<ModuleResult<()>>>,
) -> bool {
    &&& outs.len() == loaders.len()
    &&& forall|i: int|
        0 <= i < outs.len() ==> (#[trigger] outs[i] matches Some(out) && call_ensures(
            L::on_unload,
            (&loaders[i],),
            out,
        ))
}

/// Every module that has a configuration was handed it, no other was called, and this
/// came of it.
pub open spec fn reloaded<L: ModuleLoader>(
    names: Seq<Seq<char>>,
    loaders: Seq<L>,
    configs: SortedMap<String, SortedMap<String, String>>,
    outs: Seq<Option<ModuleResult<()>>>,
) -> bool {
    &&& outs.len() == loaders.len()
    &&& forall|i: int|
        0 <= i < outs.len() ==> match sorted_map::position(configs.deep_view(), names[i], 0) {
            Some(k) => #[trigger] outs[i] matches Some(out) && call_ensures(
                L::on_reload,
                (&loaders[i], &configs.entries@[k].1),
                out,
            ),
            None => outs[i] is None,
        }
}

/// One more outcome adds to the failures where it is one.
proof fn lemma_failures_push(
    names: Seq<Seq<char>>,
    outs: Seq<Option<ModuleResult<()>>>,
    out: Option<ModuleResult<()>>,
    i: int,
)
    requires
        0 <= i <= outs.len(),
    ensures
        failures(names, outs.push(out), i) == failures(names, outs, i) + (match out {
            Some(Err(e)) => seq![
                (names[outs.len() as int], error::error_message(e.deep_view())),
            ],
            _ => seq![],
        }),
    decreases outs.len() - i,
{
    let all = outs.push(out);
    if i < outs.len() {
        lemma_failures_push(names, outs, out, i + 1);
        assert(all[i] == outs[i]);
        assert(failures(names, all, i) =~= failures(names, outs, i) + (match out {
            Some(Err(e)) => seq![
                (names[outs.len() as int], error::error_message(e.deep_view())),
            ],
            _ => seq![],
        }));
    } else {
        assert(failures(names, all, i + 1) =~= seq![]);
        assert(failures(names, outs, i) =~= seq![]);
        assert(all[i] == out);
        assert(failures(names, all, i) =~= failures(names, outs, i) + (match out {
            Some(Err(e)) => seq![
                (names[outs.len() as int], error::error_message(e.deep_view())),
            ],
            _ => seq![],
        }));
    }
}

impl<L: ModuleLoader> ModuleRegistry<L> {
    /// Adds a module under the name that it gives. One that had the name is replaced.
    pub fn register(&mut self, loader: L) -> (name: String)
        ensures
            call_ensures(L::name, (&loader,), name),
            (final(self).names(), final(self).loaders()) == registered(
                old(self).names(),
                old(self).loaders(),
                name@,
                loader,
            ),
    {
        let name = loader.name();
        self.register_as(name.clone(), loader);
        name
    }

    /// Tells the modules that the server starts. The first that fails ends it.
    pub fn load_all(&self) -> (r: ModuleResult<()>)
        ensures
            self.names().len() == 0 ==> r is Ok,
            r is Ok ==> forall|i: int|
                0 <= i < self.loaders().len() ==> call_ensures(
                    L::on_load,
                    (&#[trigger] self.loaders()[i],),
                    Ok(()),
                ),
            r matches Err(e) ==> exists|i: int, inner: ProxyError|
                #![trigger failed_at(self.loaders(), i, inner)]
                failed_at(self.loaders(), i, inner) && e.deep_view() == load_failure(
                    self.names()[i],
                    inner.deep_view(),
                ),
    {
        proof {
            use_type_invariant(self);
        }
        let ghost ns = self.names();
        for i in 0..self.loaders.len()
            invariant
                self.wf(),
                ns == self.names(),
                forall|j: int|
                    0 <= j < i ==> call_ensures(
                        L::on_load,
                        (&#[trigger] self.loaders()[j],),
                        Ok(()),
                    ),
        {
            assert(ns[i as int] == self.names@[i as int]@);
            assert(self.loaders()[i as int] == self.loaders@[i as int]);
            match self.loaders[i].on_load() {
                Ok(u) => {
                    assert(u == ());
                    assert(call_ensures(L::on_load, (&self.loaders()[i as int],), Ok(())));
                },
                Err(e) => {
                    let failure = fail_load(self.names[i].as_str(), &e);
                    assert(failed_at(self.loaders(), i as int, e));
                    return Err(failure);
                },
            }
        }
        Ok(())
    }

    /// Tells the modules that the server stops. What went wrong is listed by name.
    pub fn unload_all(&self) -> (r: Vec<(String, String)>)
        ensures
            exists|outs: Seq<Option<ModuleResult<()>>>| #[trigger]
                unloaded(self.loaders(), outs) && r.deep_view() == failures(
                    self.names(),
                    outs,
                    0,
                ),
    {
        proof {
            use_type_invariant(self);
        }
        let ghost ns = self.names();
        let mut out: Vec<(String, String)> = Vec::new();
        let ghost mut outs: Seq<Option<ModuleResult<()>>> = seq![];
        assert(out.deep_view() =~= failures(ns, outs, 0));
        for i in 0..self.loaders.len()
            invariant
                self.wf(),
                ns == self.names(),
                outs.len() == i,
                forall|j: int|
                    0 <= j < i ==> (#[trigger] outs[j] matches Some(o) && call_ensures(
                        L::on_unload,
                        (&self.loaders()[j],),
                        o,
                    )),
                out.deep_view() == failures(ns, outs, 0),
        {
            assert(ns[i as int] == self.names@[i as int]@);
            assert(self.loaders()[i as int] == self.loaders@[i as int]);
            let one = self.loaders[i].on_unload();
            proof {
                lemma_failures_push(ns, outs, Some(one), 0);
                outs = outs.push(Some(one));
            }
            if let Err(e) = &one {
                let ghost before = out.deep_view();
                out.push((self.names[i].clone(), e.message()));
                assert(out.deep_view() =~= before.push(
                    (ns[i as int], error::error_message(e.deep_view())),
                ));
            }
            assert(out.deep_view() =~= failures(ns, outs, 0));
        }
        assert(unloaded(self.loaders(), outs));
        out
    }

    /// Tells the modules that have a configuration that it was loaded again. What went
    /// wrong is listed by name.
    pub fn reload_all(&self, configs: &SortedMap<String, SortedMap<String, String>>) -> (r: Vec<
        (String, String),
    >)
        ensures
            exists|outs: Seq<Option<ModuleResult<()>>>| #[trigger]
                reloaded(self.names(), self.loaders(), *configs, outs) && r.deep_view()
                    == failures(self.names(), outs, 0),
    {
        proof {
            use_type_invariant(self);
        }
        let ghost ns = self.names();
        let mut out: Vec<(String, String)> = Vec::new();
        let ghost mut outs: Seq<Option<ModuleResult<()>>> = seq![];
        assert(out.deep_view() =~= failures(ns, outs, 0));
        for i in 0..self.loaders.len()
            invariant
                self.wf(),
                ns == self.names(),
                outs.len() == i,
                forall|j: int|
                    0 <= j < i ==> match sorted_map::position(configs.deep_view(), ns[j], 0) {
                        Some(k) => #[trigger] outs[j] matches Some(o) && call_ensures(
                            L::on_reload,
                            (&self.loaders()[j], &configs.entries@[k].1),
                            o,
                        ),
                        None => outs[j] is None,
                    },
                out.deep_view() == failures(ns, outs, 0),
        {
            assert(ns[i as int] == self.names@[i as int]@);
            assert(self.loaders()[i as int] == self.loaders@[i as int]);
            match configs.get(&self.names[i]) {
                Some(config) => {
                    let one = self.loaders[i].on_reload(config);
                    proof {
                        lemma_failures_push(ns, outs, Some(one), 0);
                        outs = outs.push(Some(one));
                    }
                    if let Err(e) = &one {
                        let ghost before = out.deep_view();
                        out.push((self.names[i].clone(), e.message()));
                        assert(out.deep_view() =~= before.push(
                            (ns[i as int], error::error_message(e.deep_view())),
                        ));
                    }
                },
                None => {
                    proof {
                        lemma_failures_push(ns, outs, None, 0);
                        outs = outs.push(None);
                    }
                },
            }
            assert(out.deep_view() =~= failures(ns, outs, 0));
        }
        assert(reloaded(self.names(), self.loaders(), *configs, outs));
        out
    }
}

/// A module that was added is found under its name, in place of one that had the name; the
/// others are found as before, and a name is there once.
pub proof fn lemma_registered_then_found<L>(
    names: Seq<Seq<char>>,
    loaders: Seq<L>,
    name: Seq<char>,
    loader: L,
    other: Seq<char>,
)
    requires
        names.len() == loaders.len(),
        names.no_duplicates(),
    ensures
        ({
            let (ns, ls) = registered(names, loaders, name, loader);
            &&& module_named(ns, ls, name) == Some(loader)
            &&& other != name ==> module_named(ns, ls, other) == module_named(names, loaders, other)
            &&& ns.len() == ls.len()
            &&& ns.no_duplicates()
            &&& ns.len() == names.len() + (if names.contains(name) {
                0int
            } else {
                1int
            })
        }),
{
    let (ns, ls) = registered(names, loaders, name, loader);
    lemma_place(names, name, 0);
    lemma_place(names, other, 0);
    lemma_place(ns, name, 0);
    lemma_place(ns, other, 0);
    if place(names, name, 0) is None {
        assert(!names.contains(name));
        assert(ns[names.len() as int] == name);
        if let Some(k) = place(names, other, 0) {
            assert(ns[k] == other);
        }
    } else {
        assert(names.contains(name));
    }
    if other != name {
        match (place(names, other, 0), place(ns, other, 0)) {
            (Some(i), Some(k)) => {
                assert(ns[i] == other);
                assert(i == k);
            },
            (None, Some(k)) => {
                assert(names[k] == other);
            },
            _ => {},
        }
    }
}

/// What is told of modules that failed is told of exactly those that did, each with its name
/// and what it said.
pub proof fn lemma_failures_told(names: Seq<Seq<char>>, outs: Seq<Option<ModuleResult<()>>>, k: int)
    requires
        0 <= k < outs.len(),
    ensures
        outs[k] matches Some(Err(e)) ==> failures(names, outs, 0).contains(
            (names[k], error::error_message(e.deep_view())),
        ),
        (forall|i: int| 0 <= i < outs.len() ==> !(#[trigger] outs[i] matches Some(Err(_))))
            ==> failures(names, outs, 0).len() == 0,
{
    lemma_failures_from(names, outs, k, 0);
}

/// What is told of modules from `i` on.
proof fn lemma_failures_from(
    names: Seq<Seq<char>>,
    outs: Seq<Option<ModuleResult<()>>>,
    k: int,
    i: int,
)
    requires
        0 <= i <= outs.len(),
    ensures
        i <= k < outs.len() ==> (outs[k] matches Some(Err(e)) ==> failures(names, outs, i).contains(
            (names[k], error::error_message(e.deep_view())),
        )),
        (forall|j: int| i <= j < outs.len() ==> !(#[trigger] outs[j] matches Some(Err(_))))
            ==> failures(names, outs, i).len() == 0,
    decreases outs.len() - i,
{
    if i < outs.len() {
        lemma_failures_from(names, outs, k, i + 1);
        let rest = failures(names, outs, i + 1);
        if let Some(Err(e)) = outs[i] {
            let x = (names[i], error::error_message(e.deep_view()));
            assert((seq![x] + rest)[0] == x);
            if i < k < outs.len() {
                if let Some(Err(f)) = outs[k] {
                    let y = (names[k], error::error_message(f.deep_view()));
                    let n = choose|n: int| 0 <= n < rest.len() && rest[n] == y;
                    assert((seq![x] + rest)[n + 1] == y);
                }
            }
        }
    }
}

} // verus!
