//! The route table: one `POST /{entity}` per discovered entity, plus the fixed
//! `POST /types` route that accepts new entity definitions.
use vstd::prelude::*;
use vstd::string::StringExecFns;
use vstd::relations::injective_on;
use vstd::set_lib::lemma_map_size;
use crate::definition::{reserved_name, is_reserved};

verus! {

/// The HTTP verbs a route can answer.
#[derive(Clone, Copy, Debug, PartialEq, Eq, Structural)]
pub enum Method {
    Get,
    Post,
    Put,
    Delete,
}

/// What answers a route: the schema-mutation endpoint, or the generic
/// endpoint bound to one entity.
pub enum Handler {
    Types,
    Entity(String),
}

impl View for Handler {
    /// `None` for the schema-mutation endpoint, the entity's name otherwise.
    type V = Option<Seq<char>>;

    open spec fn view(&self) -> Option<Seq<char>> {
        match self {
            Handler::Types => None,
            Handler::Entity(n) => Some(n@),
        }
    }
}

pub struct RouteBinding {
    pub path: String,
    pub method: Method,
    pub handler: Handler,
}

impl View for RouteBinding {
    type V = (Seq<char>, Method, Option<Seq<char>>);

    open spec fn view(&self) -> (Seq<char>, Method, Option<Seq<char>>) {
        (self.path@, self.method, self.handler@)
    }
}

/// A complete set of routes, rebuilt whole on every reconfiguration.
pub struct RouteTable {
    bindings: Vec<RouteBinding>,
}

/// Why no route table could be built from the discovered entities.
#[derive(Debug, PartialEq, Eq, Structural)]
pub enum RouteError {
    /// An entity carries the name of the schema-mutation route.
    ReservedName,
}

pub open spec fn entity_path(name: Seq<char>) -> Seq<char> {
    seq!['/'] + name
}

pub open spec fn types_route() -> (Seq<char>, Method, Option<Seq<char>>) {
    (entity_path(reserved_name()), Method::Post, None)
}

pub open spec fn entity_route(name: Seq<char>) -> (Seq<char>, Method, Option<Seq<char>>) {
    (entity_path(name), Method::Post, Some(name))
}

/// The routes for a set of entity names.
pub open spec fn expected_routes(names: Set<Seq<char>>) -> Set<(Seq<char>, Method, Option<Seq<char>>)> {
    names.map(|n: Seq<char>| entity_route(n)).insert(types_route())
}

pub open spec fn name_views(names: Seq<String>) -> Seq<Seq<char>> {
    names.map_values(|s: String| s@)
}

/// What building from a list of discovered names gives.
pub open spec fn build_outcome(names: Seq<Seq<char>>) -> Result<Set<(Seq<char>, Method, Option<Seq<char>>)>, RouteError> {
    if names.contains(reserved_name()) {
        Err(RouteError::ReservedName)
    } else {
        Ok(expected_routes(names.to_set()))
    }
}

/// No two routes share a path and a method.
pub open spec fn unique_keys(rs: Seq<(Seq<char>, Method, Option<Seq<char>>)>) -> bool {
    forall|i: int, j: int|
        0 <= i < j < rs.len() ==> (#[trigger] rs[i]).0 != (#[trigger] rs[j]).0 || rs[i].1 != rs[j].1
}

impl View for RouteTable {
    type V = Seq<(Seq<char>, Method, Option<Seq<char>>)>;

    closed spec fn view(&self) -> Seq<(Seq<char>, Method, Option<Seq<char>>)> {
        self.bindings@.map_values(|b: RouteBinding| b@)
    }
}

proof fn lemma_entity_path_injective(a: Seq<char>, b: Seq<char>)
    requires
        entity_path(a) == entity_path(b),
    ensures
        a == b,
{
    assert(a =~= entity_path(a).subrange(1, entity_path(a).len() as int));
    assert(b =~= entity_path(b).subrange(1, entity_path(b).len() as int));
}

impl RouteTable {
    /// Paths and methods are unique, and the schema-mutation route comes first.
    pub open spec fn wf(&self) -> bool {
        &&& self@.len() > 0
        &&& self@[0] == types_route()
        &&& unique_keys(self@)
    }

    pub fn len(&self) -> (r: usize)
        ensures
            r == self@.len(),
    {
        self.bindings.len()
    }

    pub fn binding(&self, i: usize) -> (r: &RouteBinding)
        requires
            i < self@.len(),
        ensures
            r@ == self@[i as int],
    {
        &self.bindings[i]
    }

    /// Finds the route that answers `method` on `path`.
    pub fn lookup(&self, method: Method, path: &String) -> (r: Option<usize>)
        ensures
            r matches Some(i) ==> i < self@.len() && self@[i as int].0 == path@ && self@[i as int].1 == method,
            r is None ==> forall|i: int| 0 <= i < self@.len() ==> (#[trigger] self@[i]).0 != path@ || self@[i].1 != method,
    {
        let mut i: usize = 0;
        while i < self.bindings.len()
            invariant
                i <= self@.len(),
                self@.len() == self.bindings@.len(),
                forall|k: int| 0 <= k < i ==> (#[trigger] self@[k]).0 != path@ || self@[k].1 != method,
            decreases self.bindings@.len() - i,
        {
            let b = &self.bindings[i];
            assert(self@[i as int] == b@);
            if b.method == method && b.path == *path {
                return Some(i);
            }
            i = i + 1;
        }
        None
    }
}

/// Whether any discovered name is the reserved one.
fn contains_reserved(names: &Vec<String>) -> (r: bool)
    ensures
        r == name_views(names@).contains(reserved_name()),
{
    let ghost nv = name_views(names@);
    let mut i: usize = 0;
    while i < names.len()
        invariant
            i <= names.len(),
            nv == name_views(names@),
            forall|k: int| 0 <= k < i ==> nv[k] != reserved_name(),
        decreases names.len() - i,
    {
        if is_reserved(&names[i]) {
            assert(nv[i as int] == reserved_name());
            return true;
        }
        i = i + 1;
    }
    false
}

fn entity_binding(name: &String) -> (r: RouteBinding)
    ensures
        r@ == entity_route(name@),
{
    let mut path = String::from_str("/");
    path.append(name.as_str());
    proof {
        reveal_strlit("/");
        assert(path@ =~= entity_path(name@));
    }
    RouteBinding { path, method: Method::Post, handler: Handler::Entity(name.clone()) }
}

/// Whether `name` is among `kept`.
fn contains_name(kept: &Vec<String>, name: &String) -> (r: bool)
    ensures
        r == name_views(kept@).contains(name@),
{
    let ghost kv = name_views(kept@);
    let mut k: usize = 0;
    while k < kept.len()
        invariant
            k <= kept@.len(),
            kv == name_views(kept@),
            forall|q: int| 0 <= q < k ==> name@ != (#[trigger] kv[q]),
        decreases kept@.len() - k,
    {
        if kept[k] == *name {
            assert(kv[k as int] == name@);
            return true;
        }
        k = k + 1;
    }
    false
}

/// The table for a list of distinct names, in that order.
pub open spec fn routes_for(seen: Seq<Seq<char>>) -> Seq<(Seq<char>, Method, Option<Seq<char>>)> {
    seq![types_route()] + seen.map_values(|n: Seq<char>| entity_route(n))
}

proof fn lemma_push_to_set<A>(s: Seq<A>, x: A)
    ensures
        s.push(x).to_set() == s.to_set().insert(x),
{
    assert forall|a: A| s.push(x).to_set().contains(a) == s.to_set().insert(x).contains(a) by {
        if s.push(x).contains(a) && a != x {
            let i = choose|i: int| 0 <= i < s.push(x).len() && s.push(x)[i] == a;
            assert(s[i] == a);
        }
        if s.contains(a) {
            let i = choose|i: int| 0 <= i < s.len() && s[i] == a;
            assert(s.push(x)[i] == a);
        }
        if a == x {
            assert(s.push(x)[s.len() as int] == a);
        }
    }
    assert(s.push(x).to_set() =~= s.to_set().insert(x));
}

proof fn lemma_routes_for(nv: Seq<Seq<char>>, seen: Seq<Seq<char>>)
    requires
        seen.no_duplicates(),
        seen.to_set() == nv.to_set(),
        !nv.contains(reserved_name()),
    ensures
        routes_for(seen).to_set() == expected_routes(nv.to_set()),
        unique_keys(routes_for(seen)),
        routes_for(seen)[0] == types_route(),
{
    let rs = routes_for(seen);
    let ex = expected_routes(nv.to_set());
    assert forall|k: int| 0 <= k < seen.len() implies #[trigger] rs[k + 1] == entity_route(seen[k]) by {}
    assert forall|x| rs.to_set().contains(x) implies ex.contains(x) by {
        let a = choose|a: int| 0 <= a < rs.len() && rs[a] == x;
        if a > 0 {
            assert(rs[(a - 1) + 1] == entity_route(seen[a - 1]));
            assert(seen.to_set().contains(seen[a - 1]));
            assert(nv.to_set().map(|n: Seq<char>| entity_route(n)).contains(entity_route(seen[a - 1])));
        }
    }
    assert forall|x| ex.contains(x) implies rs.to_set().contains(x) by {
        if x != types_route() {
            let n = choose|n: Seq<char>| nv.to_set().contains(n) && entity_route(n) == x;
            assert(seen.to_set().contains(n));
            let k = choose|k: int| 0 <= k < seen.len() && seen[k] == n;
            assert(rs[k + 1] == x);
        } else {
            assert(rs[0] == x);
        }
    }
    assert(rs.to_set() =~= ex);
    assert forall|a: int, b: int| 0 <= a < b < rs.len() implies (#[trigger] rs[a]).0 != (#[trigger] rs[b]).0 || rs[a].1 != rs[b].1 by {
        assert(rs[(b - 1) + 1] == entity_route(seen[b - 1]));
        if a == 0 {
            assert(seen.to_set().contains(seen[b - 1]));
            if rs[a].0 == rs[b].0 {
                lemma_entity_path_injective(reserved_name(), seen[b - 1]);
            }
        } else {
            assert(rs[(a - 1) + 1] == entity_route(seen[a - 1]));
            if rs[a].0 == rs[b].0 {
                lemma_entity_path_injective(seen[a - 1], seen[b - 1]);
            }
        }
    }
}

/// Builds the route table for the discovered entity names: `POST /types`
/// first, then one `POST /{name}` for each distinct name. The order of the
/// names does not change the set of routes.
pub fn build(names: &Vec<String>) -> (r: Result<RouteTable, RouteError>)
    ensures
        r matches Ok(t) ==> t.wf() && build_outcome(name_views(names@)) == Ok::<Set<(Seq<char>, Method, Option<Seq<char>>)>, RouteError>(t@.to_set()),
        r matches Err(e) ==> build_outcome(name_views(names@)) == Err::<Set<(Seq<char>, Method, Option<Seq<char>>)>, RouteError>(e),
{
    if contains_reserved(names) {
        return Err(RouteError::ReservedName);
    }
    let ghost nv = name_views(names@);
    let types_path = String::from_str("/types");
    proof {
        reveal_strlit("/types");
        assert(types_path@ =~= entity_path(reserved_name()));
    }
    let mut bindings: Vec<RouteBinding> = Vec::new();
    bindings.push(RouteBinding { path: types_path, method: Method::Post, handler: Handler::Types });
    let mut kept: Vec<String> = Vec::new();
    proof {
        assert(bindings@.map_values(|b: RouteBinding| b@) =~= routes_for(name_views(kept@)));
        assert(name_views(kept@).to_set() =~= nv.take(0).to_set());
    }
    let mut i: usize = 0;
    while i < names.len()
        invariant
            i <= names.len(),
            nv == name_views(names@),
            !nv.contains(reserved_name()),
            bindings@.map_values(|b: RouteBinding| b@) == routes_for(name_views(kept@)),
            name_views(kept@).no_duplicates(),
            name_views(kept@).to_set() == nv.take(i as int).to_set(),
        decreases names.len() - i,
    {
        let ghost seen = name_views(kept@);
        proof {
            assert(nv.take(i + 1) =~= nv.take(i as int).push(nv[i as int]));
            lemma_push_to_set(nv.take(i as int), nv[i as int]);
        }
        if !contains_name(&kept, &names[i]) {
            let ghost old_bindings = bindings@;
            bindings.push(entity_binding(&names[i]));
            kept.push(names[i].clone());
            proof {
                assert(name_views(kept@) =~= seen.push(nv[i as int]));
                lemma_push_to_set(seen, nv[i as int]);
                let nk = name_views(kept@);
                let nb = bindings@.map_values(|b: RouteBinding| b@);
                let ob = old_bindings.map_values(|b: RouteBinding| b@);
                assert(ob == routes_for(seen));
                assert(bindings@ == old_bindings.push(bindings@.last()));
                assert forall|k: int| 0 <= k < nb.len() implies nb[k] == routes_for(nk)[k] by {
                    if k < ob.len() {
                        assert(bindings@[k] == old_bindings[k]);
                        assert(ob[k] == routes_for(seen)[k]);
                        if k > 0 {
                            assert(nk[k - 1] == seen[k - 1]);
                        }
                    } else {
                        assert(nk[k - 1] == names@[i as int]@);
                    }
                }
                assert(ob.len() == routes_for(seen).len());
                assert(nk.len() == seen.len() + 1);
                assert(nb.len() == routes_for(nk).len());
                assert(nb =~= routes_for(nk));
            }
        } else {
            proof {
                assert(nv.take(i + 1).to_set() =~= seen.to_set());
            }
        }
        i = i + 1;
    }
    let t = RouteTable { bindings };
    proof {
        assert(nv.take(names.len() as int) =~= nv);
        lemma_routes_for(nv, name_views(kept@));
    }
    Ok(t)
}

/// The routes built from a list of names depend on the set of names alone:
/// two lists that hold the same names, in any order and with any repetition,
/// give the same outcome.
pub proof fn lemma_build_depends_on_names_only(a: Seq<Seq<char>>, b: Seq<Seq<char>>)
    requires
        a.to_set() == b.to_set(),
    ensures
        build_outcome(a) == build_outcome(b),
{
    assert(a.contains(reserved_name()) == a.to_set().contains(reserved_name()));
    assert(b.contains(reserved_name()) == b.to_set().contains(reserved_name()));
}

/// Building from names that hold `n` distinct entities gives exactly `n + 1`
/// routes: one per entity, and the schema-mutation route.
pub proof fn lemma_route_count(names: Seq<Seq<char>>)
    requires
        !names.contains(reserved_name()),
    ensures
        build_outcome(names) matches Ok(rs) && rs.finite() && rs.len() == names.to_set().len() + 1,
{
    broadcast use vstd::seq_lib::seq_to_set_is_finite;
    let s = names.to_set();
    let f = |n: Seq<char>| entity_route(n);
    assert(injective_on(f, s)) by {
        assert forall|a: Seq<char>, b: Seq<char>| s.contains(a) && s.contains(b) && #[trigger] f(a) == #[trigger] f(b) implies a == b by {
            lemma_entity_path_injective(a, b);
        }
    }
    lemma_map_size(s, s.map(f), f);
    if s.map(f).contains(types_route()) {
        let n = choose|n: Seq<char>| s.contains(n) && f(n) == types_route();
        lemma_entity_path_injective(n, reserved_name());
    }
    assert(expected_routes(s) == s.map(f).insert(types_route()));
}

} // verus!
