use vstd::prelude::*;
use crate::route::Route;
use crate::route::RouteModel;

verus! {

/// No two stored routes share a path: the path is the table's unique key.
pub open spec fn paths_unique(s: Seq<Route>) -> bool {
    forall|i: int, j: int| 0 <= i < j < s.len() ==> s[i].path@ != s[j].path@
}

/// The associative reading of a stored sequence of routes: each entry's
/// path mapped to its definition, later entries shadowing earlier ones.
pub open spec fn route_map(s: Seq<Route>) -> Map<Seq<char>, RouteModel>
    decreases s.len(),
{
    if s.len() == 0 {
        Map::<Seq<char>, RouteModel>::empty()
    } else {
        route_map(s.drop_last()).insert(s.last().path@, s.last()@)
    }
}


/// The models of a sequence of routes, in order.
pub open spec fn routes_view(v: Seq<Route>) -> Seq<RouteModel> {
    v.map_values(|r: Route| r@)
}

/// The table map after upserting each definition of `rs`, in order: a later
/// definition of a path overrides an earlier one in the same batch.
pub open spec fn upsert_all(m: Map<Seq<char>, RouteModel>, rs: Seq<RouteModel>) -> Map<
    Seq<char>,
    RouteModel,
>
    decreases rs.len(),
{
    if rs.len() == 0 {
        m
    } else {
        upsert_all(m, rs.drop_last()).insert(rs.last().path, rs.last())
    }
}

/// The store of all currently active routes, keyed by exact path.
/// Observably it is a finite map from path to route definition; the backing
/// sequence never holds two entries for one path.
pub struct RouteTable {
    routes: Vec<Route>,
}

impl View for RouteTable {
    type V = Map<Seq<char>, RouteModel>;

    closed spec fn view(&self) -> Map<Seq<char>, RouteModel> {
        route_map(self.routes@)
    }
}

proof fn lemma_route_map_dom(s: Seq<Route>, p: Seq<char>)
    ensures
        route_map(s).contains_key(p) <==> exists|i: int| 0 <= i < s.len() && s[i].path@ == p,
    decreases s.len(),
{
    if s.len() > 0 {
        lemma_route_map_dom(s.drop_last(), p);
        if s.last().path@ == p {
            assert(s[s.len() - 1].path@ == p);
        } else if route_map(s).contains_key(p) {
            let i = choose|i: int| 0 <= i < s.drop_last().len() && s.drop_last()[i].path@ == p;
            assert(s[i].path@ == p);
        } else {
            assert(forall|i: int|
                0 <= i < s.len() - 1 && s[i].path@ == p ==> s.drop_last()[i].path@ == p);
        }
    }
}

proof fn lemma_route_map_at(s: Seq<Route>, i: int)
    requires
        paths_unique(s),
        0 <= i < s.len(),
    ensures
        route_map(s).contains_key(s[i].path@),
        route_map(s)[s[i].path@] == s[i]@,
    decreases s.len(),
{
    if i == s.len() - 1 {
        lemma_route_map_dom(s, s[i].path@);
    } else {
        lemma_route_map_at(s.drop_last(), i);
        assert(s.drop_last()[i] == s[i]);
        assert(s.last().path@ != s[i].path@);
    }
}

proof fn lemma_route_map_update(s: Seq<Route>, i: int, r: Route)
    requires
        paths_unique(s),
        0 <= i < s.len(),
        s[i].path@ == r.path@,
    ensures
        paths_unique(s.update(i, r)),
        route_map(s.update(i, r)) == route_map(s).insert(r.path@, r@),
    decreases s.len(),
{
    let t = s.update(i, r);
    assert(forall|k: int| 0 <= k < s.len() && k != i ==> t[k] == s[k]);
    if i == s.len() - 1 {
        assert(t.drop_last() =~= s.drop_last());
        assert(route_map(t) == route_map(s.drop_last()).insert(r.path@, r@));
        assert(route_map(s.drop_last()).insert(s[i].path@, s[i]@).insert(r.path@, r@)
            =~= route_map(s.drop_last()).insert(r.path@, r@));
    } else {
        assert(t.drop_last() =~= s.drop_last().update(i, r));
        lemma_route_map_update(s.drop_last(), i, r);
        let lp = s.last().path@;
        assert(t.last() == s.last());
        assert(route_map(t) == route_map(s.drop_last()).insert(r.path@, r@).insert(lp, s.last()@));
        assert(lp != r.path@);
        assert(route_map(s.drop_last()).insert(r.path@, r@).insert(lp, s.last()@)
            =~= route_map(s.drop_last()).insert(lp, s.last()@).insert(r.path@, r@));
    }
}

proof fn lemma_route_map_push(s: Seq<Route>, r: Route)
    ensures
        route_map(s.push(r)) == route_map(s).insert(r.path@, r@),
{
    assert(s.push(r).drop_last() =~= s);
    assert(s.push(r).last() == r);
}

impl RouteTable {
    /// The table's structural invariant: one entry per path.
    pub closed spec fn wf(&self) -> bool {
        paths_unique(self.routes@)
    }

    /// An empty table: no path is registered.
    pub fn new() -> (t: RouteTable)
        ensures
            t.wf(),
            t@ == Map::<Seq<char>, RouteModel>::empty(),
    {
        RouteTable { routes: Vec::new() }
    }

    /// A snapshot of the route registered at `path`, if any; the caller
    /// owns the copy and never observes a later table change through it.
    pub fn get(&self, path: &str) -> (r: Option<Route>)
        requires
            self.wf(),
        ensures
            match r {
                Some(route) => self@.contains_key(path@) && route@ == self@[path@],
                None => !self@.contains_key(path@),
            },
    {
        let n = self.routes.len();
        let mut k: usize = 0;
        while k < n
            invariant
                n == self.routes.len(),
                k <= n,
                self.wf(),
                forall|j: int| 0 <= j < k ==> self.routes@[j].path@ != path@,
            decreases n - k,
        {
            if str_eq(self.routes[k].path.as_str(), path) {
                proof {
                    lemma_route_map_at(self.routes@, k as int);
                }
                return Some(self.routes[k].clone());
            }
            k += 1;
        }
        proof {
            lemma_route_map_dom(self.routes@, path@);
        }
        None
    }

    /// Insert or fully replace the entry at `route.path`: afterward the
    /// table maps that path to exactly this definition and no other entry
    /// has changed.
    pub fn upsert(&mut self, route: Route)
        requires
            old(self).wf(),
        ensures
            final(self).wf(),
            final(self)@ == old(self)@.insert(route.path@, route@),
    {
        let n = self.routes.len();
        let mut k: usize = 0;
        while k < n
            invariant
                n == self.routes.len(),
                k <= n,
                self.wf(),
                self.routes@ == old(self).routes@,
                forall|j: int| 0 <= j < k ==> self.routes@[j].path@ != route.path@,
            decreases n - k,
        {
            if str_eq(self.routes[k].path.as_str(), route.path.as_str()) {
                proof {
                    lemma_route_map_update(self.routes@, k as int, route);
                }
                self.routes[k] = route;
                return;
            }
            k += 1;
        }
        proof {
            lemma_route_map_push(self.routes@, route);
            assert(forall|j: int|
                0 <= j < self.routes@.len() ==> self.routes@.push(route)[j] == self.routes@[j]);
        }
        self.routes.push(route);
    }

    /// Apply a sequence of upserts in order. Each single upsert is atomic;
    /// a later entry for a path overrides an earlier one in the batch.
    pub fn upsert_batch(&mut self, routes: Vec<Route>)
        requires
            old(self).wf(),
        ensures
            final(self).wf(),
            final(self)@ == upsert_all(old(self)@, routes_view(routes@)),
    {
        let ghost rs = routes_view(routes@);
        let mut k: usize = 0;
        while k < routes.len()
            invariant
                k <= routes.len(),
                self.wf(),
                rs == routes_view(routes@),
                self@ == upsert_all(old(self)@, rs.subrange(0, k as int)),
            decreases routes.len() - k,
        {
            let route = routes[k].clone();
            self.upsert(route);
            proof {
                assert(rs.subrange(0, k as int + 1).drop_last() =~= rs.subrange(0, k as int));
                assert(rs.subrange(0, k as int + 1).last() == rs[k as int]);
            }
            k += 1;
        }
        proof {
            assert(rs.subrange(0, rs.len() as int) =~= rs);
        }
    }
}


/// Idempotence of upserting: registering the same definition twice leaves
/// the table in the same observable state as registering it once.
pub proof fn lemma_upsert_idempotent(m: Map<Seq<char>, RouteModel>, r: RouteModel)
    ensures
        m.insert(r.path, r).insert(r.path, r) == m.insert(r.path, r),
{
    assert(m.insert(r.path, r).insert(r.path, r) =~= m.insert(r.path, r));
}

/// Replacement: upserting a definition at an already registered path
/// replaces the stored definition whole; nothing of the earlier one remains
/// and no other entry changes.
pub proof fn lemma_upsert_replaces(
    m: Map<Seq<char>, RouteModel>,
    first: RouteModel,
    second: RouteModel,
)
    requires
        first.path == second.path,
    ensures
        m.insert(first.path, first).insert(second.path, second) == m.insert(second.path, second),
        m.insert(first.path, first).insert(second.path, second)[second.path] == second,
{
    assert(m.insert(first.path, first).insert(second.path, second) =~= m.insert(
        second.path,
        second,
    ));
}

/// Whether two string slices hold the same characters.
pub fn str_eq(a: &str, b: &str) -> (r: bool)
    ensures
        r == (a@ == b@),
{
    let sa: String = a.to_owned();
    let sb: String = b.to_owned();
    sa == sb
}

} // verus!
