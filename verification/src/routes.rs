//! The route table that a configuration describes.

use crate::backend;
use crate::backend::{BackendUri, UriParts};
use crate::config::{AppConfig, Predicate, Route};
use crate::error::RouteError;
use crate::text;
use vstd::hash_set::StringHashSet;
use vstd::prelude::*;
use vstd::string::*;

verus! {

/// How requests on a route are passed on.
#[derive(Debug, Clone, Copy, PartialEq, Eq, Structural)]
pub enum RouteKind {
    Http,
    WebSocket,
}

/// One route: requests on `path` go to `backend`.
#[derive(Debug, PartialEq, Eq)]
pub struct RouteEntry {
    pub path: String,
    pub route_id: String,
    pub backend: BackendUri,
    pub kind: RouteKind,
}

/// A route, as contracts speak of it.
pub struct RouteModel {
    pub path: Seq<char>,
    pub route_id: Seq<char>,
    pub backend: UriParts,
    pub kind: RouteKind,
}

impl View for RouteEntry {
    type V = RouteModel;

    open spec fn view(&self) -> RouteModel {
        RouteModel {
            path: self.path@,
            route_id: self.route_id@,
            backend: self.backend@,
            kind: self.kind,
        }
    }
}

/// A fault of a configuration, as contracts speak of it.
pub enum RouteFault {
    InvalidUri { route_id: Seq<char>, uri: Seq<char> },
    DuplicatePath { path: Seq<char>, route_id: Seq<char> },
}

impl View for RouteError {
    type V = RouteFault;

    open spec fn view(&self) -> RouteFault {
        match self {
            RouteError::InvalidUri { route_id, uri } => RouteFault::InvalidUri {
                route_id: route_id@,
                uri: uri@,
            },
            RouteError::DuplicatePath { path, route_id } => RouteFault::DuplicatePath {
                path: path@,
                route_id: route_id@,
            },
        }
    }
}

/// The path of the router for a predicate: `/**` as `/{*path}`.
pub open spec fn router_path(predicate: Predicate) -> Seq<char> {
    match predicate {
        Predicate::Path(pattern) => text::replaced(pattern@, "/**"@, "/{*path}"@),
    }
}

/// A route to a WebSocket backend is a WebSocket route, any other is HTTP.
pub open spec fn route_kind(backend: UriParts) -> RouteKind {
    if backend.scheme == Some("ws"@) || backend.scheme == Some("wss"@) {
        RouteKind::WebSocket
    } else {
        RouteKind::Http
    }
}

/// Whether a table has a route on `path`.
pub open spec fn has_path(table: Seq<RouteModel>, path: Seq<char>) -> bool {
    exists|i: int| 0 <= i < table.len() && #[trigger] table[i].path == path
}

/// `table` with the routes for the first `count` predicates of `route` at its
/// end, or the fault of the first that leads to a path already taken.
pub open spec fn with_predicates(
    table: Seq<RouteModel>,
    route: Route,
    backend: UriParts,
    count: nat,
) -> Result<Seq<RouteModel>, RouteFault>
    decreases count,
{
    if count == 0 {
        Ok(table)
    } else {
        match with_predicates(table, route, backend, (count - 1) as nat) {
            Ok(earlier) => {
                let path = router_path(route.predicates@[count - 1]);
                if has_path(earlier, path) {
                    Err(RouteFault::DuplicatePath { path, route_id: route.id@ })
                } else {
                    Ok(
                        earlier.push(
                            RouteModel {
                                path,
                                route_id: route.id@,
                                backend,
                                kind: route_kind(backend),
                            },
                        ),
                    )
                }
            },
            Err(fault) => Err(fault),
        }
    }
}

/// The table of the first `count` routes, in order, or the first fault: the
/// URI of a route is looked at before its predicates.
pub open spec fn route_table(routes: Seq<Route>, count: nat) -> Result<Seq<RouteModel>, RouteFault>
    decreases count,
{
    if count == 0 {
        Ok(Seq::empty())
    } else {
        match route_table(routes, (count - 1) as nat) {
            Ok(earlier) => {
                let route = routes[count - 1];
                match backend::http_uri(route.uri@) {
                    Some(backend) => with_predicates(
                        earlier,
                        route,
                        backend,
                        route.predicates@.len(),
                    ),
                    None => Err(
                        RouteFault::InvalidUri { route_id: route.id@, uri: route.uri@ },
                    ),
                }
            },
            Err(fault) => Err(fault),
        }
    }
}

/// The routes of a table, as contracts speak of them.
pub open spec fn models(table: Seq<RouteEntry>) -> Seq<RouteModel> {
    table.map_values(|entry: RouteEntry| entry@)
}

/// Parses the backend URI of a route.
pub fn parse_uri(uri_str: &str, route_id: &str) -> (r: Result<BackendUri, RouteError>)
    ensures
        match r {
            Ok(uri) => backend::http_uri(uri_str@) == Some(uri@) && uri@.is_consistent(),
            Err(error) => backend::http_uri(uri_str@) is None && error@ == (RouteFault::InvalidUri {
                route_id: route_id@,
                uri: uri_str@,
            }),
        },
{
    match backend::parse_http_uri(uri_str) {
        Ok(uri) => Ok(uri),
        Err(_) => Err(
            RouteError::InvalidUri { route_id: route_id.to_owned(), uri: uri_str.to_owned() },
        ),
    }
}

/// The path of the router for a predicate.
pub fn convert_path_pattern_to_axum(predicate: &Predicate) -> (r: Result<String, RouteError>)
    ensures
        r matches Ok(path) && path@ == router_path(*predicate),
{
    match predicate {
        Predicate::Path(path_pattern) => {
            proof {
                reveal_strlit("/**");
            }
            Ok(text::replace(path_pattern.as_str(), "/**", "/{*path}"))
        },
    }
}

/// Whether a backend is reached by WebSocket.
pub fn is_websocket_uri(uri: &BackendUri) -> (r: bool)
    ensures
        r == (route_kind(uri@) == RouteKind::WebSocket),
{
    match &uri.scheme {
        Some(scheme) => *scheme.as_str() == *"ws" || *scheme.as_str() == *"wss",
        None => false,
    }
}

/// Adds the route on `axum_path` to `backend_uri` at the end of the table.
pub fn add_route(
    table: &mut Vec<RouteEntry>,
    backend_uri: BackendUri,
    axum_path: &str,
    route_id: &str,
)
    ensures
        models(final(table)@) == models(old(table)@).push(
            RouteModel {
                path: axum_path@,
                route_id: route_id@,
                backend: backend_uri@,
                kind: route_kind(backend_uri@),
            },
        ),
{
    let kind = if is_websocket_uri(&backend_uri) {
        RouteKind::WebSocket
    } else {
        RouteKind::Http
    };
    let entry = RouteEntry {
        path: axum_path.to_owned(),
        route_id: route_id.to_owned(),
        backend: backend_uri,
        kind,
    };
    table.push(entry);
    assert(models(table@) == models(old(table)@).push(entry@));
}

/// The paths of a table.
pub open spec fn paths(table: Seq<RouteModel>) -> Set<Seq<char>> {
    Set::new(|path: Seq<char>| has_path(table, path))
}

/// A route more is a path more.
proof fn lemma_paths_of_push(table: Seq<RouteModel>, route: RouteModel)
    ensures
        paths(table.push(route)) == paths(table).insert(route.path),
{
    let longer = table.push(route);
    assert forall|path: Seq<char>| has_path(longer, path) == (has_path(table, path) || path
        == route.path) by {
        if has_path(table, path) {
            let i = choose|i: int| 0 <= i < table.len() && #[trigger] table[i].path == path;
            assert(longer[i].path == path);
        }
        assert(longer[table.len() as int].path == route.path);
        if has_path(longer, path) && path != route.path {
            let i = choose|i: int| 0 <= i < longer.len() && #[trigger] longer[i].path == path;
            assert(table[i].path == path);
        }
    }
    assert(paths(longer) == paths(table).insert(route.path));
}

/// A fault at an early predicate is the fault of the route.
proof fn lemma_fault_of_predicates(
    table: Seq<RouteModel>,
    route: Route,
    backend: UriParts,
    early: nat,
    late: nat,
)
    requires
        early <= late,
        with_predicates(table, route, backend, early) is Err,
    ensures
        with_predicates(table, route, backend, late) == with_predicates(
            table,
            route,
            backend,
            early,
        ),
    decreases late,
{
    if early < late {
        lemma_fault_of_predicates(table, route, backend, early, (late - 1) as nat);
    }
}

/// A fault at an early route is the fault of the configuration.
proof fn lemma_fault_of_routes(routes: Seq<Route>, early: nat, late: nat)
    requires
        early <= late,
        route_table(routes, early) is Err,
    ensures
        route_table(routes, late) == route_table(routes, early),
    decreases late,
{
    if early < late {
        lemma_fault_of_routes(routes, early, (late - 1) as nat);
    }
}

/// Whether the backends of all routes of a table are consistent.
pub open spec fn backends_are_consistent(table: Seq<RouteEntry>) -> bool {
    forall|i: int| 0 <= i < table.len() ==> (#[trigger] table[i]).backend@.is_consistent()
}

/// Adds the routes for the predicates of `route`, whose backend URI is
/// `backend_uri`, at the end of the table. `registered_paths` holds the paths
/// of the table.
pub fn add_predicates(
    table: &mut Vec<RouteEntry>,
    registered_paths: &mut StringHashSet,
    route: &Route,
    backend_uri: &BackendUri,
) -> (r: Result<(), RouteError>)
    requires
        old(registered_paths)@ == paths(models(old(table)@)),
    ensures
        match r {
            Ok(_) => {
                &&& with_predicates(
                    models(old(table)@),
                    *route,
                    backend_uri@,
                    route.predicates@.len(),
                ) == Ok::<_, RouteFault>(models(final(table)@))
                &&& final(registered_paths)@ == paths(models(final(table)@))
            },
            Err(error) => with_predicates(
                models(old(table)@),
                *route,
                backend_uri@,
                route.predicates@.len(),
            ) == Err::<Seq<RouteModel>, _>(error@),
        },
        backends_are_consistent(old(table)@) && backend_uri@.is_consistent()
            ==> backends_are_consistent(final(table)@),
{
    let ghost earlier = table@;
    let mut k: usize = 0;
    while k < route.predicates.len()
        invariant
            earlier == old(table)@,
            k <= route.predicates@.len(),
            with_predicates(models(earlier), *route, backend_uri@, k as nat) == Ok::<_, RouteFault>(
                models(table@),
            ),
            registered_paths@ == paths(models(table@)),
            backends_are_consistent(earlier) && backend_uri@.is_consistent()
                ==> backends_are_consistent(table@),
        decreases route.predicates@.len() - k,
    {
        let axum_path = match convert_path_pattern_to_axum(&route.predicates[k]) {
            Ok(path) => path,
            Err(error) => {
                return Err(error);
            },
        };
        assert(registered_paths@.contains(axum_path@) == has_path(models(table@), axum_path@));
        if !registered_paths.insert(axum_path.clone()) {
            proof {
                lemma_fault_of_predicates(
                    models(earlier),
                    *route,
                    backend_uri@,
                    (k + 1) as nat,
                    route.predicates@.len(),
                );
            }
            return Err(RouteError::DuplicatePath { path: axum_path, route_id: route.id.clone() });
        }
        let ghost shorter = table@;
        add_route(table, backend_uri.copy(), axum_path.as_str(), route.id.as_str());
        proof {
            lemma_paths_of_push(models(shorter), models(table@).last());
            assert forall|j: int|
                backends_are_consistent(shorter) && backend_uri@.is_consistent() && 0 <= j
                    < table@.len() implies (#[trigger] table@[j]).backend@.is_consistent() by {
                assert(models(table@)[j] == table@[j]@);
                if j < shorter.len() {
                    assert(models(shorter)[j] == shorter[j]@);
                }
            }
        }
        k = k + 1;
    }
    Ok(())
}

/// The route table of a configuration.
pub fn build_router(config: AppConfig) -> (r: Result<Vec<RouteEntry>, RouteError>)
    ensures
        ({
            let routes = config.gateway.routes@;
            match r {
                Ok(table) => {
                    &&& route_table(routes, routes.len()) == Ok::<_, RouteFault>(models(table@))
                    &&& backends_are_consistent(table@)
                },
                Err(error) => route_table(routes, routes.len()) == Err::<Seq<RouteModel>, _>(
                    error@,
                ),
            }
        }),
{
    let ghost routes = config.gateway.routes@;
    let mut registered_paths = StringHashSet::new();
    let mut table: Vec<RouteEntry> = Vec::new();
    assert(models(table@) == Seq::<RouteModel>::empty());
    assert(registered_paths@ == paths(models(table@)));
    let mut i: usize = 0;
    while i < config.gateway.routes.len()
        invariant
            routes == config.gateway.routes@,
            i <= routes.len(),
            route_table(routes, i as nat) == Ok::<_, RouteFault>(models(table@)),
            registered_paths@ == paths(models(table@)),
            backends_are_consistent(table@),
        decreases routes.len() - i,
    {
        let route = &config.gateway.routes[i];
        let backend_uri = match parse_uri(route.uri.as_str(), route.id.as_str()) {
            Ok(uri) => uri,
            Err(error) => {
                proof {
                    lemma_fault_of_routes(routes, (i + 1) as nat, routes.len());
                }
                return Err(error);
            },
        };
        let added = add_predicates(&mut table, &mut registered_paths, route, &backend_uri);
        if let Err(error) = added {
            proof {
                lemma_fault_of_routes(routes, (i + 1) as nat, routes.len());
            }
            return Err(error);
        }
        i = i + 1;
    }
    Ok(table)
}

/// The paths of the router for the first `count` predicates of a route.
pub open spec fn predicate_paths(route: Route, count: nat) -> Seq<Seq<char>>
    decreases count,
{
    if count == 0 {
        Seq::empty()
    } else {
        predicate_paths(route, (count - 1) as nat).push(router_path(route.predicates@[count - 1]))
    }
}

/// The paths of the router for all predicates of the first `count` routes, in
/// the order of the configuration.
pub open spec fn configured_paths(routes: Seq<Route>, count: nat) -> Seq<Seq<char>>
    decreases count,
{
    if count == 0 {
        Seq::empty()
    } else {
        configured_paths(routes, (count - 1) as nat) + predicate_paths(
            routes[count - 1],
            routes[count - 1].predicates@.len(),
        )
    }
}

/// The path of each route of a table.
pub open spec fn path_list(table: Seq<RouteModel>) -> Seq<Seq<char>> {
    table.map_values(|route: RouteModel| route.path)
}

/// A path is among those of a table when the table has a route on it.
proof fn lemma_has_path(table: Seq<RouteModel>, path: Seq<char>)
    ensures
        has_path(table, path) == path_list(table).contains(path),
{
    if has_path(table, path) {
        let i = choose|i: int| 0 <= i < table.len() && #[trigger] table[i].path == path;
        assert(path_list(table)[i] == path);
    }
    if path_list(table).contains(path) {
        let i = choose|i: int| 0 <= i < path_list(table).len() && path_list(table)[i] == path;
        assert(table[i].path == path);
    }
}

/// Whether one more path leaves a list without duplicates.
proof fn lemma_no_duplicates_push(list: Seq<Seq<char>>, path: Seq<char>)
    ensures
        list.push(path).no_duplicates() <==> list.no_duplicates() && !list.contains(path),
{
    let longer = list.push(path);
    if longer.no_duplicates() {
        assert forall|i: int, j: int| 0 <= i < list.len() && 0 <= j < list.len() && i
            != j implies list[i] != list[j] by {
            assert(longer[i] == list[i] && longer[j] == list[j]);
        }
        if list.contains(path) {
            let i = choose|i: int| 0 <= i < list.len() && list[i] == path;
            assert(longer[i] == path && longer[list.len() as int] == path);
        }
    }
    if list.no_duplicates() && !list.contains(path) {
        assert forall|i: int, j: int| 0 <= i < longer.len() && 0 <= j < longer.len() && i
            != j implies longer[i] != longer[j] by {
            if i < list.len() {
                assert(list.contains(list[i]));
            }
            if j < list.len() {
                assert(list.contains(list[j]));
            }
        }
    }
}

/// A longer list has no duplicates only where a shorter one has none.
proof fn lemma_no_duplicates_prefix(list: Seq<Seq<char>>, more: Seq<Seq<char>>)
    requires
        (list + more).no_duplicates(),
    ensures
        list.no_duplicates(),
{
    assert forall|i: int, j: int| 0 <= i < list.len() && 0 <= j < list.len() && i
        != j implies list[i] != list[j] by {
        assert((list + more)[i] == list[i] && (list + more)[j] == list[j]);
    }
}

/// When the predicates of a route fit a table, and what they add to it.
proof fn lemma_with_predicates(
    table: Seq<RouteModel>,
    route: Route,
    backend: UriParts,
    count: nat,
)
    requires
        path_list(table).no_duplicates(),
    ensures
        with_predicates(table, route, backend, count) is Ok <==> (path_list(table)
            + predicate_paths(route, count)).no_duplicates(),
        with_predicates(table, route, backend, count) matches Ok(longer) ==> path_list(longer)
            == path_list(table) + predicate_paths(route, count),
    decreases count,
{
    let list = path_list(table);
    if count == 0 {
        assert(list + predicate_paths(route, 0) == list);
    } else {
        let fewer = (count - 1) as nat;
        let path = router_path(route.predicates@[count - 1]);
        let earlier_paths = list + predicate_paths(route, fewer);
        lemma_with_predicates(table, route, backend, fewer);
        assert(list + predicate_paths(route, count) == earlier_paths.push(path));
        lemma_no_duplicates_push(earlier_paths, path);
        if let Ok(earlier) = with_predicates(table, route, backend, fewer) {
            lemma_has_path(earlier, path);
            if let Ok(longer) = with_predicates(table, route, backend, count) {
                assert(path_list(longer) == path_list(earlier).push(path));
            }
        }
    }
}

/// A configuration has a route table exactly if all its backend URIs parse and
/// no two of its predicates lead to the same path. The table then has one
/// route for each predicate, in the order of the configuration.
pub proof fn law_when_there_is_a_route_table(routes: Seq<Route>, count: nat)
    requires
        count <= routes.len(),
    ensures
        route_table(routes, count) is Ok <==> {
            &&& forall|i: int|
                0 <= i < count ==> backend::http_uri((#[trigger] routes[i]).uri@) is Some
            &&& configured_paths(routes, count).no_duplicates()
        },
        route_table(routes, count) matches Ok(table) ==> path_list(table) == configured_paths(
            routes,
            count,
        ),
    decreases count,
{
    if count == 0 {
        assert(path_list(Seq::<RouteModel>::empty()) == configured_paths(routes, 0));
    } else {
        let fewer = (count - 1) as nat;
        let route = routes[count - 1];
        law_when_there_is_a_route_table(routes, fewer);
        if configured_paths(routes, count).no_duplicates() {
            lemma_no_duplicates_prefix(
                configured_paths(routes, fewer),
                predicate_paths(route, route.predicates@.len()),
            );
        }
        if let Ok(earlier) = route_table(routes, fewer) {
            if let Some(backend) = backend::http_uri(route.uri@) {
                lemma_with_predicates(earlier, route, backend, route.predicates@.len());
            }
        }
    }
}

/// How many predicates the routes before the one at index `i` have.
pub open spec fn predicates_before(routes: Seq<Route>, i: int) -> int
    decreases i,
{
    if i <= 0 {
        0
    } else {
        predicates_before(routes, i - 1) + routes[i - 1].predicates@.len()
    }
}

/// Whether the route at index `i` has a predicate at index `k`.
pub open spec fn is_spot(routes: Seq<Route>, i: int, k: int) -> bool {
    0 <= i < routes.len() && 0 <= k < routes[i].predicates@.len()
}

/// Whether a predicate comes before another in the configuration.
pub open spec fn precedes(i: int, k: int, j: int, l: int) -> bool {
    i < j || (i == j && k < l)
}

/// The pattern of the predicate at index `k` of the route at index `i`, with
/// `/{*path}` for `/**`.
pub open spec fn path_at(routes: Seq<Route>, i: int, k: int) -> Seq<char> {
    let Predicate::Path(pattern) = routes[i].predicates@[k];
    text::replaced(pattern@, "/**"@, "/{*path}"@)
}

/// Whether the predicates before the one at index `k` of the route at index `i`
/// all lead to paths of their own.
pub open spec fn distinct_before(routes: Seq<Route>, i: int, k: int) -> bool {
    forall|a: int, b: int, c: int, d: int|
        is_spot(routes, a, b) && is_spot(routes, c, d) && precedes(a, b, c, d) && precedes(
            c,
            d,
            i,
            k,
        ) ==> #[trigger] path_at(routes, a, b) != #[trigger] path_at(routes, c, d)
}

/// A backend is reached by WebSocket exactly if its scheme is `ws` or `wss`.
pub proof fn law_websocket_backends_have_a_websocket_scheme(uri: UriParts)
    ensures
        route_kind(uri) is WebSocket <==> uri.scheme == Some("ws"@) || uri.scheme == Some("wss"@),
        route_kind(uri) is Http <==> !(uri.scheme == Some("ws"@) || uri.scheme == Some("wss"@)),
{
}

/// What the predicates of a route add to a table.
proof fn lemma_entries_of_predicates(
    table: Seq<RouteModel>,
    route: Route,
    backend: UriParts,
    count: nat,
)
    requires
        count <= route.predicates@.len(),
        with_predicates(table, route, backend, count) is Ok,
    ensures
        with_predicates(table, route, backend, count) matches Ok(longer) && {
            &&& longer.len() == table.len() + count
            &&& longer.take(table.len() as int) == table
            &&& forall|n: int|
                table.len() <= n < longer.len() ==> (#[trigger] longer[n]).route_id == route.id@
                    && longer[n].backend == backend && longer[n].kind == route_kind(backend)
                    && longer[n].path == router_path(route.predicates@[n - table.len()])
        },
    decreases count,
{
    if count > 0 {
        lemma_entries_of_predicates(table, route, backend, (count - 1) as nat);
        let earlier = with_predicates(table, route, backend, (count - 1) as nat)->Ok_0;
        let longer = with_predicates(table, route, backend, count)->Ok_0;
        assert(longer.take(table.len() as int) == earlier.take(table.len() as int));
        assert forall|n: int| table.len() <= n < longer.len() implies (
        #[trigger] longer[n]).route_id == route.id@ && longer[n].backend == backend
            && longer[n].kind == route_kind(backend) && longer[n].path == router_path(
            route.predicates@[n - table.len()],
        ) by {
            if n < earlier.len() {
                assert(longer[n] == earlier[n]);
            }
        }
    } else {
        assert(table.take(table.len() as int) == table);
    }
}

/// Every predicate of every route has one route in the table, at its place in
/// the configuration and nowhere else. It is on the path of the predicate, has
/// the id of its own route, leads to what the URI of its own route parses to,
/// and is a WebSocket route exactly if the scheme of that URI is `ws` or `wss`.
pub proof fn law_every_predicate_leads_to_its_own_backend(
    routes: Seq<Route>,
    count: nat,
    i: int,
    k: int,
)
    requires
        count <= routes.len(),
        route_table(routes, count) is Ok,
        i < count,
        is_spot(routes, i, k),
    ensures
        route_table(routes, count) matches Ok(table) && {
            let entry = table[predicates_before(routes, i) + k];
            &&& table.len() == predicates_before(routes, count as int)
            &&& 0 <= predicates_before(routes, i) + k < table.len()
            &&& routes[i].predicates@[k] matches Predicate::Path(pattern)
            &&& entry.path == text::replaced(pattern@, "/**"@, "/{*path}"@)
            &&& entry.route_id == routes[i].id@
            &&& backend::http_uri(routes[i].uri@) == Some(entry.backend)
            &&& entry.kind is WebSocket <==> entry.backend.scheme == Some("ws"@)
                || entry.backend.scheme == Some("wss"@)
        },
    decreases count,
{
    let fewer = (count - 1) as nat;
    let route = routes[count - 1];
    let earlier = route_table(routes, fewer)->Ok_0;
    let table = route_table(routes, count)->Ok_0;
    let backend = backend::http_uri(route.uri@)->Some_0;
    let n = predicates_before(routes, i) + k;
    lemma_table_len(routes, fewer);
    lemma_entries_of_predicates(earlier, route, backend, route.predicates@.len());
    lemma_predicates_before(routes, 0, i);
    if i < count - 1 {
        law_every_predicate_leads_to_its_own_backend(routes, fewer, i, k);
        assert(table.take(earlier.len() as int)[n] == table[n]);
    } else {
        assert(table[n].path == router_path(route.predicates@[k]));
    }
}

/// A table has one route for each predicate.
proof fn lemma_table_len(routes: Seq<Route>, count: nat)
    requires
        count <= routes.len(),
        route_table(routes, count) is Ok,
    ensures
        route_table(routes, count)->Ok_0.len() == predicates_before(routes, count as int),
    decreases count,
{
    if count > 0 {
        let route = routes[count - 1];
        lemma_table_len(routes, (count - 1) as nat);
        lemma_entries_of_predicates(
            route_table(routes, (count - 1) as nat)->Ok_0,
            route,
            backend::http_uri(route.uri@)->Some_0,
            route.predicates@.len(),
        );
    }
}

/// Later routes have no fewer predicates before them.
proof fn lemma_predicates_before(routes: Seq<Route>, i: int, j: int)
    requires
        0 <= i <= j <= routes.len(),
    ensures
        0 <= predicates_before(routes, i) <= predicates_before(routes, j),
        i < j ==> predicates_before(routes, i) + routes[i].predicates@.len() <= predicates_before(
            routes,
            j,
        ),
    decreases j,
{
    if i < j {
        lemma_predicates_before(routes, i, j - 1);
    } else if i > 0 {
        lemma_predicates_before(routes, i - 1, i - 1);
    }
}

/// The path of the router for each of the first predicates of a route.
proof fn lemma_predicate_paths(route: Route, count: nat)
    ensures
        predicate_paths(route, count).len() == count,
        forall|k: int|
            0 <= k < count ==> #[trigger] predicate_paths(route, count)[k] == router_path(
                route.predicates@[k],
            ),
    decreases count,
{
    if count > 0 {
        lemma_predicate_paths(route, (count - 1) as nat);
    }
}

/// The configured paths up to the predicate at index `k` of the route at index
/// `i`.
spec fn paths_before(routes: Seq<Route>, i: int, k: int) -> Seq<Seq<char>> {
    if k == 0 {
        configured_paths(routes, i as nat)
    } else {
        configured_paths(routes, i as nat) + predicate_paths(routes[i], k as nat)
    }
}

/// Where the path of a predicate stands among the configured paths.
proof fn lemma_place_of_path(routes: Seq<Route>, count: int, i: int, k: int)
    requires
        0 <= count <= routes.len(),
        i < count,
        is_spot(routes, i, k),
    ensures
        configured_paths(routes, count as nat).len() == predicates_before(routes, count),
        0 <= predicates_before(routes, i) + k < predicates_before(routes, count),
        configured_paths(routes, count as nat)[predicates_before(routes, i) + k] == path_at(
            routes,
            i,
            k,
        ),
    decreases count,
{
    let route = routes[count - 1];
    lemma_configured_len(routes, count - 1);
    lemma_predicate_paths(route, route.predicates@.len());
    lemma_predicates_before(routes, i, count);
    if i < count - 1 {
        lemma_place_of_path(routes, count - 1, i, k);
    } else {
        assert(predicate_paths(route, route.predicates@.len())[k] == router_path(
            route.predicates@[k],
        ));
    }
}

/// There is one configured path for each predicate.
proof fn lemma_configured_len(routes: Seq<Route>, count: int)
    requires
        0 <= count <= routes.len(),
    ensures
        configured_paths(routes, count as nat).len() == predicates_before(routes, count),
    decreases count,
{
    if count > 0 {
        lemma_configured_len(routes, count - 1);
        lemma_predicate_paths(routes[count - 1], routes[count - 1].predicates@.len());
    }
}

/// The predicate of each configured path.
proof fn lemma_spot_of_path(routes: Seq<Route>, count: int, n: int) -> (r: (int, int))
    requires
        0 <= count <= routes.len(),
        0 <= n < predicates_before(routes, count),
    ensures
        r.0 < count,
        is_spot(routes, r.0, r.1),
        n == predicates_before(routes, r.0) + r.1,
    decreases count,
{
    if count == 0 {
        (0int, 0int)
    } else if n < predicates_before(routes, count - 1) {
        lemma_spot_of_path(routes, count - 1, n)
    } else {
        (count - 1, n - predicates_before(routes, count - 1))
    }
}

/// A predicate before another has its path before the other's.
proof fn lemma_order_of_spots(routes: Seq<Route>, i: int, k: int, j: int, l: int)
    requires
        is_spot(routes, i, k),
        is_spot(routes, j, l),
    ensures
        predicates_before(routes, i) + k < predicates_before(routes, j) + l <==> precedes(
            i,
            k,
            j,
            l,
        ),
{
    if i < j {
        lemma_predicates_before(routes, i, j);
    } else if j < i {
        lemma_predicates_before(routes, j, i);
    }
}

/// There is one path for each predicate before a place in the configuration.
proof fn lemma_paths_before_len(routes: Seq<Route>, i: int, k: int)
    requires
        (i == routes.len() && k == 0) || (0 <= i < routes.len() && 0 <= k
            <= routes[i].predicates@.len()),
    ensures
        paths_before(routes, i, k).len() == predicates_before(routes, i) + k,
{
    lemma_configured_len(routes, i);
    if k > 0 {
        lemma_predicate_paths(routes[i], k as nat);
    }
}

/// The path of a predicate among those before a place in the configuration.
proof fn lemma_path_before(routes: Seq<Route>, i: int, k: int, a: int, b: int)
    requires
        (i == routes.len() && k == 0) || (0 <= i < routes.len() && 0 <= k
            <= routes[i].predicates@.len()),
        is_spot(routes, a, b),
        precedes(a, b, i, k),
    ensures
        0 <= predicates_before(routes, a) + b < paths_before(routes, i, k).len(),
        paths_before(routes, i, k)[predicates_before(routes, a) + b] == path_at(routes, a, b),
{
    lemma_paths_before_len(routes, i, k);
    lemma_configured_len(routes, i);
    if a < i {
        lemma_place_of_path(routes, i, a, b);
    } else {
        lemma_predicates_before(routes, 0, i);
        lemma_predicate_paths(routes[i], k as nat);
        assert(predicate_paths(routes[i], k as nat)[b] == router_path(routes[i].predicates@[b]));
    }
}

/// Paths of their own make a list without duplicates.
proof fn lemma_distinct_paths(routes: Seq<Route>, i: int, k: int)
    requires
        (i == routes.len() && k == 0) || (0 <= i < routes.len() && 0 <= k
            <= routes[i].predicates@.len()),
    ensures
        paths_before(routes, i, k).no_duplicates() <==> distinct_before(routes, i, k),
{
    let list = paths_before(routes, i, k);
    lemma_paths_before_len(routes, i, k);
    if list.no_duplicates() {
        assert forall|a: int, b: int, c: int, d: int|
            is_spot(routes, a, b) && is_spot(routes, c, d) && precedes(a, b, c, d) && precedes(
                c,
                d,
                i,
                k,
            ) implies #[trigger] path_at(routes, a, b) != #[trigger] path_at(routes, c, d) by {
            lemma_order_of_spots(routes, a, b, c, d);
            lemma_path_before(routes, i, k, a, b);
            lemma_path_before(routes, i, k, c, d);
            assert(list[predicates_before(routes, a) + b] != list[predicates_before(routes, c)
                + d]);
        }
    }
    if distinct_before(routes, i, k) {
        assert forall|m: int, n: int| 0 <= m < n < list.len() implies list[m] != list[n] by {
            let (a, b) = lemma_spot_before(routes, i, k, m);
            let (c, d) = lemma_spot_before(routes, i, k, n);
            lemma_order_of_spots(routes, a, b, c, d);
            lemma_path_before(routes, i, k, a, b);
            lemma_path_before(routes, i, k, c, d);
            assert(path_at(routes, a, b) != path_at(routes, c, d));
        }
    }
}

/// The predicate of each path before a place in the configuration.
proof fn lemma_spot_before(routes: Seq<Route>, i: int, k: int, n: int) -> (r: (int, int))
    requires
        (i == routes.len() && k == 0) || (0 <= i < routes.len() && 0 <= k
            <= routes[i].predicates@.len()),
        0 <= n < predicates_before(routes, i) + k,
    ensures
        is_spot(routes, r.0, r.1),
        precedes(r.0, r.1, i, k),
        n == predicates_before(routes, r.0) + r.1,
{
    if n < predicates_before(routes, i) {
        lemma_spot_of_path(routes, i, n)
    } else {
        (i, n - predicates_before(routes, i))
    }
}

/// A configuration has a route table exactly if every URI parses and no two
/// predicates, of one route or of two, lead to the same path.
pub proof fn law_which_configurations_are_accepted(routes: Seq<Route>, count: nat)
    requires
        count <= routes.len(),
    ensures
        route_table(routes, count) is Ok <==> {
            &&& forall|i: int|
                0 <= i < count ==> backend::http_uri((#[trigger] routes[i]).uri@) is Some
            &&& distinct_before(routes, count as int, 0)
        },
{
    law_when_there_is_a_route_table(routes, count);
    lemma_distinct_paths(routes, count as int, 0);
}

/// A configuration is refused for its first fault. A URI that does not parse is
/// reported with the id of its route.
pub proof fn law_bad_uris_are_reported(routes: Seq<Route>, count: nat, i: int)
    requires
        0 <= i < count <= routes.len(),
        forall|a: int| 0 <= a < i ==> backend::http_uri((#[trigger] routes[a]).uri@) is Some,
        distinct_before(routes, i, 0),
        backend::http_uri(routes[i].uri@) is None,
    ensures
        route_table(routes, count) == Err::<Seq<RouteModel>, _>(
            RouteFault::InvalidUri { route_id: routes[i].id@, uri: routes[i].uri@ },
        ),
{
    law_which_configurations_are_accepted(routes, i as nat);
    lemma_fault_of_routes(routes, (i + 1) as nat, count);
}

/// A configuration is refused for its first fault. A predicate that leads to a
/// path already taken is reported with that path and the id of its own route.
pub proof fn law_duplicate_paths_are_reported(
    routes: Seq<Route>,
    count: nat,
    i: int,
    k: int,
    j: int,
    l: int,
)
    requires
        0 <= i < count <= routes.len(),
        forall|a: int| 0 <= a <= i ==> backend::http_uri((#[trigger] routes[a]).uri@) is Some,
        is_spot(routes, i, k),
        distinct_before(routes, i, k),
        is_spot(routes, j, l),
        precedes(j, l, i, k),
        path_at(routes, j, l) == path_at(routes, i, k),
    ensures
        route_table(routes, count) == Err::<Seq<RouteModel>, _>(
            RouteFault::DuplicatePath { path: path_at(routes, i, k), route_id: routes[i].id@ },
        ),
{
    let route = routes[i];
    let backend = backend::http_uri(route.uri@)->Some_0;
    assert(distinct_before(routes, i, 0));
    law_which_configurations_are_accepted(routes, i as nat);
    law_when_there_is_a_route_table(routes, i as nat);
    let table = route_table(routes, i as nat)->Ok_0;
    lemma_distinct_paths(routes, i, k);
    lemma_path_before(routes, i, k, j, l);
    lemma_with_predicates(table, route, backend, k as nat);
    assert(path_list(table) + predicate_paths(route, k as nat) == paths_before(routes, i, k));
    let earlier = with_predicates(table, route, backend, k as nat)->Ok_0;
    assert(paths_before(routes, i, k)[predicates_before(routes, j) + l] == path_at(routes, j, l));
    lemma_has_path(earlier, path_at(routes, i, k));
    lemma_fault_of_predicates(table, route, backend, (k + 1) as nat, route.predicates@.len());
    lemma_fault_of_routes(routes, (i + 1) as nat, count);
}

/// What contracts say of a route is what it holds.
pub proof fn law_routes_are_shown_whole(entry: RouteEntry)
    ensures
        entry@.path == entry.path@,
        entry@.route_id == entry.route_id@,
        entry@.backend == entry.backend@,
        entry@.kind == entry.kind,
{
}

/// What contracts say of a table is what it holds, route by route.
pub proof fn law_tables_are_shown_whole(table: Seq<RouteEntry>, i: int)
    requires
        0 <= i < table.len(),
    ensures
        models(table).len() == table.len(),
        models(table)[i] == table[i]@,
{
}

/// What contracts say of a fault is what it holds.
pub proof fn law_faults_are_shown_whole(a: String, b: String)
    ensures
        (RouteError::InvalidUri { route_id: a, uri: b })@ == (RouteFault::InvalidUri {
            route_id: a@,
            uri: b@,
        }),
        (RouteError::DuplicatePath { path: a, route_id: b })@ == (RouteFault::DuplicatePath {
            path: a@,
            route_id: b@,
        }),
{
}

/// No two routes of a table are on the same path.
pub proof fn law_routes_have_distinct_paths(routes: Seq<Route>, count: nat, i: int, j: int)
    requires
        count <= routes.len(),
        route_table(routes, count) matches Ok(table) && 0 <= i < j < table.len(),
    ensures
        route_table(routes, count) matches Ok(table) && table[i].path != table[j].path,
{
    law_when_there_is_a_route_table(routes, count);
    let table = route_table(routes, count)->Ok_0;
    assert(path_list(table)[i] == table[i].path && path_list(table)[j] == table[j].path);
}

/// Filling in a pattern keeps its first character.
proof fn lemma_first_char_of_path(pattern: Seq<char>)
    requires
        pattern.len() > 0,
    ensures
        text::replaced(pattern, "/**"@, "/{*path}"@).len() > 0,
        text::replaced(pattern, "/**"@, "/{*path}"@)[0] == pattern[0],
{
    reveal_strlit("/**");
    reveal_strlit("/{*path}");
    if "/**"@.is_prefix_of(pattern) {
        assert(pattern.subrange(0, 3)[0] == "/**"@[0]);
    }
}

/// A path of the router holds no `/**` any more.
pub proof fn law_no_wildcard_is_left(pattern: Seq<char>)
    ensures
        !text::has_part(text::replaced(pattern, "/**"@, "/{*path}"@), "/**"@),
    decreases pattern.len(),
{
    let from = "/**"@;
    let to = "/{*path}"@;
    let path = text::replaced(pattern, from, to);
    reveal_strlit("/**");
    reveal_strlit("/{*path}");
    if pattern.len() < 3 {
    } else if from.is_prefix_of(pattern) {
        let rest = text::replaced(pattern.skip(3), from, to);
        law_no_wildcard_is_left(pattern.skip(3));
        assert forall|i: int| 0 <= i <= path.len() - 3 implies !#[trigger] text::part_at(
            path,
            i,
            from,
        ) by {
            if i >= 8 {
                assert(path.subrange(i, i + 3) == rest.subrange(i - 8, i - 8 + 3));
                assert(!text::part_at(rest, i - 8, from));
            } else {
                assert(path[i] == to[i]);
                assert(path.subrange(i, i + 3)[0] == path[i]);
                assert(path.subrange(i, i + 3)[1] == path[i + 1]);
                if i == 0 {
                    assert(path[1] == to[1]);
                }
            }
        }
    } else {
        let rest = text::replaced(pattern.skip(1), from, to);
        law_no_wildcard_is_left(pattern.skip(1));
        assert forall|i: int| 0 <= i <= path.len() - 3 implies !#[trigger] text::part_at(
            path,
            i,
            from,
        ) by {
            if i >= 1 {
                assert(path.subrange(i, i + 3) == rest.subrange(i - 1, i - 1 + 3));
                assert(!text::part_at(rest, i - 1, from));
            } else {
                lemma_first_char_of_path(pattern.skip(1));
                lemma_first_char_of_path(pattern.skip(1).skip(1));
                assert(path.subrange(0, 3)[0] == pattern[0]);
                assert(path.subrange(0, 3)[1] == rest[0]);
                assert(path.subrange(0, 3)[2] == rest[1]);
                if text::part_at(path, 0, from) {
                    assert(pattern[0] == '/' && pattern[1] == '*');
                    assert(!from.is_prefix_of(pattern.skip(1)));
                    assert(rest[1] == text::replaced(pattern.skip(1).skip(1), from, to)[0]);
                    assert(pattern[2] == '*');
                    assert(from =~= pattern.take(3));
                    assert(from.is_prefix_of(pattern));
                }
            }
        }
    }
}

/// A pattern without `/**` is the path of the router as it is.
pub proof fn law_plain_patterns_stay(pattern: Seq<char>)
    requires
        !text::has_part(pattern, "/**"@),
    ensures
        text::replaced(pattern, "/**"@, "/{*path}"@) == pattern,
{
    text::law_nothing_to_replace(pattern, "/**"@, "/{*path}"@);
}

/// The path of the router is a fixed point: filled in again, it stays.
pub proof fn law_router_paths_stay(pattern: Seq<char>)
    ensures
        ({
            let path = text::replaced(pattern, "/**"@, "/{*path}"@);
            text::replaced(path, "/**"@, "/{*path}"@) == path
        }),
{
    law_no_wildcard_is_left(pattern);
    law_plain_patterns_stay(text::replaced(pattern, "/**"@, "/{*path}"@));
}

} // verus!
