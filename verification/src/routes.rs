//! Which requests the service answers at all.
//!
//! A request is held against one table of paths and methods before anything
//! else is looked at: what is not in it reaches no handler.
use vstd::prelude::*;
use crate::http::{Method, Status};
use crate::text;

verus! {

/// What can be asked of the service.
#[derive(Debug, Clone, Copy, PartialEq, Eq, Structural)]
pub enum Route {
    /// DNS queries.
    DnsQuery,
    /// Whether the service is well.
    Health,
    /// The state of the service.
    AdminStatus,
    /// A change of settings.
    AdminConfig,
    /// Reading all settings from disk again.
    AdminReset,
    /// Stopping the service.
    AdminShutdown,
    /// The override lists.
    AdminOverrides,
    /// A new override.
    AdminOverridesAdd,
    /// Removing an override.
    AdminOverridesRemove,
    /// The settings of the cache.
    AdminCacheConfig,
    /// A change of the settings of the cache.
    AdminCacheConfigApply,
    /// The blocked countries.
    AdminGeoip,
    /// A new blocked country.
    AdminGeoipAdd,
    /// Removing a blocked country.
    AdminGeoipRemove,
    /// The MaxMind credentials.
    AdminGeoipMaxmind,
    /// Removing the MaxMind credentials.
    AdminGeoipMaxmindClear,
    /// The voters.
    AdminProviders,
    /// A new voter.
    AdminProvidersAdd,
    /// Removing a voter.
    AdminProvidersRemove,
    /// Switching a voter on or off.
    AdminProvidersSetEnabled,
    /// The query log.
    AdminLog,
    /// Clearing the query log.
    AdminLogClear,
    /// Removing what the service left on the machine.
    AdminUninstallLocalState,
    /// The page of the web interface.
    AdminUi,
    /// Its script.
    AdminUiJs,
    /// Its style sheet.
    AdminUiCss,
}

impl Route {
    /// Where a route is found.
    pub open spec fn spec_path(self) -> Seq<char> {
        match self {
            Route::DnsQuery => "/dns-query"@,
            Route::Health => "/health"@,
            Route::AdminStatus => "/admin/status"@,
            Route::AdminConfig => "/admin/config"@,
            Route::AdminReset => "/admin/reset"@,
            Route::AdminShutdown => "/admin/shutdown"@,
            Route::AdminOverrides => "/admin/overrides"@,
            Route::AdminOverridesAdd => "/admin/overrides/add"@,
            Route::AdminOverridesRemove => "/admin/overrides/remove"@,
            Route::AdminCacheConfig => "/admin/cache-config"@,
            Route::AdminCacheConfigApply => "/admin/cache-config/apply"@,
            Route::AdminGeoip => "/admin/geoip"@,
            Route::AdminGeoipAdd => "/admin/geoip/add"@,
            Route::AdminGeoipRemove => "/admin/geoip/remove"@,
            Route::AdminGeoipMaxmind => "/admin/geoip/maxmind"@,
            Route::AdminGeoipMaxmindClear => "/admin/geoip/maxmind/clear"@,
            Route::AdminProviders => "/admin/providers"@,
            Route::AdminProvidersAdd => "/admin/providers/add"@,
            Route::AdminProvidersRemove => "/admin/providers/remove"@,
            Route::AdminProvidersSetEnabled => "/admin/providers/set-enabled"@,
            Route::AdminLog => "/admin/log"@,
            Route::AdminLogClear => "/admin/log/clear"@,
            Route::AdminUninstallLocalState => "/admin/uninstall-local-state"@,
            Route::AdminUi => "/admin/ui"@,
            Route::AdminUiJs => "/admin/ui/main.js"@,
            Route::AdminUiCss => "/admin/ui/style.css"@,
        }
    }

    /// By which methods a route is asked for.
    pub open spec fn spec_methods(self) -> Seq<Method> {
        match self {
            Route::DnsQuery | Route::AdminGeoipMaxmind => seq![Method::Get, Method::Post],
            Route::Health
            | Route::AdminStatus
            | Route::AdminOverrides
            | Route::AdminCacheConfig
            | Route::AdminGeoip
            | Route::AdminProviders
            | Route::AdminLog
            | Route::AdminUi
            | Route::AdminUiJs
            | Route::AdminUiCss => seq![Method::Get],
            _ => seq![Method::Post],
        }
    }

    /// Whether a route may be asked for by a method.
    pub open spec fn allows(self, method: Method) -> bool {
        self.spec_methods().contains(method)
    }

    /// Where a route is found.
    pub fn path(self) -> (path: &'static str)
        ensures
            path@ == self.spec_path(),
    {
        match self {
            Route::DnsQuery => "/dns-query",
            Route::Health => "/health",
            Route::AdminStatus => "/admin/status",
            Route::AdminConfig => "/admin/config",
            Route::AdminReset => "/admin/reset",
            Route::AdminShutdown => "/admin/shutdown",
            Route::AdminOverrides => "/admin/overrides",
            Route::AdminOverridesAdd => "/admin/overrides/add",
            Route::AdminOverridesRemove => "/admin/overrides/remove",
            Route::AdminCacheConfig => "/admin/cache-config",
            Route::AdminCacheConfigApply => "/admin/cache-config/apply",
            Route::AdminGeoip => "/admin/geoip",
            Route::AdminGeoipAdd => "/admin/geoip/add",
            Route::AdminGeoipRemove => "/admin/geoip/remove",
            Route::AdminGeoipMaxmind => "/admin/geoip/maxmind",
            Route::AdminGeoipMaxmindClear => "/admin/geoip/maxmind/clear",
            Route::AdminProviders => "/admin/providers",
            Route::AdminProvidersAdd => "/admin/providers/add",
            Route::AdminProvidersRemove => "/admin/providers/remove",
            Route::AdminProvidersSetEnabled => "/admin/providers/set-enabled",
            Route::AdminLog => "/admin/log",
            Route::AdminLogClear => "/admin/log/clear",
            Route::AdminUninstallLocalState => "/admin/uninstall-local-state",
            Route::AdminUi => "/admin/ui",
            Route::AdminUiJs => "/admin/ui/main.js",
            Route::AdminUiCss => "/admin/ui/style.css",
        }
    }

    /// By which methods a route is asked for.
    pub fn methods(self) -> (methods: Vec<Method>)
        ensures
            methods@ == self.spec_methods(),
    {
        let methods: Vec<Method> = match self {
            Route::DnsQuery | Route::AdminGeoipMaxmind => vec![Method::Get, Method::Post],
            Route::Health
            | Route::AdminStatus
            | Route::AdminOverrides
            | Route::AdminCacheConfig
            | Route::AdminGeoip
            | Route::AdminProviders
            | Route::AdminLog
            | Route::AdminUi
            | Route::AdminUiJs
            | Route::AdminUiCss => vec![Method::Get],
            _ => vec![Method::Post],
        };
        assert(methods@ =~= self.spec_methods());
        methods
    }
}

/// Every route, in the order of the table.
pub open spec fn route_table() -> Seq<Route> {
    seq![
        Route::DnsQuery,
        Route::Health,
        Route::AdminStatus,
        Route::AdminConfig,
        Route::AdminReset,
        Route::AdminShutdown,
        Route::AdminOverrides,
        Route::AdminOverridesAdd,
        Route::AdminOverridesRemove,
        Route::AdminCacheConfig,
        Route::AdminCacheConfigApply,
        Route::AdminGeoip,
        Route::AdminGeoipAdd,
        Route::AdminGeoipRemove,
        Route::AdminGeoipMaxmind,
        Route::AdminGeoipMaxmindClear,
        Route::AdminProviders,
        Route::AdminProvidersAdd,
        Route::AdminProvidersRemove,
        Route::AdminProvidersSetEnabled,
        Route::AdminLog,
        Route::AdminLogClear,
        Route::AdminUninstallLocalState,
        Route::AdminUi,
        Route::AdminUiJs,
        Route::AdminUiCss,
    ]
}

/// Every route, in the order of the table.
pub fn routes() -> (table: Vec<Route>)
    ensures
        table@ == route_table(),
        forall|route: Route| table@.contains(route),
{
    let table: Vec<Route> = vec![
        Route::DnsQuery,
        Route::Health,
        Route::AdminStatus,
        Route::AdminConfig,
        Route::AdminReset,
        Route::AdminShutdown,
        Route::AdminOverrides,
        Route::AdminOverridesAdd,
        Route::AdminOverridesRemove,
        Route::AdminCacheConfig,
        Route::AdminCacheConfigApply,
        Route::AdminGeoip,
        Route::AdminGeoipAdd,
        Route::AdminGeoipRemove,
        Route::AdminGeoipMaxmind,
        Route::AdminGeoipMaxmindClear,
        Route::AdminProviders,
        Route::AdminProvidersAdd,
        Route::AdminProvidersRemove,
        Route::AdminProvidersSetEnabled,
        Route::AdminLog,
        Route::AdminLogClear,
        Route::AdminUninstallLocalState,
        Route::AdminUi,
        Route::AdminUiJs,
        Route::AdminUiCss,
    ];
    proof {
        assert(table@ =~= route_table());
        lemma_the_table_is_complete();
    }
    table
}

proof fn lemma_the_table_is_complete()
    ensures
        forall|route: Route| route_table().contains(route),
{
    assert forall|route: Route| route_table().contains(route) by {
        let table = route_table();
        match route {
            Route::DnsQuery => assert(table[0] == route),
            Route::Health => assert(table[1] == route),
            Route::AdminStatus => assert(table[2] == route),
            Route::AdminConfig => assert(table[3] == route),
            Route::AdminReset => assert(table[4] == route),
            Route::AdminShutdown => assert(table[5] == route),
            Route::AdminOverrides => assert(table[6] == route),
            Route::AdminOverridesAdd => assert(table[7] == route),
            Route::AdminOverridesRemove => assert(table[8] == route),
            Route::AdminCacheConfig => assert(table[9] == route),
            Route::AdminCacheConfigApply => assert(table[10] == route),
            Route::AdminGeoip => assert(table[11] == route),
            Route::AdminGeoipAdd => assert(table[12] == route),
            Route::AdminGeoipRemove => assert(table[13] == route),
            Route::AdminGeoipMaxmind => assert(table[14] == route),
            Route::AdminGeoipMaxmindClear => assert(table[15] == route),
            Route::AdminProviders => assert(table[16] == route),
            Route::AdminProvidersAdd => assert(table[17] == route),
            Route::AdminProvidersRemove => assert(table[18] == route),
            Route::AdminProvidersSetEnabled => assert(table[19] == route),
            Route::AdminLog => assert(table[20] == route),
            Route::AdminLogClear => assert(table[21] == route),
            Route::AdminUninstallLocalState => assert(table[22] == route),
            Route::AdminUi => assert(table[23] == route),
            Route::AdminUiJs => assert(table[24] == route),
            Route::AdminUiCss => assert(table[25] == route),
        }
    }
}

/// The route at a path, if there is one.
pub fn route_at(path: &str) -> (found: Option<Route>)
    ensures
        match found {
            Some(route) => path@ == route.spec_path(),
            None => forall|route: Route| path@ != #[trigger] route.spec_path(),
        },
{
    let table = routes();
    let mut i: usize = 0;
    while i < table.len()
        invariant
            i <= table@.len(),
            forall|j: int| 0 <= j < i ==> path@ != (#[trigger] table@[j]).spec_path(),
        decreases table@.len() - i,
    {
        if text::same_text(path, table[i].path()) {
            return Some(table[i]);
        }
        i = i + 1;
    }
    proof {
        assert forall|route: Route| path@ != #[trigger] route.spec_path() by {
            assert(table@.contains(route));
            let j = choose|j: int| 0 <= j < table@.len() && table@[j] == route;
            assert(table@[j].spec_path() != path@);
        }
    }
    None
}

fn has_method(methods: &[Method], method: Method) -> (yes: bool)
    ensures
        yes == methods@.contains(method),
{
    let mut i: usize = 0;
    while i < methods.len()
        invariant
            i <= methods@.len(),
            forall|j: int| 0 <= j < i ==> methods@[j] != method,
        decreases methods@.len() - i,
    {
        if methods[i] == method {
            return true;
        }
        i = i + 1;
    }
    false
}

/// The route that a request reaches, or how it is refused: a path that is not
/// in the table is not found, and one that is there is not asked for by
/// another method than its own.
pub fn serve(method: Method, path: &str) -> (r: Result<Route, Status>)
    ensures
        match r {
            Ok(route) => path@ == route.spec_path() && route.allows(method),
            Err(Status::NotFound) => forall|route: Route| path@ != #[trigger] route.spec_path(),
            Err(status) => status == Status::MethodNotAllowed && exists|route: Route|
                path@ == #[trigger] route.spec_path() && !route.allows(method),
        },
{
    match route_at(path) {
        None => Err(Status::NotFound),
        Some(route) => {
            if has_method(route.methods().as_slice(), method) {
                Ok(route)
            } else {
                assert(path@ == route.spec_path());
                Err(Status::MethodNotAllowed)
            }
        },
    }
}

/// No two routes share a path, so that a path says which route it is.
pub proof fn law_paths_are_distinct(a: Route, b: Route)
    requires
        a.spec_path() == b.spec_path(),
    ensures
        a == b,
{
    reveal_strlit("/dns-query");
    reveal_strlit("/health");
    reveal_strlit("/admin/status");
    reveal_strlit("/admin/config");
    reveal_strlit("/admin/reset");
    reveal_strlit("/admin/shutdown");
    reveal_strlit("/admin/overrides");
    reveal_strlit("/admin/overrides/add");
    reveal_strlit("/admin/overrides/remove");
    reveal_strlit("/admin/cache-config");
    reveal_strlit("/admin/cache-config/apply");
    reveal_strlit("/admin/geoip");
    reveal_strlit("/admin/geoip/add");
    reveal_strlit("/admin/geoip/remove");
    reveal_strlit("/admin/geoip/maxmind");
    reveal_strlit("/admin/geoip/maxmind/clear");
    reveal_strlit("/admin/providers");
    reveal_strlit("/admin/providers/add");
    reveal_strlit("/admin/providers/remove");
    reveal_strlit("/admin/providers/set-enabled");
    reveal_strlit("/admin/log");
    reveal_strlit("/admin/log/clear");
    reveal_strlit("/admin/uninstall-local-state");
    reveal_strlit("/admin/ui");
    reveal_strlit("/admin/ui/main.js");
    reveal_strlit("/admin/ui/style.css");
    let p = a.spec_path();
    match a {
        Route::DnsQuery => assert(p.len() == 10 && p[1] == 'd'),
        Route::Health => assert(p.len() == 7),
        Route::AdminStatus => assert(p.len() == 13 && p[7] == 's'),
        Route::AdminConfig => assert(p.len() == 13 && p[7] == 'c'),
        Route::AdminReset => assert(p.len() == 12 && p[7] == 'r'),
        Route::AdminShutdown => assert(p.len() == 15),
        Route::AdminOverrides => assert(p.len() == 16 && p[7] == 'o'),
        Route::AdminOverridesAdd => assert(p.len() == 20 && p[7] == 'o'),
        Route::AdminOverridesRemove => assert(p.len() == 23 && p[7] == 'o'),
        Route::AdminCacheConfig => assert(p.len() == 19 && p[7] == 'c'),
        Route::AdminCacheConfigApply => assert(p.len() == 25),
        Route::AdminGeoip => assert(p.len() == 12 && p[7] == 'g'),
        Route::AdminGeoipAdd => assert(p.len() == 16 && p[7] == 'g'),
        Route::AdminGeoipRemove => assert(p.len() == 19 && p[7] == 'g'),
        Route::AdminGeoipMaxmind => assert(p.len() == 20 && p[7] == 'g'),
        Route::AdminGeoipMaxmindClear => assert(p.len() == 26),
        Route::AdminProviders => assert(p.len() == 16 && p[7] == 'p'),
        Route::AdminProvidersAdd => assert(p.len() == 20 && p[7] == 'p'),
        Route::AdminProvidersRemove => assert(p.len() == 23 && p[7] == 'p'),
        Route::AdminProvidersSetEnabled => assert(p.len() == 28 && p[7] == 'p'),
        Route::AdminLog => assert(p.len() == 10 && p[1] == 'a'),
        Route::AdminLogClear => assert(p.len() == 16 && p[7] == 'l'),
        Route::AdminUninstallLocalState => assert(p.len() == 28 && p[7] == 'u'),
        Route::AdminUi => assert(p.len() == 9),
        Route::AdminUiJs => assert(p.len() == 17),
        Route::AdminUiCss => assert(p.len() == 19 && p[7] == 'u'),
    }
    match b {
        Route::DnsQuery => assert(p.len() == 10 && p[1] == 'd'),
        Route::Health => assert(p.len() == 7),
        Route::AdminStatus => assert(p.len() == 13 && p[7] == 's'),
        Route::AdminConfig => assert(p.len() == 13 && p[7] == 'c'),
        Route::AdminReset => assert(p.len() == 12 && p[7] == 'r'),
        Route::AdminShutdown => assert(p.len() == 15),
        Route::AdminOverrides => assert(p.len() == 16 && p[7] == 'o'),
        Route::AdminOverridesAdd => assert(p.len() == 20 && p[7] == 'o'),
        Route::AdminOverridesRemove => assert(p.len() == 23 && p[7] == 'o'),
        Route::AdminCacheConfig => assert(p.len() == 19 && p[7] == 'c'),
        Route::AdminCacheConfigApply => assert(p.len() == 25),
        Route::AdminGeoip => assert(p.len() == 12 && p[7] == 'g'),
        Route::AdminGeoipAdd => assert(p.len() == 16 && p[7] == 'g'),
        Route::AdminGeoipRemove => assert(p.len() == 19 && p[7] == 'g'),
        Route::AdminGeoipMaxmind => assert(p.len() == 20 && p[7] == 'g'),
        Route::AdminGeoipMaxmindClear => assert(p.len() == 26),
        Route::AdminProviders => assert(p.len() == 16 && p[7] == 'p'),
        Route::AdminProvidersAdd => assert(p.len() == 20 && p[7] == 'p'),
        Route::AdminProvidersRemove => assert(p.len() == 23 && p[7] == 'p'),
        Route::AdminProvidersSetEnabled => assert(p.len() == 28 && p[7] == 'p'),
        Route::AdminLog => assert(p.len() == 10 && p[1] == 'a'),
        Route::AdminLogClear => assert(p.len() == 16 && p[7] == 'l'),
        Route::AdminUninstallLocalState => assert(p.len() == 28 && p[7] == 'u'),
        Route::AdminUi => assert(p.len() == 9),
        Route::AdminUiJs => assert(p.len() == 17),
        Route::AdminUiCss => assert(p.len() == 19 && p[7] == 'u'),
    }
}

/// Every route is asked for by `GET` or by `POST` and by nothing else, and only
/// two by both.
pub proof fn law_methods_of_routes(route: Route, method: Method)
    ensures
        route.allows(method) ==> method == Method::Get || method == Method::Post,
        route.allows(Method::Get) || route.allows(Method::Post),
        route.allows(Method::Get) && route.allows(Method::Post) ==> route == Route::DnsQuery
            || route == Route::AdminGeoipMaxmind,
{
    let methods = route.spec_methods();
    assert(methods.contains(methods[0]));
}

/// Where each route is found: DNS queries and the health of the service at the
/// root, and all of the administration below `/admin`. What changes a part of the
/// settings stands below the path that shows it.
pub proof fn law_where_each_route_is_found()
    ensures
        Route::DnsQuery.spec_path() == "/dns-query"@,
        Route::Health.spec_path() == "/health"@,
        Route::AdminStatus.spec_path() == "/admin/status"@,
        Route::AdminConfig.spec_path() == "/admin/config"@,
        Route::AdminReset.spec_path() == "/admin/reset"@,
        Route::AdminShutdown.spec_path() == "/admin/shutdown"@,
        Route::AdminOverrides.spec_path() == "/admin/overrides"@,
        Route::AdminOverridesAdd.spec_path() == "/admin/overrides/add"@,
        Route::AdminOverridesRemove.spec_path() == "/admin/overrides/remove"@,
        Route::AdminCacheConfig.spec_path() == "/admin/cache-config"@,
        Route::AdminCacheConfigApply.spec_path() == "/admin/cache-config/apply"@,
        Route::AdminGeoip.spec_path() == "/admin/geoip"@,
        Route::AdminGeoipAdd.spec_path() == "/admin/geoip/add"@,
        Route::AdminGeoipRemove.spec_path() == "/admin/geoip/remove"@,
        Route::AdminGeoipMaxmind.spec_path() == "/admin/geoip/maxmind"@,
        Route::AdminGeoipMaxmindClear.spec_path() == "/admin/geoip/maxmind/clear"@,
        Route::AdminProviders.spec_path() == "/admin/providers"@,
        Route::AdminProvidersAdd.spec_path() == "/admin/providers/add"@,
        Route::AdminProvidersRemove.spec_path() == "/admin/providers/remove"@,
        Route::AdminProvidersSetEnabled.spec_path() == "/admin/providers/set-enabled"@,
        Route::AdminLog.spec_path() == "/admin/log"@,
        Route::AdminLogClear.spec_path() == "/admin/log/clear"@,
        Route::AdminUninstallLocalState.spec_path() == "/admin/uninstall-local-state"@,
        Route::AdminUi.spec_path() == "/admin/ui"@,
        Route::AdminUiJs.spec_path() == "/admin/ui/main.js"@,
        Route::AdminUiCss.spec_path() == "/admin/ui/style.css"@,
{
}

/// What may be asked for: showing is by `GET`, changing is by `POST`, and DNS
/// queries and the MaxMind credentials have both. Nothing has another method.
pub proof fn law_what_may_be_asked_for(route: Route)
    ensures
        !route.allows(Method::Other),
        route.allows(Method::Get) <==> (route == Route::DnsQuery
            || route == Route::AdminGeoipMaxmind
            || route == Route::Health
            || route == Route::AdminStatus
            || route == Route::AdminOverrides
            || route == Route::AdminCacheConfig
            || route == Route::AdminGeoip
            || route == Route::AdminProviders
            || route == Route::AdminLog
            || route == Route::AdminUi
            || route == Route::AdminUiJs
            || route == Route::AdminUiCss),
        route.allows(Method::Post) <==> !(route == Route::Health
            || route == Route::AdminStatus
            || route == Route::AdminOverrides
            || route == Route::AdminCacheConfig
            || route == Route::AdminGeoip
            || route == Route::AdminProviders
            || route == Route::AdminLog
            || route == Route::AdminUi
            || route == Route::AdminUiJs
            || route == Route::AdminUiCss),
        route.spec_methods().no_duplicates(),
        route.allows(Method::Get) && route.allows(Method::Post) ==> route.spec_methods()[0]
            == Method::Get,
{
    let methods = route.spec_methods();
    assert(methods.contains(methods[0]));
    assert(methods.len() == 2 ==> methods.contains(methods[1]));
    assert(methods.len() == 1 || methods.len() == 2);
}

/// The table begins with what everyone may use and has each route once.
pub proof fn law_each_route_is_in_the_table_once(route: Route)
    ensures
        route_table().contains(route),
        route_table().no_duplicates(),
        route_table().len() == 26,
        route_table()[0] == Route::DnsQuery,
        route_table()[1] == Route::Health,
{
    lemma_the_table_is_complete();
}

} // verus!
