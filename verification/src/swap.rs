//! The atomically swappable per-tenant router: a cell holding one
//! `(code, table)` pair. Readers take cheap snapshots that stay valid
//! across later swaps; a swap replaces the whole pair at once, so no
//! snapshot ever mixes the code of one swap with the table of another.
use std::sync::Arc;

use vstd::prelude::*;

use crate::errors::{AppError, BuildError};
use crate::method::HttpMethod;
use crate::router::{
    build_error_cause, entry_for, pattern_segs, routes_ok, slot_view, table_wf, ProjectRoutes,
    RouteMatch, RouterTable,
};

verus! {

/// One immutable pair of a script bundle and the routing table built
/// beside it.
#[derive(Debug)]
pub struct AppRouterInner {
    pub code: String,
    pub router: RouterTable,
}

impl AppRouterInner {
    /// Wraps a bundle and a table into one immutable pair.
    pub fn new(code: &str, router: RouterTable) -> (r: AppRouterInner)
        ensures
            r.code@ == code@,
            r.router == router,
    {
        AppRouterInner { code: code.to_owned(), router }
    }
}

/// The atomic cell of a swappable router. Holds its pair behind an atomic
/// pointer so that snapshots outlive later stores without copying.
#[verifier::external_body]
pub struct RouterCell {
    cell: arc_swap::ArcSwap<AppRouterInner>,
}

/// The pair a router cell currently holds.
pub uninterp spec fn cell_contents(c: RouterCell) -> AppRouterInner;

/// Relies on `arc_swap::ArcSwap::from_pointee`: the new cell holds exactly
/// the pair it was built from.
#[verifier::external_body]
fn cell_new(inner: AppRouterInner) -> (c: RouterCell)
    ensures
        cell_contents(c) == inner,
{
    RouterCell { cell: arc_swap::ArcSwap::from_pointee(inner) }
}

/// Relies on `arc_swap::ArcSwapAny::store`: afterwards the cell holds
/// exactly the stored pair; snapshots taken earlier are unaffected.
#[verifier::external_body]
fn cell_store(c: &mut RouterCell, inner: AppRouterInner)
    ensures
        cell_contents(*final(c)) == inner,
{
    c.cell.store(Arc::new(inner));
}

/// Relies on `arc_swap::ArcSwapAny::load_full`: returns a counted
/// reference to the pair the cell holds, valid until dropped.
#[verifier::external_body]
fn cell_load(c: &RouterCell) -> (r: Arc<AppRouterInner>)
    ensures
        *r == cell_contents(*c),
{
    c.cell.load_full()
}

/// A read-only snapshot of a swappable router, valid until dropped even
/// across later swaps.
pub struct AppRouter {
    inner: Arc<AppRouterInner>,
}

impl AppRouter {
    /// The pair this snapshot observes.
    pub closed spec fn snapshot(&self) -> AppRouterInner {
        *self.inner
    }

    /// The script bundle of the snapshot.
    pub fn code(&self) -> (r: &String)
        ensures
            r == self.snapshot().code,
    {
        &self.inner.code
    }

    /// Matches `path` under `m` against the snapshot's table.
    pub fn match_it(&self, m: HttpMethod, path: &str) -> (r: Result<RouteMatch, AppError>)
        requires
            table_wf(self.snapshot().router),
        ensures
            crate::router::match_contract(self.snapshot().router, m, path@, r),
    {
        self.inner.router.match_route(m, path)
    }
}

/// The swappable router of one tenant.
pub struct SwappableAppRouter {
    cell: RouterCell,
}

impl SwappableAppRouter {
    /// The pair the router currently holds.
    pub closed spec fn current(&self) -> AppRouterInner {
        cell_contents(self.cell)
    }

    /// The router's table is well formed; established by construction and
    /// preserved by every swap.
    pub open spec fn wf(&self) -> bool {
        table_wf(self.current().router)
    }

    /// Builds a table from `routes` and stores it beside `code`. Fails
    /// exactly when the routes are refused (invalid pattern, duplicate
    /// method on a path, ambiguous patterns).
    pub fn try_new(code: &str, routes: &ProjectRoutes) -> (r: Result<SwappableAppRouter, BuildError>)
        ensures
            r is Ok <==> routes_ok(routes@),
            match r {
                Ok(s) => s.wf() && s.current().code@ == code@ && table_from(
                    s.current().router,
                    routes@,
                ),
                Err(e) => build_error_cause(e, routes@),
            },
    {
        let table = RouterTable::build(routes)?;
        let inner = AppRouterInner::new(code, table);
        Ok(SwappableAppRouter { cell: cell_new(inner) })
    }

    /// Builds a table from `routes` and atomically replaces the held pair.
    /// On failure the held pair is unchanged. Snapshots taken before the
    /// swap keep observing the old pair.
    pub fn swap(&mut self, code: &str, routes: &ProjectRoutes) -> (r: Result<(), BuildError>)
        ensures
            r is Ok <==> routes_ok(routes@),
            match r {
                Ok(()) => final(self).wf() && final(self).current().code@ == code@ && table_from(
                    final(self).current().router,
                    routes@,
                ),
                Err(e) => final(self).current() == old(self).current() && build_error_cause(
                    e,
                    routes@,
                ),
            },
    {
        let table = match RouterTable::build(routes) {
            Ok(t) => t,
            Err(e) => {
                return Err(e);
            },
        };
        let inner = AppRouterInner::new(code, table);
        cell_store(&mut self.cell, inner);
        Ok(())
    }

    /// Takes a snapshot of the held pair.
    pub fn load(&self) -> (r: AppRouter)
        ensures
            r.snapshot() == self.current(),
    {
        AppRouter { inner: cell_load(&self.cell) }
    }
}

/// Law: a snapshot is never torn. Both fields of what `load` returns come
/// from the one pair the router holds, which `try_new` and `swap` always
/// store whole: a reader cannot observe the code of one swap beside the
/// table of another.
pub proof fn lemma_snapshot_untorn(r: SwappableAppRouter, s: AppRouter)
    requires
        s.snapshot() == r.current(),
    ensures
        s.snapshot().code == r.current().code,
        s.snapshot().router == r.current().router,
{
}

/// The table relation `try_new` and `swap` establish: row `i` of the table
/// was built from row `i` of the routes.
pub open spec fn table_from(t: RouterTable, routes: Seq<(String, Vec<crate::router::ProjectRoute>)>) -> bool {
    &&& t.entries@.len() == routes.len()
    &&& forall|i: int|
        0 <= i < routes.len() ==> (#[trigger] t.entries@[i].segs).deep_view() == pattern_segs(
            routes[i].0@,
        )
    &&& forall|i: int, m: HttpMethod|
        0 <= i < routes.len() ==> #[trigger] slot_view(t.entries@[i].route, m) == entry_for(
            routes[i].1@,
            m,
        )
}

} // verus!
