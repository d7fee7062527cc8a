//! What the two listeners answer to. The public one knows what a recipient needs
//! and nothing else.

use crate::text::has_prefix;
use vstd::prelude::*;

verus! {

/// The method of a request.
#[derive(Clone, Copy, Debug, PartialEq, Eq, Structural)]
pub enum Method {
    Get,
    Post,
    Patch,
    Delete,
}

/// What a request is for.
#[derive(Clone, Copy, Debug, PartialEq, Eq, Structural)]
pub enum Action {
    ListShares,
    CreateShare,
    CreateFolderShare,
    ServerStatus,
    UpdateShare,
    DeleteShare,
    RevokeShare,
    ShareInfo,
    UnlockShare,
    Download,
    SharePage,
}

impl Action {
    /// What a recipient may do. Everything else is for the sender.
    pub open spec fn for_recipients(self) -> bool {
        self == Action::ShareInfo || self == Action::UnlockShare || self == Action::Download || self
            == Action::SharePage
    }
}

/// A route: a path in which `:id` stands for the id of a share, and what a request
/// with this method is for there. Some routes take a body of more than the usual
/// length.
pub struct Route {
    pub method: Method,
    pub path: String,
    pub action: Action,
    pub body_limit: Option<usize>,
}

#[verifier::ext_equal]
pub struct RouteView {
    pub method: Method,
    pub path: Seq<char>,
    pub action: Action,
    pub body_limit: Option<usize>,
}

impl View for Route {
    type V = RouteView;

    open spec fn view(&self) -> RouteView {
        RouteView {
            method: self.method,
            path: self.path@,
            action: self.action,
            body_limit: self.body_limit,
        }
    }
}

pub open spec fn route_views(routes: Seq<Route>) -> Seq<RouteView> {
    routes.map_values(|r: Route| r@)
}

pub open spec fn route_view(
    method: Method,
    path: Seq<char>,
    action: Action,
    body_limit: Option<usize>,
) -> RouteView {
    RouteView { method: method, path: path, action: action, body_limit: body_limit }
}

fn route(method: Method, path: &str, action: Action, body_limit: Option<usize>) -> (r: Route)
    ensures
        r@ == route_view(method, path@, action, body_limit),
{
    Route { method, path: path.to_string(), action, body_limit }
}

/// What a form takes beside the file in it, in bytes.
pub const FORM_ALLOWANCE: usize = 16 * 1024 * 1024;

/// The longest body of a request to the management listener.
pub open spec fn longest_body(max_upload_bytes: u64) -> usize {
    if max_upload_bytes + FORM_ALLOWANCE <= usize::MAX {
        (max_upload_bytes + FORM_ALLOWANCE) as usize
    } else {
        usize::MAX
    }
}

/// The longest body of a request to the management listener: the largest file,
/// and room for the rest of the form.
pub fn upload_limit(max_upload_bytes: u64) -> (r: usize)
    ensures
        r == longest_body(max_upload_bytes),
{
    let sum: u128 = (max_upload_bytes as u128) + (FORM_ALLOWANCE as u128);
    if sum <= usize::MAX as u128 {
        sum as usize
    } else {
        usize::MAX
    }
}

/// The routes of the management listener. Below `/api` a body may be as long as
/// the largest file asks for.
pub open spec fn management_routes(max_upload_bytes: u64) -> Seq<RouteView> {
    let limit = Some(longest_body(max_upload_bytes));
    seq![
        route_view(Method::Get, "/api/shares"@, Action::ListShares, limit),
        route_view(Method::Post, "/api/shares"@, Action::CreateShare, limit),
        route_view(Method::Post, "/api/shares/folder"@, Action::CreateFolderShare, limit),
        route_view(Method::Get, "/api/status"@, Action::ServerStatus, limit),
        route_view(Method::Patch, "/api/shares/:id"@, Action::UpdateShare, limit),
        route_view(Method::Delete, "/api/shares/:id"@, Action::DeleteShare, limit),
        route_view(Method::Post, "/api/shares/:id/revoke"@, Action::RevokeShare, limit),
        route_view(Method::Get, "/api/download/:id/info"@, Action::ShareInfo, limit),
        route_view(Method::Post, "/api/download/:id/unlock"@, Action::UnlockShare, limit),
        route_view(Method::Get, "/download/:id"@, Action::Download, None),
        route_view(Method::Get, "/s/:id"@, Action::SharePage, None),
    ]
}

/// The routes of the public listener.
pub open spec fn public_routes() -> Seq<RouteView> {
    seq![
        route_view(Method::Get, "/s/:id"@, Action::SharePage, None),
        route_view(Method::Get, "/download/:id"@, Action::Download, None),
        route_view(Method::Get, "/api/download/:id/info"@, Action::ShareInfo, None),
        route_view(Method::Post, "/api/download/:id/unlock"@, Action::UnlockShare, None),
    ]
}

/// The routes of the management listener. They can make, change and take away
/// shares, so they are for this machine alone.
pub fn management_router(max_upload_bytes: u64) -> (r: Vec<Route>)
    ensures
        route_views(r@) == management_routes(max_upload_bytes),
{
    let limit = Some(upload_limit(max_upload_bytes));
    let mut r: Vec<Route> = Vec::new();
    r.push(route(Method::Get, "/api/shares", Action::ListShares, limit));
    r.push(route(Method::Post, "/api/shares", Action::CreateShare, limit));
    r.push(route(Method::Post, "/api/shares/folder", Action::CreateFolderShare, limit));
    r.push(route(Method::Get, "/api/status", Action::ServerStatus, limit));
    r.push(route(Method::Patch, "/api/shares/:id", Action::UpdateShare, limit));
    r.push(route(Method::Delete, "/api/shares/:id", Action::DeleteShare, limit));
    r.push(route(Method::Post, "/api/shares/:id/revoke", Action::RevokeShare, limit));
    r.push(route(Method::Get, "/api/download/:id/info", Action::ShareInfo, limit));
    r.push(route(Method::Post, "/api/download/:id/unlock", Action::UnlockShare, limit));
    r.push(route(Method::Get, "/download/:id", Action::Download, None));
    r.push(route(Method::Get, "/s/:id", Action::SharePage, None));
    assert(route_views(r@) =~= management_routes(max_upload_bytes));
    r
}

/// The routes of the public listener, the only ones that may be reached from
/// outside.
pub fn public_router() -> (r: Vec<Route>)
    ensures
        route_views(r@) == public_routes(),
{
    let mut r: Vec<Route> = Vec::new();
    r.push(route(Method::Get, "/s/:id", Action::SharePage, None));
    r.push(route(Method::Get, "/download/:id", Action::Download, None));
    r.push(route(Method::Get, "/api/download/:id/info", Action::ShareInfo, None));
    r.push(route(Method::Post, "/api/download/:id/unlock", Action::UnlockShare, None));
    assert(route_views(r@) =~= public_routes());
    r
}

/// The public listener does only what a recipient may do, and none of its paths
/// lies where those of the dashboard lie.
pub proof fn law_public_routes_are_for_recipients(i: int)
    requires
        0 <= i < public_routes().len(),
    ensures
        public_routes()[i].action.for_recipients(),
        !has_prefix(public_routes()[i].path, "/api/shares"@),
        !has_prefix(public_routes()[i].path, "/api/status"@),
{
    reveal_strlit("/s/:id");
    reveal_strlit("/download/:id");
    reveal_strlit("/api/download/:id/info");
    reveal_strlit("/api/download/:id/unlock");
    reveal_strlit("/api/shares");
    reveal_strlit("/api/status");
    let path = public_routes()[i].path;
    assert(path.len() > 5);
    if path.len() >= 11 {
        assert(path.take(11)[1] == path[1]);
        assert(path.take(11)[5] == path[5]);
    }
}

/// Whatever a recipient can do, the sender can do from the dashboard in the same
/// way.
pub proof fn law_management_has_all_public_routes(max_upload_bytes: u64, i: int)
    requires
        0 <= i < public_routes().len(),
    ensures
        exists|j: int|
            0 <= j < management_routes(max_upload_bytes).len() && ({
                let m = #[trigger] management_routes(max_upload_bytes)[j];
                let p = public_routes()[i];
                m.method == p.method && m.path == p.path && m.action == p.action
            }),
{
    let all = management_routes(max_upload_bytes);
    let j: int = if i == 0 {
        10
    } else if i == 1 {
        9
    } else if i == 2 {
        7
    } else {
        8
    };
    assert(all[j].path == public_routes()[i].path);
}

} // verus!
