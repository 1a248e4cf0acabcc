use vstd::prelude::*;

use crate::structs::server::{ProxyError, ServerName};

verus! {

/// How a call to another server travels.
#[derive(Clone, Copy, Debug, PartialEq, Eq, Structural)]
pub enum Route {
    /// Straight to the target server.
    Direct,
    /// Through the user's own server, which forwards it.
    Proxy,
}

/// Whether calls to a server go through the user's own server: only where the user's own server
/// is known and is another one.
pub open spec fn proxies_to(own: Option<Seq<char>>, target: Seq<char>) -> bool {
    own matches Some(o) && o != target
}

/// What a client to another server remembers: whether the user's own server refused to
/// forward, after which every call goes direct.
#[derive(Clone, Copy, Debug)]
pub struct ProxyState {
    pub unsupported: bool,
}

/// The server names, seen as characters.
pub open spec fn own_view(own: Option<ServerName>) -> Option<Seq<char>> {
    match own {
        Some(o) => Some(o@),
        None => None,
    }
}

/// Whether a client to `target` starts out forwarding through the user's own server `own`.
pub fn initial_state(own: &Option<ServerName>, target: &ServerName) -> (s: ProxyState)
    ensures
        s.unsupported == !proxies_to(own_view(*own), target@),
{
    match own {
        Some(o) => ProxyState { unsupported: crate::bytes::str_eq(o.as_str(), target.as_str()) },
        None => ProxyState { unsupported: true },
    }
}

/// The route of a call in state `state`.
pub open spec fn route_spec(state: ProxyState, own: Option<Seq<char>>, target: Seq<char>) -> Route {
    if !state.unsupported && proxies_to(own, target) {
        Route::Proxy
    } else {
        Route::Direct
    }
}

/// The route of the next call: direct once forwarding is known not to work, or where no
/// forwarding is called for; else through the user's own server.
pub fn route(state: &ProxyState, own: &Option<ServerName>, target: &ServerName) -> (r: Route)
    ensures
        r == route_spec(*state, own_view(*own), target@),
{
    if state.unsupported {
        return Route::Direct;
    }
    match own {
        Some(o) => if crate::bytes::str_eq(o.as_str(), target.as_str()) {
            Route::Direct
        } else {
            Route::Proxy
        },
        None => Route::Direct,
    }
}

/// What follows a forwarded call that the user's own server answered with an error.
#[derive(Clone, Debug)]
pub enum ProxyFallback {
    /// The server does not forward: retry directly, and go direct from now on.
    RetryDirect,
    /// The target failed; the call fails with this message.
    Fail(String),
}

/// Handles the error of a forwarded call: a server that does not forward makes this and all
/// later calls go direct; an error of the target fails the call.
pub fn on_proxy_error(state: &mut ProxyState, err: &ProxyError) -> (r: ProxyFallback)
    ensures
        match *err {
            ProxyError::NotSupported => r is RetryDirect && final(state).unsupported,
            ProxyError::Upstream(m) => r matches ProxyFallback::Fail(f) && f@ == m@
                && final(state).unsupported == old(state).unsupported,
        },
{
    match err {
        ProxyError::NotSupported => {
            state.unsupported = true;
            ProxyFallback::RetryDirect
        },
        ProxyError::Upstream(m) => ProxyFallback::Fail(m.clone()),
    }
}

/// Once the user's own server has refused to forward, every later call goes direct.
pub proof fn lemma_direct_after_refusal(
    state: ProxyState,
    own: Option<Seq<char>>,
    target: Seq<char>,
)
    requires
        state.unsupported,
    ensures
        route_spec(state, own, target) == Route::Direct,
{
}

} // verus!
