use crate::endpoint::{is_web_scheme, normalize, normalized, Endpoint, EndpointView};
use vstd::prelude::*;

verus! {

/// A websocket transport that only allows secure connections (`wss://`).
///
/// It owns the frame transport `D` that sends and receives over the open
/// socket, and the current base URL, which is always in canonical form.
/// Writers take it by `&mut`, so a caller that shares the transport between
/// tasks puts it behind a reader/writer lock: each write then replaces the
/// whole URL, and the last writer wins.
pub struct WebsocketSecureTransport<D> {
    inner: D,
    base_url: Endpoint,
}

impl<D> WebsocketSecureTransport<D> {
    /// The frame transport that this adapter wraps.
    pub closed spec fn delegate(&self) -> D {
        self.inner
    }

    /// The current base URL.
    pub closed spec fn url(&self) -> EndpointView {
        self.base_url@
    }

    /// Wraps a frame transport over an opened socket, with the canonical form
    /// of `base_url` as its current base URL.
    pub fn new(inner: D, base_url: Endpoint) -> (r: Self)
        requires
            is_web_scheme(base_url@.scheme),
        ensures
            r.delegate() == inner,
            r.url() == normalized(base_url@),
    {
        WebsocketSecureTransport { inner, base_url: normalize(base_url) }
    }

    /// The frame transport that sends, receives and upgrades.
    pub fn inner(&self) -> (r: &D)
        ensures
            *r == self.delegate(),
    {
        &self.inner
    }

    /// A copy of the current base URL.
    pub fn base_url(&self) -> (r: Endpoint)
        ensures
            r@ == self.url(),
    {
        self.base_url.snapshot()
    }

    /// Replaces the current base URL by the canonical form of `base_url`.
    /// This does not reconnect.
    pub fn set_base_url(&mut self, base_url: Endpoint)
        requires
            is_web_scheme(base_url@.scheme),
        ensures
            final(self).url() == normalized(base_url@),
            final(self).delegate() == old(self).delegate(),
    {
        self.base_url = normalize(base_url);
    }
}

} // verus!
