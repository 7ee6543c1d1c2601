use std::sync::Arc;
use vstd::prelude::*;

verus! {

/// A counter handler.
///
/// Handlers are shared between threads through `Counter`, so a handler must be
/// `Send + Sync`; a handler type that is not thread-safe cannot implement it.
pub trait CounterFn: Send + Sync {
    /// Increments the counter by the given amount.
    fn increment(&self, value: u64);

    /// Sets the counter to at least the given amount.
    fn absolute(&self, value: u64);
}

impl<T: CounterFn> CounterFn for Arc<T> {
    fn increment(&self, value: u64) {
        (**self).increment(value)
    }

    fn absolute(&self, value: u64) {
        (**self).absolute(value)
    }
}

/// A counter.
#[derive(Clone)]
pub struct Counter {
    inner: Option<Arc<dyn CounterFn + 'static>>,
}

impl Counter {
    /// The handler that updates are forwarded to, if any.
    pub closed spec fn handler(&self) -> Option<Arc<dyn CounterFn + 'static>> {
        self.inner
    }

    /// Whether this counter discards every update.
    pub open spec fn is_noop(&self) -> bool {
        self.handler() is None
    }

    /// Creates a no-op `Counter` which does nothing.
    pub fn noop() -> (c: Self)
        ensures
            c.is_noop(),
    {
        Counter { inner: None }
    }

    /// Creates a `Counter` based on a shared handler.
    pub fn from_arc(a: Arc<dyn CounterFn + 'static>) -> (c: Self)
        ensures
            c.handler() == Some(a),
    {
        let inner = Some(a);
        Counter { inner }
    }

    /// Increments the counter.
    pub fn increment(&self, value: u64) {
        if let Some(c) = &self.inner {
            c.increment(value)
        }
    }

    /// Sets the counter to an absolute value.
    pub fn absolute(&self, value: u64) {
        if let Some(c) = &self.inner {
            c.absolute(value)
        }
    }
}

} // verus!
