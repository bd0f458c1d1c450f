//! Privacy contexts: every window renders inside one of exactly two isolated
//! browsing contexts, a normal one and a private one.

use vstd::prelude::*;

verus! {

/// The isolation class a window is opened in. Browsing state (cookies, cache,
/// storage) never leaks between the two classes, and private windows are never
/// written to the persisted URL log.
#[derive(Clone, Copy, PartialEq, Eq, Structural, Debug)]
pub enum Privacy {
    Normal,
    Private,
}

/// Owns the two long-lived rendering contexts, constructed once at session
/// startup and never recreated. The contexts themselves live outside the
/// library; here each is represented by the opaque handle the host assigned
/// to it.
pub struct ContextManager {
    normal: u64,
    private: u64,
}

impl ContextManager {
    /// Record the two context handles, fixed for the life of the session.
    pub fn new(normal: u64, private: u64) -> (manager: ContextManager)
        ensures
            manager.normal_context() == normal,
            manager.private_context() == private,
    {
        ContextManager { normal, private }
    }

    pub closed spec fn normal_context(&self) -> u64 {
        self.normal
    }

    pub closed spec fn private_context(&self) -> u64 {
        self.private
    }

    /// Hand out the context matching the requested privacy class.
    pub fn select(&self, privacy: Privacy) -> (context: u64)
        ensures
            context == self.spec_select(privacy),
    {
        match privacy {
            Privacy::Normal => self.normal,
            Privacy::Private => self.private,
        }
    }

    pub open spec fn spec_select(&self, privacy: Privacy) -> u64 {
        if privacy is Private {
            self.private_context()
        } else {
            self.normal_context()
        }
    }
}

} // verus!
