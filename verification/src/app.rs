//! `App`: namespaced handle for spawning contained processes.
//!
//! The prefix namespaces identities so two unrelated libraries using
//! uncontainerizable can't collide. Convention is reverse-DNS.

use vstd::prelude::*;

use crate::error::Error;
use crate::identity::{self, combined, identity_violation, is_valid_identity};

verus! {

#[derive(Debug)]
pub struct App {
    prefix: String,
}

impl View for App {
    type V = Seq<char>;

    closed spec fn view(&self) -> Seq<char> {
        self.prefix@
    }
}

impl App {
    #[verifier::type_invariant]
    spec fn prefix_is_valid(self) -> bool {
        is_valid_identity(self.prefix@)
    }

    /// An app whose prefix is `prefix`; fails with `InvalidIdentity` when
    /// `prefix` is not a valid identity.
    pub fn new(prefix: &str) -> (r: Result<App, Error>)
        ensures
            match r {
                Ok(app) => is_valid_identity(prefix@) && app@ == prefix@,
                Err(Error::InvalidIdentity(m)) => identity_violation(prefix@) == Some(m@),
                Err(_) => false,
            },
    {
        match identity::validate(prefix) {
            Ok(()) => Ok(App { prefix: String::from_str(prefix) }),
            Err(e) => Err(e),
        }
    }

    pub fn prefix(&self) -> (r: &str)
        ensures
            r@ == self@,
            is_valid_identity(r@),
    {
        proof {
            use_type_invariant(self);
        }
        self.prefix.as_str()
    }

    /// The identity a spawn with `identity` preempts: `None` without one,
    /// `<prefix>:<identity>` for a valid one; an invalid one is refused
    /// with `InvalidIdentity`.
    pub fn scoped_identity(&self, identity: Option<&str>) -> (r: Result<Option<String>, Error>)
        ensures
            match identity {
                None => r matches Ok(None),
                Some(i) => match r {
                    Ok(Some(c)) => is_valid_identity(i@) && c@ == combined(self@, i@),
                    Err(Error::InvalidIdentity(m)) => identity_violation(i@) == Some(m@),
                    _ => false,
                },
            },
    {
        match identity {
            None => Ok(None),
            Some(i) => match identity::validate(i) {
                Ok(()) => Ok(Some(identity::combine(self.prefix.as_str(), i))),
                Err(e) => Err(e),
            },
        }
    }
}

/// Options for a spawn. Adapters are held next to these by the caller
/// that runs the hooks.
#[derive(Debug)]
pub struct ContainOptions {
    pub args: Vec<String>,
    pub env: Vec<(String, String)>,
    pub cwd: Option<String>,
    /// Enable singleton-style preemption. `None` = no preemption.
    /// On macOS Launch Services `.app` launches, this becomes
    /// bundle-scoped rather than identity-scoped.
    pub identity: Option<String>,
    /// macOS direct-exec only: if `false`, skip rewriting argv[0] with the
    /// identity tag.
    pub darwin_tag_argv0: bool,
}

impl Default for ContainOptions {
    fn default() -> (r: ContainOptions)
        ensures
            r.args@.len() == 0,
            r.env@.len() == 0,
            r.cwd is None,
            r.identity is None,
            !r.darwin_tag_argv0,
    {
        ContainOptions {
            args: Vec::new(),
            env: Vec::new(),
            cwd: None,
            identity: None,
            darwin_tag_argv0: false,
        }
    }
}

} // verus!
