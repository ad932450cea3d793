//! Shapes that mirror the core types across the Node boundary, and the
//! conversions between them. The binding layer adds its own attributes to
//! copies of these types.

use vstd::prelude::*;

use crate::app::{App, ContainOptions};
use crate::container::{DestroyOptions, DestroyResult, QuitOptions, QuitResult, StageResult};
use crate::error::Error;
use crate::identity::{identity_violation, is_valid_identity};

verus! {

#[derive(Debug)]
pub struct JsContainOptions {
    pub args: Option<Vec<String>>,
    pub env: Option<Vec<(String, String)>>,
    pub cwd: Option<String>,
    pub identity: Option<String>,
    pub darwin_tag_argv0: Option<bool>,
}

#[derive(Debug)]
pub struct JsQuitOptions {
    /// Stage name to timeout in milliseconds.
    pub stage_timeouts_ms: Option<Vec<(String, u32)>>,
    pub skip_stages: Option<Vec<String>>,
}

#[derive(Debug)]
pub struct JsDestroyOptions {
    pub quit: Option<JsQuitOptions>,
}

#[derive(Debug)]
pub struct JsStageResult {
    pub stage_name: String,
    pub index: u32,
    pub exited: bool,
    pub is_terminal: bool,
}

#[derive(Debug)]
pub struct JsQuitResult {
    pub exited_at_stage: Option<String>,
    pub reached_terminal_stage: bool,
    pub stage_results: Vec<JsStageResult>,
    pub adapter_errors: Vec<String>,
}

#[derive(Debug)]
pub struct JsDestroyResult {
    pub quit: JsQuitResult,
    /// Error messages collected during teardown. Empty on a clean destroy.
    pub errors: Vec<String>,
}

impl JsContainOptions {
    /// Core options: absent lists are empty, and argv[0] tagging is on
    /// unless turned off.
    pub fn into_core(self) -> (r: ContainOptions)
        ensures
            match self.args {
                Some(a) => r.args == a,
                None => r.args@.len() == 0,
            },
            match self.env {
                Some(e) => r.env == e,
                None => r.env@.len() == 0,
            },
            r.cwd == self.cwd,
            r.identity == self.identity,
            r.darwin_tag_argv0 == (match self.darwin_tag_argv0 {
                Some(b) => b,
                None => true,
            }),
    {
        ContainOptions {
            args: match self.args {
                Some(a) => a,
                None => Vec::new(),
            },
            env: match self.env {
                Some(e) => e,
                None => Vec::new(),
            },
            cwd: self.cwd,
            identity: self.identity,
            darwin_tag_argv0: match self.darwin_tag_argv0 {
                Some(b) => b,
                None => true,
            },
        }
    }
}

/// Core quit options: timeouts widened to `u64` milliseconds, absent
/// lists empty.
pub fn to_core_quit_opts(opts: Option<JsQuitOptions>) -> (r: QuitOptions)
    ensures
        match opts {
            None => r.stage_timeouts@.len() == 0 && r.skip_stages@.len() == 0,
            Some(o) => {
                &&& match o.stage_timeouts_ms {
                    None => r.stage_timeouts@.len() == 0,
                    Some(t) => r.stage_timeouts@.len() == t@.len() && forall|k: int|
                        0 <= k < t@.len() ==> (#[trigger] r.stage_timeouts@[k]).0 == t@[k].0
                            && r.stage_timeouts@[k].1 == t@[k].1 as u64,
                }
                &&& match o.skip_stages {
                    None => r.skip_stages@.len() == 0,
                    Some(s) => r.skip_stages == s,
                }
            },
        },
{
    match opts {
        None => QuitOptions::default(),
        Some(o) => {
            let mut stage_timeouts: Vec<(String, u64)> = Vec::new();
            match o.stage_timeouts_ms {
                None => {},
                Some(t) => {
                    let mut i: usize = 0;
                    while i < t.len()
                        invariant
                            i <= t@.len(),
                            stage_timeouts@.len() == i,
                            forall|k: int|
                                0 <= k < i ==> (#[trigger] stage_timeouts@[k]).0 == t@[k].0
                                    && stage_timeouts@[k].1 == t@[k].1 as u64,
                        decreases t.len() - i,
                    {
                        stage_timeouts.push((t[i].0.clone(), t[i].1 as u64));
                        i += 1;
                    }
                },
            }
            let skip_stages = match o.skip_stages {
                None => Vec::new(),
                Some(s) => s,
            };
            QuitOptions { stage_timeouts, skip_stages }
        },
    }
}

pub fn to_core_destroy_opts(opts: Option<JsDestroyOptions>) -> (r: DestroyOptions)
    ensures
        match opts {
            None => r.quit.stage_timeouts@.len() == 0 && r.quit.skip_stages@.len() == 0,
            Some(o) => match o.quit {
                None => r.quit.stage_timeouts@.len() == 0 && r.quit.skip_stages@.len() == 0,
                Some(q) => {
                    &&& match q.skip_stages {
                        None => r.quit.skip_stages@.len() == 0,
                        Some(s) => r.quit.skip_stages == s,
                    }
                    &&& match q.stage_timeouts_ms {
                        None => r.quit.stage_timeouts@.len() == 0,
                        Some(t) => r.quit.stage_timeouts@.len() == t@.len() && forall|k: int|
                            0 <= k < t@.len() ==> (#[trigger] r.quit.stage_timeouts@[k]).0
                                == t@[k].0 && r.quit.stage_timeouts@[k].1 == t@[k].1 as u64,
                    }
                },
            },
        },
{
    match opts {
        None => DestroyOptions::default(),
        Some(o) => DestroyOptions { quit: to_core_quit_opts(o.quit) },
    }
}

/// `js` mirrors the stage result `r` (its index narrowed to 32 bits).
pub open spec fn mirrors_stage(js: JsStageResult, r: StageResult) -> bool {
    &&& js.stage_name@ == r.stage_name@
    &&& js.index == r.index as u32
    &&& js.exited == r.exited
    &&& js.is_terminal == r.is_terminal
}

pub open spec fn mirrors_quit(js: JsQuitResult, r: QuitResult) -> bool {
    &&& match (js.exited_at_stage, r.exited_at_stage) {
        (None, None) => true,
        (Some(a), Some(b)) => a@ == b@,
        _ => false,
    }
    &&& js.reached_terminal_stage == r.reached_terminal_stage
    &&& js.stage_results@.len() == r.stage_results@.len()
    &&& forall|k: int|
        0 <= k < r.stage_results@.len() ==> mirrors_stage(
            #[trigger] js.stage_results@[k],
            r.stage_results@[k],
        )
    &&& js.adapter_errors@.len() == r.adapter_errors@.len()
    &&& forall|k: int|
        0 <= k < r.adapter_errors@.len() ==> (#[trigger] js.adapter_errors@[k])@
            == r.adapter_errors@[k]@
}

impl JsStageResult {
    pub fn from_core(r: &StageResult) -> (js: JsStageResult)
        ensures
            mirrors_stage(js, *r),
    {
        JsStageResult {
            stage_name: r.stage_name.clone(),
            index: r.index as u32,
            exited: r.exited,
            is_terminal: r.is_terminal,
        }
    }
}

impl JsQuitResult {
    pub fn from_core(r: &QuitResult) -> (js: JsQuitResult)
        ensures
            mirrors_quit(js, *r),
    {
        let exited_at_stage = match &r.exited_at_stage {
            Some(s) => Some(s.clone()),
            None => None,
        };
        let mut stage_results: Vec<JsStageResult> = Vec::new();
        let mut i: usize = 0;
        while i < r.stage_results.len()
            invariant
                i <= r.stage_results@.len(),
                stage_results@.len() == i,
                forall|k: int|
                    0 <= k < i ==> mirrors_stage(
                        #[trigger] stage_results@[k],
                        r.stage_results@[k],
                    ),
            decreases r.stage_results.len() - i,
        {
            stage_results.push(JsStageResult::from_core(&r.stage_results[i]));
            i += 1;
        }
        let mut adapter_errors: Vec<String> = Vec::new();
        let mut i: usize = 0;
        while i < r.adapter_errors.len()
            invariant
                i <= r.adapter_errors@.len(),
                adapter_errors@.len() == i,
                forall|k: int|
                    0 <= k < i ==> (#[trigger] adapter_errors@[k])@ == r.adapter_errors@[k]@,
            decreases r.adapter_errors.len() - i,
        {
            adapter_errors.push(r.adapter_errors[i].clone());
            i += 1;
        }
        JsQuitResult {
            exited_at_stage,
            reached_terminal_stage: r.reached_terminal_stage,
            stage_results,
            adapter_errors,
        }
    }
}

impl JsDestroyResult {
    /// The destroy result with each error rendered as its message.
    pub fn from_core(r: &DestroyResult) -> (js: JsDestroyResult)
        ensures
            mirrors_quit(js.quit, r.quit),
            js.errors@.len() == r.errors@.len(),
            forall|k: int| 0 <= k < r.errors@.len() ==> (#[trigger] js.errors@[k])@ == r.errors@[k].text(),
    {
        let quit = JsQuitResult::from_core(&r.quit);
        let mut errors: Vec<String> = Vec::new();
        let mut i: usize = 0;
        while i < r.errors.len()
            invariant
                i <= r.errors@.len(),
                errors@.len() == i,
                forall|k: int| 0 <= k < i ==> (#[trigger] errors@[k])@ == r.errors@[k].text(),
            decreases r.errors.len() - i,
        {
            errors.push(r.errors[i].message());
            i += 1;
        }
        JsDestroyResult { quit, errors }
    }
}

/// App handle exposed to Node.
#[derive(Debug)]
pub struct NodeApp {
    inner: App,
}

impl View for NodeApp {
    type V = Seq<char>;

    closed spec fn view(&self) -> Seq<char> {
        self.inner@
    }
}

impl NodeApp {
    /// Validates `prefix` to the identity char set; an invalid one is
    /// refused with `InvalidIdentity`.
    pub fn new(prefix: String) -> (r: Result<NodeApp, Error>)
        ensures
            match r {
                Ok(app) => is_valid_identity(prefix@) && app@ == prefix@,
                Err(Error::InvalidIdentity(m)) => identity_violation(prefix@) == Some(m@),
                Err(_) => false,
            },
    {
        match App::new(prefix.as_str()) {
            Ok(inner) => Ok(NodeApp { inner }),
            Err(e) => Err(e),
        }
    }

    pub fn prefix(&self) -> (r: String)
        ensures
            r@ == self@,
    {
        String::from_str(self.inner.prefix())
    }

    pub fn app(&self) -> (r: &App)
        ensures
            r@ == self@,
    {
        &self.inner
    }
}

} // verus!
