//! The foreground package as the activity manager tells it.

use vstd::prelude::*;

use crate::blocklist::Blocklist;
use crate::package_set;
use crate::resolver;
use crate::resolver::{Step, TraceEntry};
use crate::text;
use crate::text::{copy_str, push_dec, push_text, string_of};

verus! {

/// A connection to the activity manager.
#[derive(Debug, Clone, Copy, PartialEq, Eq, Structural)]
pub struct BinderForegroundSource {}

/// The codes of the transactions.
#[derive(Debug, Clone, Copy, PartialEq, Eq, Structural)]
pub struct TxCodes {
    pub observer_code: u32,
    pub query_code: u32,
    pub api_mode: u32,
    pub fg_code: u32,
}

/// What a trace of the activity manager goes by: each field what the step gave,
/// or why it failed.
#[derive(Debug)]
pub struct BinderReplies {
    pub codes: Result<TxCodes, String>,
    /// Opening with a registered observer.
    pub observed: Result<(), String>,
    /// Opening without one, which is tried where that failed.
    pub plain: Result<(), String>,
    /// The focused package.
    pub focused: Result<Option<String>, String>,
}

/// The step that tells of the transaction codes.
pub open spec fn codes_step(codes: Result<TxCodes, String>) -> Step {
    Step {
        pid: 0,
        stage: "binder:tx-codes"@,
        detail: match codes {
            Ok(c) => "observer="@ + text::dec(c.observer_code as nat) + " query="@ + text::dec(
                c.query_code as nat,
            ) + " api_mode="@ + text::dec(c.api_mode as nat) + " fg="@ + text::dec(
                c.fg_code as nat,
            ),
            Err(why) => why@,
        },
        pass: codes is Ok,
    }
}

/// The step that tells of an attempt to open.
pub open spec fn open_step(stage: Seq<char>, well: Seq<char>, opened: Result<(), String>) -> Step {
    Step {
        pid: 0,
        stage,
        detail: match opened {
            Ok(_) => well,
            Err(why) => why@,
        },
        pass: opened is Ok,
    }
}

/// The step that tells of the focused package.
pub open spec fn focused_step(
    focused: Result<Option<String>, String>,
    blocked: Set<Seq<char>>,
) -> Step {
    Step {
        pid: 0,
        stage: "binder:get-focused"@,
        detail: match focused {
            Ok(Some(package)) => package@ + " (blocked="@ + resolver::bool_text(
                package_set::covered(blocked, package@),
            ) + ")"@,
            Ok(None) => "returned None (no focused task)"@,
            Err(why) => why@,
        },
        pass: match focused {
            Ok(Some(package)) => !package_set::covered(blocked, package@),
            _ => false,
        },
    }
}

/// The steps of a trace: each stage until one fails that nothing stands in for.
pub open spec fn binder_steps(r: BinderReplies, blocked: Set<Seq<char>>) -> Seq<Step> {
    let codes = codes_step(r.codes);
    let observed = open_step(
        "binder:open-with-observer"@,
        "ok \u{2014} observer registered"@,
        r.observed,
    );
    let plain = open_step("binder:open"@, "ok (polling mode)"@, r.plain);
    let focused = focused_step(r.focused, blocked);
    if r.codes is Err {
        seq![codes]
    } else if r.observed is Ok {
        seq![codes, observed, focused]
    } else if r.plain is Ok {
        seq![codes, observed, plain, focused]
    } else {
        seq![codes, observed, plain]
    }
}

fn step(stage: &'static str, detail: String, pass: bool) -> (r: TraceEntry)
    ensures
        r@ == (Step { pid: 0, stage: stage@, detail: detail@, pass }),
{
    TraceEntry { pid: 0, stage, detail, pass }
}

impl BinderForegroundSource {
    /// Open the activity manager, with an observer if that can be registered.
    /// `observed` is the descriptor that tells of changes, and `plain` whether
    /// the activity manager could be opened without an observer, which counts
    /// only where there is none.
    pub fn try_open(observed: Option<i32>, plain: bool) -> (r: Option<(Self, Option<i32>)>)
        ensures
            r == (match observed {
                Some(efd) => Some((BinderForegroundSource {  }, Some(efd))),
                None => if plain {
                    Some((BinderForegroundSource {  }, None))
                } else {
                    None
                },
            }),
    {
        match observed {
            Some(efd) => Some((Self {  }, Some(efd))),
            None => {
                if plain {
                    Some((Self {  }, None))
                } else {
                    None
                }
            },
        }
    }

    /// The focused package, unless there is none or it is blocked.
    pub fn resolve(&self, focused: Option<&str>, blocklist: &Blocklist) -> (r: Option<String>)
        ensures
            text::opt_text(r) == unblocked(text::opt_str(focused), blocklist.packages@),
    {
        match focused {
            Some(package) => {
                if blocklist.is_blocked(package) {
                    None
                } else {
                    Some(copy_str(package))
                }
            },
            None => None,
        }
    }

    /// Tell of every step of a resolution by the activity manager.
    pub fn debug_trace(replies: &BinderReplies, blocklist: &Blocklist) -> (r: Vec<TraceEntry>)
        ensures
            resolver::steps(r@) == binder_steps(*replies, blocklist.packages@),
    {
        let mut t: Vec<TraceEntry> = Vec::new();
        let codes = trace_codes(&replies.codes);
        t.push(codes);
        if replies.codes.is_err() {
            assert(resolver::steps(t@) =~= seq![codes@]);
            return t;
        }
        let observed = trace_open(
            "binder:open-with-observer",
            "ok \u{2014} observer registered",
            &replies.observed,
        );
        t.push(observed);
        if replies.observed.is_ok() {
            let focused = trace_focused(&replies.focused, blocklist);
            t.push(focused);
            assert(resolver::steps(t@) =~= seq![codes@, observed@, focused@]);
            return t;
        }
        let plain = trace_open("binder:open", "ok (polling mode)", &replies.plain);
        t.push(plain);
        if replies.plain.is_ok() {
            let focused = trace_focused(&replies.focused, blocklist);
            t.push(focused);
            assert(resolver::steps(t@) =~= seq![codes@, observed@, plain@, focused@]);
            return t;
        }
        assert(resolver::steps(t@) =~= seq![codes@, observed@, plain@]);
        t
    }
}

/// A package that is not blocked.
pub open spec fn unblocked(package: Option<Seq<char>>, blocked: Set<Seq<char>>) -> Option<Seq<char>> {
    match package {
        Some(p) => if package_set::covered(blocked, p) {
            None
        } else {
            Some(p)
        },
        None => None,
    }
}

fn trace_codes(codes: &Result<TxCodes, String>) -> (r: TraceEntry)
    ensures
        r@ == codes_step(*codes),
{
    match codes {
        Ok(c) => {
            let mut detail: Vec<char> = Vec::new();
            push_text(&mut detail, "observer=");
            push_dec(&mut detail, c.observer_code as u128);
            push_text(&mut detail, " query=");
            push_dec(&mut detail, c.query_code as u128);
            push_text(&mut detail, " api_mode=");
            push_dec(&mut detail, c.api_mode as u128);
            push_text(&mut detail, " fg=");
            push_dec(&mut detail, c.fg_code as u128);
            assert(detail@ =~= codes_step(*codes).detail);
            step("binder:tx-codes", string_of(detail.as_slice()), true)
        },
        Err(why) => step("binder:tx-codes", why.clone(), false),
    }
}

fn trace_open(stage: &'static str, well: &str, opened: &Result<(), String>) -> (r: TraceEntry)
    ensures
        r@ == open_step(stage@, well@, *opened),
{
    match opened {
        Ok(_) => step(stage, copy_str(well), true),
        Err(why) => step(stage, why.clone(), false),
    }
}

fn trace_focused(focused: &Result<Option<String>, String>, blocklist: &Blocklist) -> (r: TraceEntry)
    ensures
        r@ == focused_step(*focused, blocklist.packages@),
{
    match focused {
        Ok(Some(package)) => {
            let blocked = blocklist.is_blocked(package.as_str());
            let mut detail: Vec<char> = Vec::new();
            push_text(&mut detail, package.as_str());
            push_text(&mut detail, " (blocked=");
            push_text(
                &mut detail,
                if blocked {
                    "true"
                } else {
                    "false"
                },
            );
            push_text(&mut detail, ")");
            assert(detail@ =~= focused_step(*focused, blocklist.packages@).detail);
            step("binder:get-focused", string_of(detail.as_slice()), !blocked)
        },
        Ok(None) => step("binder:get-focused", copy_str("returned None (no focused task)"), false),
        Err(why) => step("binder:get-focused", why.clone(), false),
    }
}

// ---------------------------------------------------------------------------
// Laws
// ---------------------------------------------------------------------------

/// The focused package is given as it is, unless the list holds it or a prefix of
/// it followed by `*`.
pub proof fn law_focused_package(package: Seq<char>, blocked: Set<Seq<char>>)
    ensures
        unblocked(None, blocked) is None,
        unblocked(Some(package), blocked) == if blocked.contains(package) || exists|prefix: Seq<char>|
            #[trigger]
            blocked.contains(prefix.push('*')) && prefix.is_prefix_of(package) {
            None
        } else {
            Some(package)
        },
{
    package_set::law_covered(blocked, package);
}

/// A trace ends with the focused package, and passes there exactly if that can be
/// shown, wherever the activity manager could be opened; where it could not, it
/// ends with a failure.
pub proof fn law_trace_tells_the_focus(r: BinderReplies, blocked: Set<Seq<char>>)
    ensures
        ({
            let steps = binder_steps(r, blocked);
            let opened = r.codes is Ok && (r.observed is Ok || r.plain is Ok);
            let shown = match r.focused {
                Ok(Some(package)) => unblocked(Some(package@), blocked) is Some,
                _ => false,
            };
            &&& steps.len() > 0
            &&& steps.last().pass <==> opened && shown
            &&& steps.last().stage == "binder:get-focused"@ || !opened
        }),
{
}

/// A step of the trace passes exactly if its attempt went well, and tells why where
/// it did not. The focused package is told as it is, blocked or not.
pub proof fn law_trace_texts(r: BinderReplies, blocked: Set<Seq<char>>)
    ensures
        ({
            let steps = binder_steps(r, blocked);
            &&& forall|i: int| 0 <= i < steps.len() ==> (#[trigger] steps[i]).pid == 0
            &&& steps[0].stage == "binder:tx-codes"@
            &&& steps[0].pass <==> r.codes is Ok
            &&& r.codes is Err ==> steps.len() == 1 && steps[0].detail == r.codes->Err_0@
            &&& r.codes is Ok ==> {
                let c = r.codes->Ok_0;
                &&& steps[0].detail == "observer="@ + text::dec(c.observer_code as nat)
                    + " query="@ + text::dec(c.query_code as nat) + " api_mode="@ + text::dec(
                    c.api_mode as nat,
                ) + " fg="@ + text::dec(c.fg_code as nat)
                &&& steps.len() >= 3
                &&& steps[1].stage == "binder:open-with-observer"@
                &&& steps[1].pass <==> r.observed is Ok
                &&& r.observed is Ok ==> steps.len() == 3 && steps[1].detail
                    == "ok \u{2014} observer registered"@
                &&& r.observed is Err ==> {
                    &&& steps[1].detail == r.observed->Err_0@
                    &&& steps[2].stage == "binder:open"@
                    &&& steps[2].pass <==> r.plain is Ok
                    &&& r.plain is Ok ==> steps.len() == 4 && steps[2].detail
                        == "ok (polling mode)"@
                    &&& r.plain is Err ==> steps.len() == 3 && steps[2].detail == r.plain->Err_0@
                }
                &&& r.observed is Ok || r.plain is Ok ==> {
                    let last = steps.last();
                    &&& last.stage == "binder:get-focused"@
                    &&& match r.focused {
                        Ok(Some(package)) => last.detail == package@ + " (blocked="@ + (
                        if package_set::covered(blocked, package@) {
                            "true"@
                        } else {
                            "false"@
                        }) + ")"@,
                        Ok(None) => last.detail == "returned None (no focused task)"@,
                        Err(why) => last.detail == why@,
                    }
                }
            }
        }),
{
}

} // verus!
