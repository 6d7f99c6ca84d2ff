//! Login filling: which site a credential lookup is for, and the polling
//! of the lookup (which runs off the main loop) until its fill script is
//! ready, it fails, or the deadline passes.

use vstd::prelude::*;
use crate::text::{chars_of, is_prefix, push_str, starts_with};
use crate::try_until::deadline_after;
use crate::url::{host_of, host_of_spec};

verus! {

/// Budget of a credential lookup when the caller gives none, in
/// milliseconds.
pub const LOGIN_DEFAULT_TIMEOUT_MS: u64 = 30000;

/// Why a login fill was refused.
#[derive(Clone, Copy, Debug, PartialEq, Eq, Structural)]
pub enum LoginError {
    /// The window shows no http(s) site to fill.
    NoSite,
}

impl LoginError {
    /// The message a refused login fill is answered with.
    pub fn message(&self) -> (m: String)
        ensures
            m@ == "no site to fill (window has no http(s) page)"@,
    {
        let mut m = String::new();
        push_str(&mut m, "no site to fill (window has no http(s) page)");
        m
    }
}

/// The site a login fill is for: the override if given, else the host
/// of the window's page (empty when it has none). Empty sites and the
/// daemon's own `hwatu` pages are refused.
pub open spec fn login_site(host_override: Option<Seq<char>>, page_url: Seq<char>) -> Option<
    Seq<char>,
> {
    let host = match host_override {
        Some(h) => h,
        None => match host_of_spec(page_url) {
            Some(h) => h,
            None => Seq::empty(),
        },
    };
    if host.len() == 0 || is_prefix("hwatu"@, host) {
        None
    } else {
        Some(host)
    }
}

/// The site a login fill is for, or why there is none.
pub fn fill_login(host_override: Option<String>, page_url: &str) -> (r: Result<String, LoginError>)
    ensures
        match r {
            Ok(h) => login_site(
                match host_override {
                    Some(o) => Some(o@),
                    None => None,
                },
                page_url@,
            ) == Some(h@),
            Err(_) => login_site(
                match host_override {
                    Some(o) => Some(o@),
                    None => None,
                },
                page_url@,
            ).is_none(),
        },
{
    let host = match host_override {
        Some(h) => h,
        None => match host_of(page_url) {
            Some(h) => h,
            None => String::new(),
        },
    };
    let hv = chars_of(host.as_str());
    if hv.len() == 0 || starts_with(&hv, "hwatu") {
        return Err(LoginError::NoSite);
    }
    Ok(host)
}

/// What polling the credential lookup found.
#[derive(Debug)]
pub enum LookupPoll {
    /// The lookup finished with a fill script, or an error message.
    Done(Result<String, String>),
    /// The lookup is still running.
    Pending,
    /// The lookup went away without answering.
    Lost,
}

/// What the caller does after a poll.
#[derive(Clone, Debug)]
pub enum LoginStep {
    /// Run the fill script in the window; a navigation counts as success.
    Fill(String),
    /// Answer with this error.
    Fail(String),
    /// Poll again later.
    Wait,
}

/// The deadline of a lookup started at `now_ms` with budget `timeout_ms`
/// (thirty seconds by default, at least one millisecond), saturating at
/// the clock's last millisecond.
pub open spec fn login_deadline(now_ms: u64, timeout_ms: Option<u64>) -> u64 {
    deadline_after(
        now_ms,
        match timeout_ms {
            Some(t) => if t < 1 {
                1
            } else {
                t
            },
            None => LOGIN_DEFAULT_TIMEOUT_MS,
        },
    )
}

/// The deadline of a lookup started at `now_ms`.
pub fn lookup_deadline(now_ms: u64, timeout_ms: Option<u64>) -> (d: u64)
    ensures
        d == login_deadline(now_ms, timeout_ms),
{
    now_ms.saturating_add(match timeout_ms {
        Some(t) => if t < 1 {
            1
        } else {
            t
        },
        None => LOGIN_DEFAULT_TIMEOUT_MS,
    })
}

/// Decides what a poll at `now_ms` leads to: a ready script is run, a
/// lookup error is passed on, a lost lookup is reported, and a pending one
/// is waited for until the deadline.
pub fn login_poll(poll: LookupPoll, now_ms: u64, deadline_ms: u64) -> (s: LoginStep)
    ensures
        match poll {
            LookupPoll::Done(Ok(js)) => s matches LoginStep::Fill(j) && j@ == js@,
            LookupPoll::Done(Err(e)) => s matches LoginStep::Fail(m) && m@ == e@,
            LookupPoll::Pending => if now_ms >= deadline_ms {
                s matches LoginStep::Fail(m) && m@ == "credential lookup timed out"@
            } else {
                s matches LoginStep::Wait
            },
            LookupPoll::Lost => s matches LoginStep::Fail(m) && m@ == "credential lookup crashed"@,
        },
{
    match poll {
        LookupPoll::Done(Ok(js)) => LoginStep::Fill(js),
        LookupPoll::Done(Err(e)) => LoginStep::Fail(e),
        LookupPoll::Pending => {
            if now_ms >= deadline_ms {
                let mut m = String::new();
                push_str(&mut m, "credential lookup timed out");
                LoginStep::Fail(m)
            } else {
                LoginStep::Wait
            }
        },
        LookupPoll::Lost => {
            let mut m = String::new();
            push_str(&mut m, "credential lookup crashed");
            LoginStep::Fail(m)
        },
    }
}

} // verus!
