//! Waiting for a spawned host: ready only once it answers HTTP, failed at once
//! when it exits during startup, failed when the deadline passes; then waiting
//! briefly for the authenticated URL it prints.

use vstd::prelude::*;

use crate::command::is_blank;
use crate::tail::{authenticated_host_url, utf8_lossy, OutputTail};
use crate::text::trim;
use crate::web_url::last_web_url;

verus! {

/// Address the `dsh web` host binds by default.
pub const HOST_ADDR: &'static str = "127.0.0.1:3080";

/// URL the webview navigates to when the host prints no authenticated URL.
pub const HOST_URL: &'static str = "http://127.0.0.1:3080";

/// `HTTP/`, how every HTTP response starts.
pub open spec fn http_status_prefix() -> Seq<u8> {
    seq![0x48u8, 0x54u8, 0x54u8, 0x50u8, 0x2fu8]
}

/// Whether what the host sent back to the probe is an HTTP response: it starts
/// with `HTTP/`. An empty or shorter reply is not.
pub fn reply_is_http(reply: &[u8]) -> (b: bool)
    ensures
        b == (reply@.len() >= 5 && reply@.take(5) == http_status_prefix()),
{
    let ok = reply.len() >= 5 && reply[0] == 0x48u8 && reply[1] == 0x54u8 && reply[2] == 0x54u8
        && reply[3] == 0x50u8 && reply[4] == 0x2fu8;
    proof {
        if reply@.len() >= 5 {
            if ok {
                assert(reply@.take(5) =~= http_status_prefix());
            } else {
                assert(reply@.take(5) != http_status_prefix()) by {
                    if reply@.take(5) == http_status_prefix() {
                        assert(reply@.take(5)[0] == reply@[0]);
                        assert(reply@.take(5)[1] == reply@[1]);
                        assert(reply@.take(5)[2] == reply@[2]);
                        assert(reply@.take(5)[3] == reply@[3]);
                        assert(reply@.take(5)[4] == reply@[4]);
                    }
                }
            }
        }
    }
    ok
}

/// What polling the host process found.
pub enum ChildState {
    /// The host is still running.
    Running,
    /// The host exited; `status` is how it exited, as text.
    Exited { status: String },
    /// No host process is recorded, or polling it failed.
    Unknown,
}

/// The outcome of one readiness poll.
pub enum ReadyStep {
    /// The host answers HTTP.
    Ready,
    /// The host cannot become ready; report this error.
    Failed { error: String },
    /// Poll again after a pause.
    KeepWaiting,
}

/// The error for a host that exited during startup, quoting its stderr when
/// there is anything but whitespace to quote.
pub open spec fn crash_message(addr: Seq<char>, status: Seq<char>, stderr: Seq<char>) -> Seq<
    char,
> {
    let reason = if trim(stderr).len() == 0 {
        Seq::empty()
    } else {
        "\n--- host stderr (tail) ---\n"@ + stderr
    };
    "host at "@ + addr + " exited during startup with "@ + status + reason
}

/// The error for a host that did not answer before the deadline.
pub open spec fn timeout_message(addr: Seq<char>, timeout: Seq<char>) -> Seq<char> {
    "host at "@ + addr + " did not become ready within "@ + timeout
}

/// The error for a host at `addr` that exited with `status` during startup,
/// given the text of its captured stderr.
pub fn crash_message_text(addr: &str, status: &str, stderr: &str) -> (error: String)
    ensures
        error@ == crash_message(addr@, status@, stderr@),
{
    let mut error = String::from_str("host at ");
    error.append(addr);
    error.append(" exited during startup with ");
    error.append(status);
    if !is_blank(stderr) {
        error.append("\n--- host stderr (tail) ---\n");
        error.append(stderr);
    } else {
        assert(error@ + Seq::<char>::empty() =~= error@);
    }
    error
}

/// The error for a host at `addr` that did not answer within `timeout` (as
/// text).
pub fn timeout_message_text(addr: &str, timeout: &str) -> (error: String)
    ensures
        error@ == timeout_message(addr@, timeout@),
{
    let mut error = String::from_str("host at ");
    error.append(addr);
    error.append(" did not become ready within ");
    error.append(timeout);
    error
}

/// Decide one poll of a starting host at `addr`: ready when it answers HTTP;
/// otherwise failed at once if it exited, quoting its captured stderr;
/// otherwise failed if the deadline (`timeout`, as text) has passed; otherwise
/// keep waiting.
pub fn readiness_step(
    addr: &str,
    serves_http: bool,
    child: &ChildState,
    stderr: &OutputTail,
    deadline_passed: bool,
    timeout: &str,
) -> (r: ReadyStep)
    ensures
        serves_http ==> r is Ready,
        !serves_http ==> match child {
            ChildState::Exited { status } => r matches ReadyStep::Failed { error } && error@
                == crash_message(addr@, status@, utf8_lossy(stderr@)),
            _ => if deadline_passed {
                r matches ReadyStep::Failed { error } && error@ == timeout_message(addr@, timeout@)
            } else {
                r is KeepWaiting
            },
        },
{
    if serves_http {
        return ReadyStep::Ready;
    }
    if let ChildState::Exited { status } = child {
        let tail = stderr.text();
        return ReadyStep::Failed { error: crash_message_text(addr, status.as_str(), tail.as_str()) };
    }
    if deadline_passed {
        return ReadyStep::Failed { error: timeout_message_text(addr, timeout) };
    }
    ReadyStep::KeepWaiting
}

/// The outcome of one poll for the authenticated URL.
pub enum UrlStep {
    /// Navigate the webview to this URL.
    Navigate { url: String },
    /// Poll again after a pause.
    KeepWaiting,
}

/// Decide one poll for the authenticated URL: the URL on the captured stdout
/// if there is one; else, once the deadline has passed, the bare `HOST_URL`
/// for older hosts that print no token; else keep waiting.
pub fn url_wait_step(stdout: &OutputTail, deadline_passed: bool) -> (r: UrlStep)
    ensures
        match last_web_url(utf8_lossy(stdout@)) {
            Some(url) => r matches UrlStep::Navigate { url: u } && u@ == url,
            None => if deadline_passed {
                r matches UrlStep::Navigate { url: u } && u@ == HOST_URL@
            } else {
                r is KeepWaiting
            },
        },
{
    match authenticated_host_url(stdout) {
        Some(url) => UrlStep::Navigate { url },
        None => {
            if deadline_passed {
                UrlStep::Navigate { url: HOST_URL.to_owned() }
            } else {
                UrlStep::KeepWaiting
            }
        },
    }
}

} // verus!
