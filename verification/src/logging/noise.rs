//! Suppression of warp's connection-teardown noise.
//!
//! Since warp 0.4 the server drives its own accept loop and logs every failed connection at
//! `ERROR` (`warp::server`: `server connection error: ...`). Most of those errors are not server
//! problems at all: a client, load balancer health check or port scanner that opens a connection
//! and drops it mid-request makes hyper fail the connection with `IncompleteMessage`, a reset or a
//! broken pipe.
//!
//! [`event_enabled`] drops exactly those peer-caused errors. Everything else warp reports, such as
//! parse errors, `accept error` (which signals real trouble such as running out of file
//! descriptors) and any error from other targets, is left untouched. Set
//! `LOG_CONNECTION_ERRORS=true` to keep the suppressed events, e.g. when debugging a client that
//! disconnects unexpectedly.

use crate::text::{
    contains, contains_str, eq_ignore_case, same, same_ignore_case, starts_with, starts_with_str,
    strip_prefix_str, trim, trim_str,
};
use vstd::prelude::*;

verus! {

/// Module path warp logs its per-connection errors under (`warp::server::run` today).
pub const WARP_SERVER_TARGET: &'static str = "warp::server";

/// Whether `target` is warp's server target or one of its submodules.
pub open spec fn is_server_target(target: Seq<char>) -> bool {
    ||| target == WARP_SERVER_TARGET@
    ||| starts_with(target, WARP_SERVER_TARGET@ + "::"@)
}

/// Fragments of hyper's `Debug` output that identify a connection the peer tore down.
///
/// Matched against the formatted event message, which contains the `{:?}` rendering of the hyper
/// error, e.g. `server connection error: hyper::Error(IncompleteMessage)` or
/// `server connection error: hyper::Error(Io, Os { code: 104, kind: ConnectionReset, .. })`.
pub open spec fn peer_disconnect_markers() -> Seq<Seq<char>> {
    seq![
        "IncompleteMessage"@,
        "ConnectionReset"@,
        "ConnectionAborted"@,
        "BrokenPipe"@,
        "UnexpectedEof"@,
        "NotConnected"@,
    ]
}

/// Whether a message describes a connection the peer tore down.
pub open spec fn describes_disconnect(message: Seq<char>) -> bool {
    exists|i: int|
        0 <= i < peer_disconnect_markers().len() && contains(
            message,
            #[trigger] peer_disconnect_markers()[i],
        )
}

/// Whether a setting is switched on.
pub open spec fn is_switched_on(value: Seq<char>) -> bool {
    let word = trim(value);
    ||| eq_ignore_case(word, "1"@)
    ||| eq_ignore_case(word, "true"@)
    ||| eq_ignore_case(word, "yes"@)
    ||| eq_ignore_case(word, "on"@)
}

/// Whether warp's connection errors should be logged anyway, from the value of
/// `LOG_CONNECTION_ERRORS` (default `false`).
pub fn log_connection_errors(value: Option<&str>) -> (r: bool)
    ensures
        r == (value is Some && is_switched_on(value->0@)),
{
    match value {
        Some(value) => {
            let word = trim_str(value);
            same_ignore_case(word, "1") || same_ignore_case(word, "true") || same_ignore_case(
                word,
                "yes",
            ) || same_ignore_case(word, "on")
        },
        None => false,
    }
}

/// Whether `target` is warp's server target or one of its submodules.
pub fn is_warp_server_target(target: &str) -> (r: bool)
    ensures
        r == is_server_target(target@),
{
    if same(target, WARP_SERVER_TARGET) {
        return true;
    }
    let ghost whole = WARP_SERVER_TARGET@ + "::"@;
    let ghost n = WARP_SERVER_TARGET@.len() as int;
    let ghost t = target@;
    proof {
        reveal_strlit("::");
        if starts_with(t, whole) {
            assert(t.subrange(0, n) =~= t.subrange(0, whole.len() as int).take(n));
            assert(whole.take(n) =~= WARP_SERVER_TARGET@);
            assert(t.skip(n).subrange(0, 2) =~= t.subrange(0, whole.len() as int).skip(n));
            assert(whole.skip(n) =~= "::"@);
        }
    }
    match strip_prefix_str(target, WARP_SERVER_TARGET) {
        Some(rest) => {
            let r = starts_with_str(rest, "::");
            proof {
                if r {
                    assert(t.subrange(0, whole.len() as int) =~= t.subrange(0, n) + t.skip(
                        n,
                    ).subrange(0, 2));
                }
            }
            r
        },
        None => false,
    }
}

/// Whether `message` describes a connection the peer tore down rather than a server-side fault.
pub fn is_peer_disconnect(message: &str) -> (r: bool)
    ensures
        r == describes_disconnect(message@),
{
    let ghost all = peer_disconnect_markers();
    let r = contains_str(message, "IncompleteMessage") || contains_str(message, "ConnectionReset")
        || contains_str(message, "ConnectionAborted") || contains_str(message, "BrokenPipe")
        || contains_str(message, "UnexpectedEof") || contains_str(message, "NotConnected");
    proof {
        if r {
            assert(contains(message@, all[0]) || contains(message@, all[1]) || contains(
                message@,
                all[2],
            ) || contains(message@, all[3]) || contains(message@, all[4]) || contains(
                message@,
                all[5],
            ));
        }
    }
    r
}

/// Whether an event is logged, given the setting, the target of the event, whether it is an error,
/// and its message: everything but warp's errors about connections the peer tore down, and these
/// too where the setting asks for them.
pub fn event_enabled(
    log_connection_errors: bool,
    target: &str,
    is_error: bool,
    message: &str,
) -> (r: bool)
    ensures
        r == (log_connection_errors || !is_server_target(target@) || !is_error
            || !describes_disconnect(message@)),
{
    if log_connection_errors {
        return true;
    }
    if !is_warp_server_target(target) || !is_error {
        return true;
    }
    !is_peer_disconnect(message)
}

/// The message of an event: the first one recorded that is not empty.
pub fn record_message(message: &mut String, field: &str, value: String)
    ensures
        final(message)@ == if field@ == "message"@ && old(message)@.len() == 0 {
            value@
        } else {
            old(message)@
        },
{
    if same(field, "message") && message.as_str().is_empty() {
        *message = value;
    }
}

/// Every event is logged but an error of warp's server, or of a module below it, about a connection
/// that the peer tore down; and that too where the setting asks for it.
pub proof fn law_only_noise_is_dropped(
    keep: bool,
    target: &str,
    is_error: bool,
    message: &str,
    r: bool,
)
    requires
        call_ensures(event_enabled, (keep, target, is_error, message), r),
    ensures
        keep || !is_error ==> r,
        !(target@ == "warp::server"@ || starts_with(target@, "warp::server::"@)) ==> r,
        !(contains(message@, "IncompleteMessage"@) || contains(message@, "ConnectionReset"@)
            || contains(message@, "ConnectionAborted"@) || contains(message@, "BrokenPipe"@)
            || contains(message@, "UnexpectedEof"@) || contains(message@, "NotConnected"@)) ==> r,
        !keep && is_error && (target@ == "warp::server"@ || starts_with(
            target@,
            "warp::server::"@,
        )) && (contains(message@, "IncompleteMessage"@) || contains(message@, "ConnectionReset"@)
            || contains(message@, "ConnectionAborted"@) || contains(message@, "BrokenPipe"@)
            || contains(message@, "UnexpectedEof"@) || contains(message@, "NotConnected"@)) ==> !r,
{
    reveal_strlit("warp::server");
    reveal_strlit("::");
    reveal_strlit("warp::server::");
    assert(WARP_SERVER_TARGET@ + "::"@ =~= "warp::server::"@);
    let all = peer_disconnect_markers();
    assert(all[0] == "IncompleteMessage"@ && all[1] == "ConnectionReset"@ && all[2]
        == "ConnectionAborted"@ && all[3] == "BrokenPipe"@ && all[4] == "UnexpectedEof"@ && all[5]
        == "NotConnected"@);
    if describes_disconnect(message@) {
        let i = choose|i: int| 0 <= i < all.len() && contains(message@, #[trigger] all[i]);
        assert(i == 0 || i == 1 || i == 2 || i == 3 || i == 4 || i == 5);
    }
    if contains(message@, "IncompleteMessage"@) || contains(message@, "ConnectionReset"@) || contains(
        message@,
        "ConnectionAborted"@,
    ) || contains(message@, "BrokenPipe"@) || contains(message@, "UnexpectedEof"@) || contains(
        message@,
        "NotConnected"@,
    ) {
        assert(contains(message@, all[0]) || contains(message@, all[1]) || contains(message@, all[2])
            || contains(message@, all[3]) || contains(message@, all[4]) || contains(
            message@,
            all[5],
        ));
    }
}

/// The setting is switched on by one of four words, in any case and with white space around it, and by
/// nothing else.
pub proof fn law_settings_are_switched_on_by_words(value: Option<&str>, r: bool)
    requires
        call_ensures(log_connection_errors, (value,), r),
    ensures
        value is None ==> !r,
        value is Some ==> (r <==> {
            let word = trim(value->0@);
            ||| eq_ignore_case(word, "1"@)
            ||| eq_ignore_case(word, "true"@)
            ||| eq_ignore_case(word, "yes"@)
            ||| eq_ignore_case(word, "on"@)
        }),
{
}

/// The first message that says something is kept, and other fields are passed over.
pub proof fn law_first_message_is_kept(message: &mut String, field: &str, value: String)
    requires
        call_ensures(record_message, (message, field, value), ()),
    ensures
        old(message)@.len() > 0 ==> final(message)@ == old(message)@,
        old(message)@.len() == 0 && field@ == "message"@ ==> final(message)@ == value@,
        field@ != "message"@ ==> final(message)@ == old(message)@,
{
}

} // verus!
