//! Connection-level limits for the HTTP server.
//!
//! A killed process must not be able to leave much behind in kernel socket
//! buffers, so the listening socket gets explicit send/receive buffer sizes
//! and TCP keepalive, which every accepted connection inherits; and a
//! connection nobody is reading must not live forever, so a watchdog drops a
//! connection whose byte count stops moving. The numbers are here; the
//! sockets and the watchdog are the server's.

use vstd::prelude::*;

use crate::config::{bounded_setting, bounded_setting_spec};

verus! {

/// Per-connection limits applied to every socket the server accepts. Times
/// are whole seconds.
#[derive(Clone, Debug)]
pub struct ServeLimits {
    /// SO_SNDBUF for accepted sockets: the ceiling on what an abruptly killed
    /// process can leave pinned in kernel memory per connection.
    pub send_buffer_bytes: usize,
    /// SO_RCVBUF for accepted sockets, which also caps the advertised receive window.
    pub recv_buffer_bytes: usize,
    /// How long a connection may be idle before TCP starts probing whether the peer still exists.
    pub keepalive_idle_secs: u64,
    /// Gap between keepalive probes once probing starts.
    pub keepalive_interval_secs: u64,
    /// No bytes in either direction for this long drops the connection.
    pub idle_timeout_secs: u64,
    /// How often the watchdog looks at a connection's byte counter.
    pub idle_check_interval_secs: u64,
    /// How long in-flight connections get to finish after a shutdown signal.
    pub shutdown_grace_secs: u64,
}

/// The defaults: 1 MiB socket buffers, keepalive after 60 s probing every
/// 10 s, a connection dropped after 300 s without progress (checked every
/// 15 s), and 5 s of grace at shutdown.
pub open spec fn default_limits() -> ServeLimits {
    ServeLimits {
        send_buffer_bytes: 1048576,
        recv_buffer_bytes: 1048576,
        keepalive_idle_secs: 60,
        keepalive_interval_secs: 10,
        idle_timeout_secs: 300,
        idle_check_interval_secs: 15,
        shutdown_grace_secs: 5,
    }
}

impl Default for ServeLimits {
    /// Every byte of public traffic reaches the service over loopback via the
    /// reverse proxy and the app reaches it over the LAN, so a 1 MiB window is
    /// far more than either path can use while capping what a killed process
    /// can strand.
    fn default() -> (r: Self)
        ensures
            r == default_limits(),
    {
        ServeLimits {
            send_buffer_bytes: 1048576,
            recv_buffer_bytes: 1048576,
            keepalive_idle_secs: 60,
            keepalive_interval_secs: 10,
            idle_timeout_secs: 300,
            idle_check_interval_secs: 15,
            shutdown_grace_secs: 5,
        }
    }
}

/// The view of an optional string.
pub open spec fn opt_view(v: Option<&str>) -> Option<Seq<char>> {
    match v {
        Some(s) => Some(s@),
        None => None,
    }
}

impl ServeLimits {
    /// Overrides the defaults from the `PHONE_SYNC_*` environment values, so a
    /// limit can be adjusted on the live box without a rebuild. Each value
    /// replaces its default only when it is set and parses as an unsigned
    /// integer that fits; anything else keeps the default.
    /// @param send_buffer - `PHONE_SYNC_SOCKET_SEND_BUFFER_BYTES`
    /// @param recv_buffer - `PHONE_SYNC_SOCKET_RECV_BUFFER_BYTES`
    /// @param keepalive - `PHONE_SYNC_SOCKET_KEEPALIVE_SECS`
    /// @param keepalive_interval - `PHONE_SYNC_SOCKET_KEEPALIVE_INTERVAL_SECS`
    /// @param idle_timeout - `PHONE_SYNC_CONNECTION_IDLE_TIMEOUT_SECS`
    /// @param idle_check - `PHONE_SYNC_CONNECTION_IDLE_CHECK_SECS`
    /// @param shutdown_grace - `PHONE_SYNC_SHUTDOWN_GRACE_SECS`
    pub fn from_env(
        send_buffer: Option<&str>,
        recv_buffer: Option<&str>,
        keepalive: Option<&str>,
        keepalive_interval: Option<&str>,
        idle_timeout: Option<&str>,
        idle_check: Option<&str>,
        shutdown_grace: Option<&str>,
    ) -> (r: Self)
        ensures
            r.send_buffer_bytes == bounded_setting_spec(
                opt_view(send_buffer),
                usize::MAX as u64,
                default_limits().send_buffer_bytes as u64,
            ),
            r.recv_buffer_bytes == bounded_setting_spec(
                opt_view(recv_buffer),
                usize::MAX as u64,
                default_limits().recv_buffer_bytes as u64,
            ),
            r.keepalive_idle_secs == bounded_setting_spec(
                opt_view(keepalive),
                u64::MAX,
                default_limits().keepalive_idle_secs,
            ),
            r.keepalive_interval_secs == bounded_setting_spec(
                opt_view(keepalive_interval),
                u64::MAX,
                default_limits().keepalive_interval_secs,
            ),
            r.idle_timeout_secs == bounded_setting_spec(
                opt_view(idle_timeout),
                u64::MAX,
                default_limits().idle_timeout_secs,
            ),
            r.idle_check_interval_secs == bounded_setting_spec(
                opt_view(idle_check),
                u64::MAX,
                default_limits().idle_check_interval_secs,
            ),
            r.shutdown_grace_secs == bounded_setting_spec(
                opt_view(shutdown_grace),
                u64::MAX,
                default_limits().shutdown_grace_secs,
            ),
    {
        let d = ServeLimits::default();
        ServeLimits {
            send_buffer_bytes: bounded_setting(send_buffer, usize::MAX as u64, d.send_buffer_bytes as u64) as usize,
            recv_buffer_bytes: bounded_setting(recv_buffer, usize::MAX as u64, d.recv_buffer_bytes as u64) as usize,
            keepalive_idle_secs: bounded_setting(keepalive, u64::MAX, d.keepalive_idle_secs),
            keepalive_interval_secs: bounded_setting(keepalive_interval, u64::MAX, d.keepalive_interval_secs),
            idle_timeout_secs: bounded_setting(idle_timeout, u64::MAX, d.idle_timeout_secs),
            idle_check_interval_secs: bounded_setting(idle_check, u64::MAX, d.idle_check_interval_secs),
            shutdown_grace_secs: bounded_setting(shutdown_grace, u64::MAX, d.shutdown_grace_secs),
        }
    }
}

/// What the watchdog does after one look at a connection's byte counter.
#[derive(Debug, Clone, Copy, PartialEq, Eq, Structural)]
pub enum WatchStep {
    /// Bytes moved since the last look: remember the count, reset the stall.
    Progress { last: u64, stalled_secs: u64 },
    /// Nothing moved, but not for the whole idle window yet.
    Stalled { stalled_secs: u64 },
    /// Nothing moved for the whole idle window: drop the connection.
    Drop,
}

/// One watchdog tick: compares the counter with the last one seen. When it
/// moved, the stall resets; otherwise the stall grows by one check interval,
/// and reaching the idle window means the connection is dropped. The stall
/// plus one interval must fit in a `u64` of seconds, as it must in a
/// `Duration`.
/// @param last - the counter at the previous look
/// @param now - the counter now
/// @param stalled_secs - how long nothing has moved so far
/// @param limits - supplies the idle window and the check interval
pub fn watch_step(last: u64, now: u64, stalled_secs: u64, limits: &ServeLimits) -> (step: WatchStep)
    requires
        stalled_secs + limits.idle_check_interval_secs <= u64::MAX,
    ensures
        now != last ==> step == (WatchStep::Progress { last: now, stalled_secs: 0 }),
        now == last && stalled_secs + limits.idle_check_interval_secs >= limits.idle_timeout_secs ==> step
            == WatchStep::Drop,
        now == last && stalled_secs + limits.idle_check_interval_secs < limits.idle_timeout_secs ==> step
            == (WatchStep::Stalled { stalled_secs: (stalled_secs + limits.idle_check_interval_secs) as u64 }),
{
    if now != last {
        return WatchStep::Progress { last: now, stalled_secs: 0 };
    }
    let grown = stalled_secs + limits.idle_check_interval_secs;
    if grown >= limits.idle_timeout_secs {
        WatchStep::Drop
    } else {
        WatchStep::Stalled { stalled_secs: grown }
    }
}

} // verus!
