//! A TCP connection that carries no HTTP: which of its two directions is idle, and for how long.

use crate::deadline::{deadline_after, due, earlier, has_passed, is_past, sooner};
use vstd::prelude::*;

verus! {

/// The direction in which nothing happened for too long.
#[derive(Clone, Copy, Debug, PartialEq, Eq, Structural)]
pub enum StandaloneInactivity {
    Read,
    Write,
}

/// A live TCP connection.
#[derive(Clone, Copy, Debug, PartialEq, Eq, Structural)]
pub struct StandaloneTcp {
    pub request_id: u64,
    pub read_inactivity_timeout: Option<u64>,
    pub read_inactivity_deadline: Option<u64>,
    /// Nothing can be read, so that not reading is no inactivity.
    pub read_inactivity_paused: bool,
    pub write_inactivity_timeout: Option<u64>,
    pub write_inactivity_deadline: Option<u64>,
    /// There is something to write.
    pub write_inactivity_active: bool,
}

impl View for StandaloneTcp {
    type V = StandaloneTcp;

    open spec fn view(&self) -> StandaloneTcp {
        *self
    }
}

/// A connection that was just made.
pub open spec fn fresh_tcp(
    request_id: u64,
    read_inactivity_timeout: Option<u64>,
    write_inactivity_timeout: Option<u64>,
    now: u64,
) -> StandaloneTcp {
    StandaloneTcp {
        request_id,
        read_inactivity_timeout,
        read_inactivity_deadline: due(now, read_inactivity_timeout),
        read_inactivity_paused: false,
        write_inactivity_timeout,
        write_inactivity_deadline: None,
        write_inactivity_active: false,
    }
}

/// Reading is inactive only while there is room to read into. It counts anew when room appears.
pub open spec fn read_synced(tcp: StandaloneTcp, read_allowance: usize, now: u64) -> StandaloneTcp {
    if read_allowance == 0 {
        StandaloneTcp { read_inactivity_paused: true, read_inactivity_deadline: None, ..tcp }
    } else if tcp.read_inactivity_paused {
        StandaloneTcp {
            read_inactivity_paused: false,
            read_inactivity_deadline: due(now, tcp.read_inactivity_timeout),
            ..tcp
        }
    } else {
        tcp
    }
}

/// Writing is inactive only while there is something to write. It counts anew when output appears.
pub open spec fn write_synced(tcp: StandaloneTcp, send_occupancy: usize, now: u64) -> StandaloneTcp {
    let waiting = send_occupancy != 0;
    if waiting == tcp.write_inactivity_active {
        tcp
    } else {
        StandaloneTcp {
            write_inactivity_active: waiting,
            write_inactivity_deadline: if waiting {
                due(now, tcp.write_inactivity_timeout)
            } else {
                None
            },
            ..tcp
        }
    }
}

/// Both directions follow the buffers.
pub open spec fn pressure_synced(
    tcp: StandaloneTcp,
    read_allowance: usize,
    send_occupancy: usize,
    now: u64,
) -> StandaloneTcp {
    write_synced(read_synced(tcp, read_allowance, now), send_occupancy, now)
}

/// Bytes arrived.
pub open spec fn read_progressed(tcp: StandaloneTcp, now: u64) -> StandaloneTcp {
    if tcp.read_inactivity_paused {
        tcp
    } else {
        StandaloneTcp { read_inactivity_deadline: due(now, tcp.read_inactivity_timeout), ..tcp }
    }
}

/// Bytes were written.
pub open spec fn write_progressed(tcp: StandaloneTcp, send_occupancy: usize, now: u64) -> StandaloneTcp {
    let waiting = send_occupancy != 0;
    StandaloneTcp {
        write_inactivity_active: waiting,
        write_inactivity_deadline: if waiting {
            due(now, tcp.write_inactivity_timeout)
        } else {
            None
        },
        ..tcp
    }
}

/// Nothing more will arrive.
pub open spec fn read_ended(tcp: StandaloneTcp) -> StandaloneTcp {
    StandaloneTcp { read_inactivity_paused: true, read_inactivity_deadline: None, ..tcp }
}

/// The deadline that counts next.
pub open spec fn tcp_deadline(tcp: StandaloneTcp) -> Option<u64> {
    sooner(tcp.read_inactivity_deadline, tcp.write_inactivity_deadline)
}

/// The direction that was idle for too long; reading comes first.
pub open spec fn tcp_expired(tcp: StandaloneTcp, now: u64) -> Option<StandaloneInactivity> {
    if is_past(tcp.read_inactivity_deadline, now) {
        Some(StandaloneInactivity::Read)
    } else if is_past(tcp.write_inactivity_deadline, now) {
        Some(StandaloneInactivity::Write)
    } else {
        None
    }
}

/// A direction counts as idle only while it could make progress.
pub open spec fn tcp_ok(tcp: StandaloneTcp) -> bool {
    &&& tcp.read_inactivity_paused ==> tcp.read_inactivity_deadline is None
    &&& !tcp.write_inactivity_active ==> tcp.write_inactivity_deadline is None
    &&& tcp.read_inactivity_timeout is None ==> tcp.read_inactivity_deadline is None
    &&& tcp.write_inactivity_timeout is None ==> tcp.write_inactivity_deadline is None
}

impl StandaloneTcp {
    pub open spec fn wf(&self) -> bool {
        tcp_ok(*self)
    }

    /// A connection that was just made.
    pub fn new(
        request_id: u64,
        read_inactivity_timeout: Option<u64>,
        write_inactivity_timeout: Option<u64>,
        now: u64,
    ) -> (result: Self)
        ensures
            result == fresh_tcp(
                request_id,
                read_inactivity_timeout,
                write_inactivity_timeout,
                now,
            ),
            result.wf(),
    {
        StandaloneTcp {
            request_id,
            read_inactivity_timeout,
            read_inactivity_deadline: deadline_after(now, read_inactivity_timeout),
            read_inactivity_paused: false,
            write_inactivity_timeout,
            write_inactivity_deadline: None,
            write_inactivity_active: false,
        }
    }

    /// Follows the buffers: how much can be read, and how much is yet to be written.
    pub fn sync_pressure(&mut self, read_allowance: usize, send_occupancy: usize, now: u64)
        requires
            old(self).wf(),
        ensures
            final(self).wf(),
            *final(self) == pressure_synced(*old(self), read_allowance, send_occupancy, now),
    {
        if read_allowance == 0 {
            self.read_inactivity_paused = true;
            self.read_inactivity_deadline = None;
        } else if self.read_inactivity_paused {
            self.read_inactivity_paused = false;
            self.read_inactivity_deadline = deadline_after(now, self.read_inactivity_timeout);
        }
        let waiting = send_occupancy != 0;
        if !self.write_inactivity_active && waiting {
            self.write_inactivity_active = true;
            self.write_inactivity_deadline = deadline_after(now, self.write_inactivity_timeout);
        } else if self.write_inactivity_active && !waiting {
            self.write_inactivity_active = false;
            self.write_inactivity_deadline = None;
        }
    }

    /// Notes that bytes arrived.
    pub fn note_read_progress(&mut self, now: u64)
        requires
            old(self).wf(),
        ensures
            final(self).wf(),
            *final(self) == read_progressed(*old(self), now),
    {
        if !self.read_inactivity_paused {
            self.read_inactivity_deadline = deadline_after(now, self.read_inactivity_timeout);
        }
    }

    /// Notes that bytes were written, and how much is yet to be written.
    pub fn note_write_progress(&mut self, send_occupancy: usize, now: u64)
        requires
            old(self).wf(),
        ensures
            final(self).wf(),
            *final(self) == write_progressed(*old(self), send_occupancy, now),
    {
        let waiting = send_occupancy != 0;
        self.write_inactivity_active = waiting;
        self.write_inactivity_deadline = if waiting {
            deadline_after(now, self.write_inactivity_timeout)
        } else {
            None
        };
    }

    /// Notes that nothing more will arrive.
    pub fn note_peer_closed(&mut self)
        requires
            old(self).wf(),
        ensures
            final(self).wf(),
            *final(self) == read_ended(*old(self)),
    {
        self.read_inactivity_paused = true;
        self.read_inactivity_deadline = None;
    }

    /// The deadline that counts next.
    pub fn next_deadline(&self) -> (result: Option<u64>)
        ensures
            result == tcp_deadline(*self),
    {
        earlier(self.read_inactivity_deadline, self.write_inactivity_deadline)
    }

    /// The direction that was idle for too long.
    pub fn expired(&self, now: u64) -> (result: Option<StandaloneInactivity>)
        ensures
            result == tcp_expired(*self, now),
    {
        if has_passed(self.read_inactivity_deadline, now) {
            Some(StandaloneInactivity::Read)
        } else if has_passed(self.write_inactivity_deadline, now) {
            Some(StandaloneInactivity::Write)
        } else {
            None
        }
    }
}

/// Backpressure is no inactivity: while nothing can be read and nothing is to be written, a
/// connection never expires.
pub proof fn lemma_backpressure_is_no_inactivity(tcp: StandaloneTcp, synced_at: u64, now: u64)
    requires
        tcp_ok(tcp),
    ensures
        tcp_deadline(pressure_synced(tcp, 0, 0, synced_at)) is None,
        tcp_expired(pressure_synced(tcp, 0, 0, synced_at), now) is None,
{
}

/// A connection expires exactly when the deadline that it asked for has passed.
pub proof fn lemma_expiry_follows_the_deadline(tcp: StandaloneTcp, now: u64)
    ensures
        tcp_expired(tcp, now) is Some <==> is_past(tcp_deadline(tcp), now),
{
}

} // verus!
