//! The wait schedule between attempts to re-establish an outbound connection:
//! quick retries first, then a slow ramp, then one attempt a minute forever.

use vstd::prelude::*;

verus! {

/// Number of initial attempts that are followed by the quick wait.
pub const QUICK_ATTEMPTS: u64 = 14;

/// Wait, in seconds, after each of the quick attempts.
pub const QUICK_WAIT_SECS: u64 = 5;

/// By how many seconds the wait grows per attempt once the quick attempts
/// are spent.
pub const WAIT_STEP_SECS: u64 = 10;

/// Longest wait, in seconds. The schedule reaches it and stays there.
pub const MAX_WAIT_SECS: u64 = 60;

/// The attempt from which on the wait no longer changes.
pub const STEADY_ATTEMPT: u64 = 19;

/// Seconds to wait after failed attempt number `attempt`, counted from 0:
/// fourteen waits of 5 s, then 10 s, 20 s, 30 s, 40 s, 50 s, then 60 s for
/// every attempt that follows.
pub open spec fn wait_secs(attempt: nat) -> nat {
    if attempt < 14 {
        5
    } else if attempt < 19 {
        ((attempt - 13) * 10) as nat
    } else {
        60
    }
}

/// Where the cursor of a schedule stands once `handed_out` waits were taken
/// from it. The cursor stops moving when the waits have become constant.
pub open spec fn cursor_after(handed_out: nat) -> nat {
    if handed_out < 19 {
        handed_out
    } else {
        19
    }
}

/// The schedule begins with exactly these 21 waits.
pub proof fn lemma_schedule_prefix()
    ensures
        Seq::new(21, |i: int| wait_secs(i as nat)) == seq![
            5nat, 5, 5, 5, 5, 5, 5, 5, 5, 5, 5, 5, 5, 5,
            10, 20, 30, 40, 50, 60, 60,
        ],
{
    assert(Seq::new(21, |i: int| wait_secs(i as nat)) =~= seq![
        5nat, 5, 5, 5, 5, 5, 5, 5, 5, 5, 5, 5, 5, 5,
        10, 20, 30, 40, 50, 60, 60,
    ]);
}

/// From attempt 19 on the wait is 60 s, without end; no wait is ever shorter
/// than 5 s or longer than 60 s, and the waits never shrink.
pub proof fn lemma_schedule_tail(attempt: nat, later: nat)
    ensures
        attempt >= 19 ==> wait_secs(attempt) == 60,
        5 <= wait_secs(attempt) <= 60,
        attempt <= later ==> wait_secs(attempt) <= wait_secs(later),
{
}

/// Taking waits from a schedule is counting attempts: a cursor that
/// `handed_out` waits have left where it stands hands out, `ahead` calls
/// later, the wait of attempt `handed_out + ahead`, and moving it on by
/// `ahead` leaves it where `handed_out + ahead` waits leave a fresh one. So
/// the waits that a fresh schedule hands out, call after call, are
/// `wait_secs(0)`, `wait_secs(1)`, `wait_secs(2)`, ...
pub proof fn lemma_cursor_tracks_attempts(handed_out: nat, ahead: nat)
    ensures
        cursor_after(0) == 0,
        wait_secs(cursor_after(handed_out) + ahead) == wait_secs(handed_out + ahead),
        cursor_after(cursor_after(handed_out) + ahead) == cursor_after(handed_out + ahead),
{
}

/// A cursor into the reconnect schedule. Each connection owns one; it only
/// moves forward and never runs out.
#[derive(Debug)]
pub struct ReconnectSchedule {
    cursor: u64,
}

impl View for ReconnectSchedule {
    type V = nat;

    /// The position of the cursor: the number of the attempt whose wait comes
    /// next, held at 19 once the waits have become constant.
    closed spec fn view(&self) -> nat {
        self.cursor as nat
    }
}

impl ReconnectSchedule {
    #[verifier::type_invariant]
    spec fn cursor_in_range(self) -> bool {
        self.cursor <= STEADY_ATTEMPT
    }

    /// A fresh schedule, positioned before its first wait.
    pub fn new() -> (s: Self)
        ensures
            s@ == 0,
    {
        ReconnectSchedule { cursor: 0 }
    }

    /// Where the cursor stands. It never passes the attempt from which the
    /// waits are constant.
    pub fn position(&self) -> (p: u64)
        ensures
            p == self@,
            p <= 19,
            cursor_after(self@) == self@,
    {
        proof {
            use_type_invariant(self);
        }
        self.cursor
    }

    /// Hands out the next wait, in seconds, and advances the cursor.
    pub fn next(&mut self) -> (secs: u64)
        ensures
            secs == wait_secs(old(self)@),
            final(self)@ == cursor_after(old(self)@ + 1),
    {
        proof {
            use_type_invariant(&*self);
        }
        let at: u64 = self.cursor;
        if at < QUICK_ATTEMPTS {
            self.cursor = at + 1;
            QUICK_WAIT_SECS
        } else if at < STEADY_ATTEMPT {
            self.cursor = at + 1;
            (at - 13) * WAIT_STEP_SECS
        } else {
            MAX_WAIT_SECS
        }
    }

    /// Hands out the next `count` waits at once, in order.
    pub fn take(&mut self, count: usize) -> (waits: Vec<u64>)
        ensures
            waits@.len() == count,
            forall|i: int| 0 <= i < count ==> waits@[i] == wait_secs(old(self)@ + i as nat),
            final(self)@ == cursor_after(old(self)@ + count as nat),
    {
        proof {
            use_type_invariant(&*self);
        }
        let mut waits: Vec<u64> = Vec::new();
        let mut taken: usize = 0;
        while taken < count
            invariant
                taken <= count,
                old(self)@ <= 19,
                waits@.len() == taken,
                forall|i: int| 0 <= i < taken ==> waits@[i] == wait_secs(old(self)@ + i as nat),
                self@ == cursor_after(old(self)@ + taken as nat),
            decreases count - taken,
        {
            let secs = self.next();
            waits.push(secs);
            taken = taken + 1;
        }
        waits
    }
}

} // verus!
