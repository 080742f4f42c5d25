//! The rhythm of a sampling loop: attaching with retries, and a fixed beat.
use vstd::prelude::*;
use crate::number::{dec, dec_text};
use crate::text::mentions;

verus! {

/// How often a sampling loop tries to attach.
pub const ATTACH_ATTEMPTS: u32 = 5;

/// What follows a failure to attach.
#[derive(Debug, Clone, Copy, PartialEq, Eq, Structural)]
pub enum AttachStep {
    /// Another try, after so many milliseconds.
    Retry(u64),
    /// None.
    GiveUp,
}

/// What follows failure number `attempt`, counted from one: the waits grow, and
/// the last failure ends the tries.
pub fn after_attach_failure(attempt: u32) -> (r: AttachStep)
    ensures
        r == if attempt < ATTACH_ATTEMPTS {
            AttachStep::Retry((300 * attempt) as u64)
        } else {
            AttachStep::GiveUp
        },
{
    if attempt < ATTACH_ATTEMPTS {
        AttachStep::Retry(300 * attempt as u64)
    } else {
        AttachStep::GiveUp
    }
}

/// The report of failure number `attempt` to attach. `window` names the window
/// that stays without data when the loop gives up.
pub open spec fn attach_report(attempt: nat, error: Seq<char>, window: Seq<char>) -> Seq<char> {
    if attempt < ATTACH_ATTEMPTS {
        "采样线程挂接失败（第 "@ + dec(attempt) + "/5 次）："@ + error + "，重试中…"@
    } else {
        "采样线程挂接失败（第 5/5 次）："@ + error + "，放弃采样（"@ + window
            + "将无数据）"@
    }
}

/// Writes the report of failure number `attempt` to attach.
pub fn attach_failure_text(attempt: u32, error: &str, window: &str) -> (r: String)
    ensures
        r@ == attach_report(attempt as nat, error@, window@),
{
    let mut s: String;
    if attempt < ATTACH_ATTEMPTS {
        s = String::from_str("采样线程挂接失败（第 ");
        s.append(dec_text(attempt as u64).as_str());
        s.append("/5 次）：");
        s.append(error);
        s.append("，重试中…");
    } else {
        s = String::from_str("采样线程挂接失败（第 5/5 次）：");
        s.append(error);
        s.append("，放弃采样（");
        s.append(window);
        s.append("将无数据）");
    }
    s
}

/// The time between two samples of a window, in milliseconds: at least ten.
pub fn beat_ms(interval_ms: u64) -> (r: u64)
    ensures
        r == if interval_ms < 10 {
            10
        } else {
            interval_ms as int
        },
{
    if interval_ms < 10 {
        10
    } else {
        interval_ms
    }
}

/// When the beat after the one at `due` is: `interval` later, or now where that
/// is past.
pub open spec fn beat_after(due: int, interval: int, now: int) -> int {
    if due + interval > now {
        due + interval
    } else {
        now
    }
}

/// When the next beat is due and how long to sleep until then, all in
/// nanoseconds. The time that a sample took does not shift the beat; a beat that
/// is already past is dropped, and the rhythm starts anew from now.
pub fn next_beat(due: u64, interval: u64, now: u64) -> (r: (u64, u64))
    requires
        due + interval <= u64::MAX,
    ensures
        r.0 == beat_after(due as int, interval as int, now as int),
        r.1 == r.0 - now,
{
    let next: u64 = due + interval;
    if next > now {
        (next, next - now)
    } else {
        (now, 0)
    }
}

/// The beat that follows samples which were done at the times `done`.
pub open spec fn beat_of(start: int, interval: int, done: Seq<int>) -> int
    decreases done.len(),
{
    if done.len() == 0 {
        start
    } else {
        beat_after(beat_of(start, interval, done.drop_last()), interval, done.last())
    }
}

/// As long as each sample is done before the next beat, the beats do not drift:
/// each comes a whole number of intervals after the start.
pub proof fn law_beats_do_not_drift(start: int, interval: int, done: Seq<int>)
    requires
        forall|k: int| 0 <= k < done.len() ==> #[trigger] done[k] < start + (k + 1) * interval,
    ensures
        beat_of(start, interval, done) == start + done.len() * interval,
    decreases done.len(),
{
    if done.len() > 0 {
        let front = done.drop_last();
        assert forall|k: int| 0 <= k < front.len() implies #[trigger] front[k] < start + (k + 1)
            * interval by {
            assert(front[k] == done[k]);
        }
        law_beats_do_not_drift(start, interval, front);
        let n = done.len() as int;
        assert(done[n - 1] < start + (n - 1 + 1) * interval);
        assert((n - 1) * interval + interval == n * interval) by (nonlinear_arith);
    } else {
        assert(0 * interval == 0) by (nonlinear_arith);
    }
}

/// The wait before another try to attach grows with the tries, and a loop gives up
/// after five. Its report tells the error.
pub proof fn law_attaching_gives_up(attempt: nat, error: Seq<char>, window: Seq<char>)
    ensures
        mentions(attach_report(attempt, error, window), error),
        attempt < 5 ==> mentions(attach_report(attempt, error, window), dec(attempt)),
        attempt >= 5 ==> mentions(attach_report(attempt, error, window), window),
{
    let r = attach_report(attempt, error, window);
    if attempt < 5 {
        let a = "采样线程挂接失败（第 "@;
        let n = dec(attempt);
        assert(r =~= a + n + r.skip((a.len() + n.len()) as int));
        let b = a + n + "/5 次）："@;
        assert(r =~= b + error + r.skip((b.len() + error.len()) as int));
    } else {
        let a = "采样线程挂接失败（第 5/5 次）："@;
        assert(r =~= a + error + r.skip((a.len() + error.len()) as int));
        let b = a + error + "，放弃采样（"@;
        assert(r =~= b + window + r.skip((b.len() + window.len()) as int));
    }
}

/// A beat comes an interval after the one before; where that is past, it comes at
/// once, and the beats that were missed are not made up for.
pub proof fn law_late_beats_come_at_once(due: int, interval: int, now: int)
    ensures
        due + interval > now ==> beat_after(due, interval, now) == due + interval,
        due + interval <= now ==> beat_after(due, interval, now) == now,
{
}

}
