use vstd::prelude::*;
use crate::ledger::{sum_from, Ledger};
use crate::speed::{is_speed_of, line_of, ReadableSpeed};

verus! {

/// The length of the trailing window over which the rate is averaged, in seconds.
pub const WINDOW_SECONDS: u64 = 10;

/// The first bucket of the window that ends at `total_elapsed`: ten seconds
/// back, or the start of measurement when less time has passed.
pub open spec fn window_start_of(total_elapsed: u64) -> u64 {
    if total_elapsed >= WINDOW_SECONDS {
        (total_elapsed - WINDOW_SECONDS) as u64
    } else {
        0
    }
}

/// The first bucket of the trailing window at `total_elapsed` seconds.
pub fn window_start(total_elapsed: u64) -> (r: u64)
    ensures
        r == window_start_of(total_elapsed),
{
    if total_elapsed >= WINDOW_SECONDS {
        total_elapsed - WINDOW_SECONDS
    } else {
        0
    }
}

/// The rate over the trailing window at `total_elapsed` seconds: the bytes of
/// the buckets from the window's start on, over the window's length. With no
/// time elapsed the rate is zero.
pub fn window_speed(ledger: &Ledger, total_elapsed: u64) -> (r: ReadableSpeed)
    requires
        ledger.wf(),
    ensures
        total_elapsed == 0 ==> is_speed_of(r, 0, 1),
        total_elapsed > 0 ==> is_speed_of(
            r,
            sum_from(ledger@, window_start_of(total_elapsed)),
            (total_elapsed - window_start_of(total_elapsed)) as nat,
        ),
        0 < r.divisor <= u64::MAX,
{
    let start = window_start(total_elapsed);
    let duration = total_elapsed - start;
    if duration == 0 {
        ReadableSpeed::from_bytes(0, 1)
    } else {
        let size = ledger.windowed_sum(start);
        ReadableSpeed::from_bytes(size, duration)
    }
}

/// The status line for the trailing window at `total_elapsed` seconds, as in
/// "3.42 MiB/s\n".
pub fn window_status_line(ledger: &Ledger, total_elapsed: u64) -> (r: Vec<u8>)
    requires
        ledger.wf(),
    ensures
        exists|s: ReadableSpeed|
            #[trigger] line_of(s) == r@ && {
                &&& (total_elapsed == 0 ==> is_speed_of(s, 0, 1))
                &&& (total_elapsed > 0 ==> is_speed_of(
                    s,
                    sum_from(ledger@, window_start_of(total_elapsed)),
                    (total_elapsed - window_start_of(total_elapsed)) as nat,
                ))
            },
{
    let speed = window_speed(ledger, total_elapsed);
    let r = speed.status_line();
    assert(line_of(speed) == r@);
    r
}

} // verus!
