//! Gravity and lock delay: how long to wait for the next forced step, how
//! long a resting piece may still be shifted, and how the game speeds up.

use vstd::prelude::*;
use crate::config::INITIAL_TICK_TIME_MS;

verus! {

/// Milliseconds by which a cleared row shortens the time between two gravity
/// steps.
pub const QUICKENING_COEF: usize = 20;

/// The shortest time between two gravity steps, in milliseconds.
pub const SPEED_CAP: usize = 20;

/// `std::time::SystemTime`, a point in time read from the system clock.
/// Nothing is known of what it holds.
#[verifier::external_type_specification]
#[verifier::external_body]
pub struct ExSystemTime(std::time::SystemTime);

/// `std::time::SystemTimeError`, the error of a time difference that would be
/// negative. Nothing is known of what it holds.
#[verifier::external_type_specification]
#[verifier::external_body]
pub struct ExSystemTimeError(std::time::SystemTimeError);

/// `SystemTime::now` reads the system clock. Nothing is claimed of the time
/// it returns.
pub assume_specification[ std::time::SystemTime::now ]() -> (now: std::time::SystemTime)
;

/// `SystemTime::elapsed` gives the time that has passed since `time`, or an
/// error where the clock now reads earlier than `time`. Nothing is claimed of
/// which it returns, nor of the length.
pub assume_specification[ std::time::SystemTime::elapsed ](time: &std::time::SystemTime) -> (elapsed:
    Result<core::time::Duration, std::time::SystemTimeError>)
;

/// `Duration::as_millis` gives the whole milliseconds of a duration. Nothing
/// is claimed of the number.
pub assume_specification[ core::time::Duration::as_millis ](duration: &core::time::Duration) -> (millis:
    u128)
;

/// The time between two gravity steps after `cleared` rows were cleared at
/// once, where it was `tick_time` before: 20 ms shorter for each row, and
/// never under 20 ms.
pub open spec fn quickened(tick_time: int, cleared: int) -> int {
    if tick_time >= QUICKENING_COEF * cleared + SPEED_CAP {
        tick_time - QUICKENING_COEF * cleared
    } else {
        SPEED_CAP as int
    }
}

/// The time between two gravity steps after `cleared` rows were cleared at
/// once `times` times over.
pub open spec fn quickened_repeatedly(tick_time: int, cleared: int, times: nat) -> int
    decreases times,
{
    if times == 0 {
        tick_time
    } else {
        quickened(quickened_repeatedly(tick_time, cleared, (times - 1) as nat), cleared)
    }
}

/// What is left of `tick_time` once `offset_tick` and `elapsed` milliseconds
/// of it have passed: nothing, where they make up `tick_time` or more.
pub open spec fn remaining(tick_time: int, offset_tick: int, elapsed: int) -> int {
    if tick_time >= offset_tick + elapsed {
        tick_time - (offset_tick + elapsed)
    } else {
        0
    }
}

/// Clearing rows never slows the game down and never takes it under the
/// shortest tick time.
pub proof fn lemma_quickened_bounds(tick_time: int, cleared: int)
    requires
        tick_time >= SPEED_CAP,
        cleared >= 0,
    ensures
        SPEED_CAP <= quickened(tick_time, cleared) <= tick_time,
{
}

/// However often rows are cleared, the tick time stays at or above the
/// shortest one and never grows. Once the clears add up to the distance from
/// the shortest tick time, it is the shortest tick time exactly, and stays so.
pub proof fn lemma_quickened_repeatedly(tick_time: int, cleared: int, times: nat)
    requires
        tick_time >= SPEED_CAP,
        cleared >= 0,
    ensures
        SPEED_CAP <= quickened_repeatedly(tick_time, cleared, times) <= tick_time,
        times * (QUICKENING_COEF * cleared) >= tick_time - SPEED_CAP ==> quickened_repeatedly(
            tick_time,
            cleared,
            times,
        ) == SPEED_CAP,
        times * (QUICKENING_COEF * cleared) < tick_time - SPEED_CAP ==> quickened_repeatedly(
            tick_time,
            cleared,
            times,
        ) == tick_time - times * (QUICKENING_COEF * cleared),
    decreases times,
{
    if times > 0 {
        let fewer = (times - 1) as nat;
        lemma_quickened_repeatedly(tick_time, cleared, fewer);
        let step = QUICKENING_COEF * cleared;
        assert(times * step == fewer * step + step) by (nonlinear_arith)
            requires
                times == fewer + 1,
        ;
        assert(fewer * step >= 0) by (nonlinear_arith)
            requires
                step >= 0,
        ;
    } else {
        assert(times * (QUICKENING_COEF * cleared) == 0) by (nonlinear_arith)
            requires
                times == 0,
        ;
    }
}

/// The clock of the game.
pub struct TimeManager {
    /// Milliseconds between two gravity steps.
    pub tick_time: usize,
    /// When the clock was last reset.
    pub last: std::time::SystemTime,
    /// Milliseconds that a resting piece may still wait before it locks.
    pub sticky_timeout: usize,
    /// Milliseconds of the running tick that passed before the clock was
    /// last reset.
    pub offset_tick: usize,
}

impl TimeManager {
    /// The clock of a new game.
    pub fn new() -> (manager: Self)
        ensures
            manager.tick_time == INITIAL_TICK_TIME_MS,
            manager.sticky_timeout == INITIAL_TICK_TIME_MS,
            manager.offset_tick == 0,
    {
        TimeManager {
            tick_time: INITIAL_TICK_TIME_MS,
            last: std::time::SystemTime::now(),
            sticky_timeout: INITIAL_TICK_TIME_MS,
            offset_tick: 0,
        }
    }

    /// Resets the clock after a step down or a lock: a full tick and the full
    /// grace budget lie ahead.
    pub fn tick(&mut self)
        ensures
            final(self).tick_time == old(self).tick_time,
            final(self).sticky_timeout == INITIAL_TICK_TIME_MS,
            final(self).offset_tick == 0,
    {
        self.last = std::time::SystemTime::now();
        self.sticky_timeout = INITIAL_TICK_TIME_MS;
        self.offset_tick = 0;
    }

    /// Milliseconds to wait before the next forced step, where `elapsed`
    /// milliseconds have passed since the clock was last reset.
    pub fn timeout_after(&self, elapsed: u128) -> (timeout: usize)
        ensures
            timeout == remaining(self.tick_time as int, self.offset_tick as int, elapsed as int),
    {
        if elapsed >= self.tick_time as u128 {
            0
        } else {
            let left: usize = self.tick_time - elapsed as usize;
            if self.offset_tick >= left {
                0
            } else {
                left - self.offset_tick
            }
        }
    }

    /// Milliseconds that have passed since the clock was last reset, by the
    /// system clock; none where the system clock went back.
    fn elapsed_millis(&self) -> (millis: u128) {
        match self.last.elapsed() {
            Ok(duration) => duration.as_millis(),
            Err(_) => 0,
        }
    }

    /// Milliseconds to wait before the next forced step: what is left of the
    /// tick, by the system clock.
    pub fn get_timeout(&self) -> (timeout: usize)
        ensures
            exists|elapsed: u128|
                timeout == #[trigger] remaining(
                    self.tick_time as int,
                    self.offset_tick as int,
                    elapsed as int,
                ),
            timeout <= self.tick_time,
    {
        let elapsed = self.elapsed_millis();
        self.timeout_after(elapsed)
    }

    /// Whether a resting piece has used up its grace budget and must lock.
    pub fn should_finish_turn(&self) -> (finish: bool)
        ensures
            finish == (self.sticky_timeout <= self.tick_time),
    {
        self.sticky_timeout <= self.tick_time
    }

    /// Speeds the game up after `cleaned_up` rows were cleared at once.
    pub fn update_tick_speed(&mut self, cleaned_up: usize)
        ensures
            final(self).tick_time == quickened(old(self).tick_time as int, cleaned_up as int),
            final(self).tick_time >= SPEED_CAP,
            old(self).tick_time >= SPEED_CAP ==> final(self).tick_time <= old(self).tick_time,
            final(self).sticky_timeout == old(self).sticky_timeout,
            final(self).offset_tick == old(self).offset_tick,
    {
        if cleaned_up <= (usize::MAX - SPEED_CAP) / QUICKENING_COEF && self.tick_time
            >= QUICKENING_COEF * cleaned_up + SPEED_CAP {
            self.tick_time -= QUICKENING_COEF * cleaned_up;
        } else {
            self.tick_time = SPEED_CAP;
        }
    }

    /// Takes one tick off the grace budget of a piece that rests and could
    /// not step down. Where less than a tick of grace is left after that, the
    /// next wait is cut down to what is left.
    pub fn advance_stuck(&mut self)
        requires
            old(self).sticky_timeout >= old(self).tick_time,
        ensures
            final(self).tick_time == old(self).tick_time,
            final(self).sticky_timeout == old(self).sticky_timeout - old(self).tick_time,
            final(self).offset_tick == if final(self).sticky_timeout < old(self).tick_time {
                (old(self).tick_time - final(self).sticky_timeout) as usize
            } else {
                old(self).offset_tick
            },
    {
        self.sticky_timeout -= self.tick_time;
        if self.sticky_timeout < self.tick_time {
            self.offset_tick = self.tick_time - self.sticky_timeout;
        }
        self.last = std::time::SystemTime::now();
    }
}

} // verus!
