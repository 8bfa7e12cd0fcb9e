//! Telling our own clipboard writes apart from the user's copies.
//!
//! After the app writes the clipboard, the system often bumps the change
//! count more than once. The watcher must not ingest those ticks again, or it
//! would sync the same payload straight back to the device that sent it.

use vstd::prelude::*;

verus! {

/// How long after an own write every change tick is ignored, in ms.
pub const OWN_WRITE_GRACE_MS: i64 = 800;

/// What the watcher remembers of the app's own clipboard writes.
pub struct OwnWrites {
    /// The change count that an own write or file promise produced; -1 when
    /// there is none.
    pub promise_count: i64,
    /// Set while the app itself is writing the clipboard.
    pub skip_read: bool,
    /// Until this time (ms since the epoch) every change is the app's own.
    pub until_ms: i64,
    /// The entry whose file is promised on the clipboard, if any.
    pub promise_id: Option<String>,
}

/// `a + b` clamped to the range of `i64`.
pub open spec fn sat_add_i64(a: int, b: int) -> int {
    if a + b > i64::MAX {
        i64::MAX as int
    } else if a + b < i64::MIN {
        i64::MIN as int
    } else {
        a + b
    }
}

/// `a - b` clamped to the range of `i64`.
pub open spec fn sat_sub_i64(a: int, b: int) -> int {
    sat_add_i64(a, -b)
}

pub fn saturating_add_i64(a: i64, b: i64) -> (r: i64)
    ensures
        r == sat_add_i64(a as int, b as int),
{
    if b > 0 && a > i64::MAX - b {
        i64::MAX
    } else if b < 0 && a < i64::MIN - b {
        i64::MIN
    } else {
        a + b
    }
}

pub fn saturating_sub_i64(a: i64, b: i64) -> (r: i64)
    ensures
        r == sat_sub_i64(a as int, b as int),
{
    if b < 0 && a > i64::MAX + b {
        i64::MAX
    } else if b > 0 && a < i64::MIN + b {
        i64::MIN
    } else {
        a - b
    }
}

impl OwnWrites {
    /// Nothing written yet.
    pub fn new() -> (r: OwnWrites)
        ensures
            r.promise_count == -1,
            !r.skip_read,
            r.until_ms == 0,
            r.promise_id is None,
    {
        OwnWrites { promise_count: -1, skip_read: false, until_ms: 0, promise_id: None }
    }

    /// Whether the current clipboard is the app's own promise or write: the
    /// app is writing right now, or the system's change count is the one its
    /// last write produced.
    pub open spec fn promise_active(self, current: Result<i64, String>) -> bool {
        ||| self.skip_read
        ||| (self.promise_count >= 0 && current == Ok::<i64, String>(self.promise_count))
    }

    /// Whether a change tick with this count is one to ignore.
    pub open spec fn ignores(
        self,
        count: i64,
        suppress: i64,
        now: i64,
        current: Result<i64, String>,
    ) -> bool {
        ||| count == suppress
        ||| self.promise_active(current)
        ||| now < self.until_ms
    }
}

/// Remember the change count of an own promise, or forget it (and the
/// promised entry) with `None`.
pub fn note_own_promise(w: &mut OwnWrites, count: Option<i64>)
    ensures
        final(w).promise_count == match count {
            Some(c) => c,
            None => -1i64,
        },
        final(w).promise_id == match count {
            Some(_) => old(w).promise_id,
            None => None,
        },
        final(w).skip_read == old(w).skip_read,
        final(w).until_ms == old(w).until_ms,
{
    match count {
        Some(c) => {
            w.promise_count = c;
        },
        None => {
            w.promise_count = -1;
            w.promise_id = None;
        },
    }
}

/// Record an own write that left the clipboard at change count `count` at
/// time `now`: that count is ours, and so is every tick for the next
/// `OWN_WRITE_GRACE_MS`.
pub fn mark_own_write(w: &mut OwnWrites, count: i64, now: i64)
    ensures
        final(w).promise_count == count,
        final(w).until_ms == sat_add_i64(now as int, OWN_WRITE_GRACE_MS as int),
        final(w).skip_read == old(w).skip_read,
        final(w).promise_id == old(w).promise_id,
{
    note_own_promise(w, Some(count));
    w.until_ms = saturating_add_i64(now, OWN_WRITE_GRACE_MS);
}

/// Whether `now` still lies in the grace window of the last own write.
pub fn own_write_in_grace(w: &OwnWrites, now: i64) -> (r: bool)
    ensures
        r == (now < w.until_ms),
{
    now < w.until_ms
}

/// Whether the clipboard currently holds the app's own write, given the
/// system's change count (or the error reading it gave).
pub fn own_promise_active(w: &OwnWrites, current: &Result<i64, String>) -> (r: bool)
    ensures
        r == w.promise_active(*current),
{
    if w.skip_read {
        return true;
    }
    if w.promise_count < 0 {
        return false;
    }
    match current {
        Ok(c) => *c == w.promise_count,
        Err(_) => false,
    }
}

/// Whether the watcher should ignore a change to `count`: it is the count the
/// caller already suppresses, the app's own promise, or inside the grace
/// window of an own write.
pub fn should_ignore_own_change(
    w: &OwnWrites,
    count: i64,
    suppress: i64,
    now: i64,
    current: &Result<i64, String>,
) -> (r: bool)
    ensures
        r == w.ignores(count, suppress, now, *current),
{
    count == suppress || own_promise_active(w, current) || own_write_in_grace(w, now)
}

/// The app starts writing the clipboard: its reads are its own until it is done.
pub fn begin_own_write(w: &mut OwnWrites)
    ensures
        final(w).skip_read,
        final(w).promise_count == old(w).promise_count,
        final(w).until_ms == old(w).until_ms,
        final(w).promise_id == old(w).promise_id,
{
    w.skip_read = true;
}

/// The app starts promising the file of entry `id` on the clipboard.
pub fn begin_file_promise(w: &mut OwnWrites, id: &str)
    ensures
        final(w).skip_read,
        final(w).promise_id matches Some(p) && p@ == id@,
        final(w).promise_count == old(w).promise_count,
        final(w).until_ms == old(w).until_ms,
{
    w.skip_read = true;
    w.promise_id = Some(id.to_string());
}

/// The app's write is done, with the change count it produced or an error:
/// a success is marked as an own write, a failure forgets the promise.
pub fn finish_own_write(w: &mut OwnWrites, result: &Result<i64, String>, now: i64)
    ensures
        !final(w).skip_read,
        match result {
            Ok(c) => {
                &&& final(w).promise_count == *c
                &&& final(w).until_ms == sat_add_i64(now as int, OWN_WRITE_GRACE_MS as int)
                &&& final(w).promise_id == old(w).promise_id
            },
            Err(_) => {
                &&& final(w).promise_count == -1
                &&& final(w).until_ms == old(w).until_ms
                &&& final(w).promise_id is None
            },
        },
{
    match result {
        Ok(c) => mark_own_write(w, *c, now),
        Err(_) => note_own_promise(w, None),
    }
    w.skip_read = false;
}

/// After an own write at `now` that left change count `count`, the watcher
/// ignores a tick with that count, and every tick at all until the grace
/// window has passed, whatever count it carries.
pub proof fn lemma_own_write_grace(
    w: OwnWrites,
    count: i64,
    now: i64,
    later: i64,
    other: i64,
    suppress: i64,
    current: Result<i64, String>,
)
    requires
        w.promise_count == count,
        w.until_ms == sat_add_i64(now as int, OWN_WRITE_GRACE_MS as int),
        now <= later < now + OWN_WRITE_GRACE_MS,
        now + OWN_WRITE_GRACE_MS <= i64::MAX,
    ensures
        w.ignores(other, suppress, later, current),
        current == Ok::<i64, String>(count) && count >= 0 ==> w.ignores(
            other,
            suppress,
            i64::MAX,
            current,
        ),
{
}

} // verus!
