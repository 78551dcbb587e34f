//! The decisions of the real-time recorder: which lines it follows, how it
//! reacts to failed fetches, how it paces its rounds, and which positions
//! it stores.
use vstd::prelude::*;
use vstd::string::StrSliceExecFns;

verus! {

/// The text `"运通"` that names the lines of the Yuntong express network.
pub open spec fn yuntong() -> Seq<char> {
    seq!['运', '通']
}

/// `pattern` occurs in `s` at position `i`.
pub open spec fn occurs_at(s: Seq<char>, pattern: Seq<char>, i: int) -> bool {
    0 <= i && i + pattern.len() <= s.len() && s.subrange(i, i + pattern.len()) == pattern
}

/// `pattern` occurs somewhere in `s`.
pub open spec fn contains_text(s: Seq<char>, pattern: Seq<char>) -> bool {
    exists|i: int| occurs_at(s, pattern, i)
}

/// Whether `pattern` occurs in `s`, as `s.matches(pattern).count() > 0`
/// tells.
pub fn contains_str(s: &str, pattern: &str) -> (found: bool)
    ensures
        found == contains_text(s@, pattern@),
{
    let n = s.unicode_len();
    let m = pattern.unicode_len();
    if m > n {
        assert forall|i: int| !occurs_at(s@, pattern@, i) by {}
        return false;
    }
    let last = n - m;
    let mut i: usize = 0;
    loop
        invariant
            n == s@.len(),
            m == pattern@.len(),
            last == n - m,
            i <= last,
            forall|x: int| 0 <= x < i ==> !occurs_at(s@, pattern@, x),
        decreases last - i,
    {
        let window = s.substring_char(i, i + m).to_owned();
        let wanted = pattern.to_owned();
        if window == wanted {
            assert(occurs_at(s@, pattern@, i as int));
            return true;
        }
        if i == last {
            assert forall|x: int| !occurs_at(s@, pattern@, x) by {
                if 0 <= x && x < i {
                }
            }
            return false;
        }
        i = i + 1;
    }
}

/// `name` holds the character `运` directly followed by `通`.
pub open spec fn has_yuntong_at(name: Seq<char>, i: int) -> bool {
    0 <= i && i + 1 < name.len() && name[i] == '运' && name[i + 1] == '通'
}

/// Containing the text `"运通"` means holding `运` directly followed by `通`
/// somewhere: a name with only one of the two characters, or with both
/// apart, does not contain it.
pub proof fn lemma_yuntong_is_both_characters(name: Seq<char>)
    ensures
        contains_text(name, yuntong()) <==> exists|i: int| #[trigger] has_yuntong_at(name, i),
{
    if contains_text(name, yuntong()) {
        let i = choose|i: int| occurs_at(name, yuntong(), i);
        assert(name.subrange(i, i + 2)[0] == name[i]);
        assert(name.subrange(i, i + 2)[1] == name[i + 1]);
        assert(has_yuntong_at(name, i));
    }
    if exists|i: int| #[trigger] has_yuntong_at(name, i) {
        let i = choose|i: int| #[trigger] has_yuntong_at(name, i);
        assert(name.subrange(i, i + 2) =~= yuntong());
        assert(occurs_at(name, yuntong(), i));
    }
}

/// The recorder follows a line exactly when its long name contains `"运通"`.
pub fn is_followed_line(long_name: &str) -> (followed: bool)
    ensures
        followed == contains_text(long_name@, yuntong()),
        followed == exists|i: int| #[trigger] has_yuntong_at(long_name@, i),
{
    proof {
        lemma_yuntong_is_both_characters(long_name@);
    }
    let pattern: &str = "运通";
    proof {
        reveal_strlit("运通");
        assert(pattern@ =~= yuntong());
    }
    contains_str(long_name, pattern)
}

/// What the recorder does after a fetch.
#[derive(Debug, Clone, Copy, PartialEq, Eq, Structural)]
pub enum PollAction {
    /// The fetch succeeded: store what came back.
    Process,
    /// The fetch failed: pause, then fetch again.
    RetryAfterPause,
    /// The fetch failed once too often: pause, then stop following the line.
    StopAfterPause,
}

/// The pause after a failed fetch, in milliseconds.
pub const ERROR_PAUSE_MS: u32 = 4000;

/// The number of failures in a row that the recorder tolerates.
pub const MAX_RETRIES: i32 = 5;

/// The failed fetches in a row of one followed line.
#[derive(Debug)]
pub struct RetryState {
    pub retries: i32,
}

impl RetryState {
    pub fn new() -> (s: RetryState)
        ensures
            s.retries == 0,
    {
        RetryState { retries: 0 }
    }

    /// Counts a fetch: a success clears the count; a failure adds one, and
    /// more than `MAX_RETRIES` failures in a row stop the line.
    pub fn after_fetch(&mut self, succeeded: bool) -> (action: PollAction)
        requires
            old(self).retries < i32::MAX,
        ensures
            succeeded ==> final(self).retries == 0 && action == PollAction::Process,
            !succeeded ==> final(self).retries == old(self).retries + 1,
            !succeeded ==> action == (if final(self).retries > MAX_RETRIES {
                PollAction::StopAfterPause
            } else {
                PollAction::RetryAfterPause
            }),
    {
        if succeeded {
            self.retries = 0;
            PollAction::Process
        } else {
            self.retries = self.retries + 1;
            if self.retries > MAX_RETRIES {
                PollAction::StopAfterPause
            } else {
                PollAction::RetryAfterPause
            }
        }
    }
}

/// How long to pause after a round that took `elapsed_ns` nanoseconds:
/// 8000 ms when the round took less than 8 whole seconds, else none.
pub fn round_pause_ms(elapsed_ns: u64) -> (pause: u32)
    ensures
        pause == (if elapsed_ns / 1000000000 < 8 { 8000u32 } else { 0u32 }),
{
    if elapsed_ns / 1000000000 < 8 {
        8000
    } else {
        0
    }
}

/// The time of arrival at the next station, in seconds since the epoch;
/// the service writes `-1` when there is none.
pub fn next_station_seconds(next_station_time: i32) -> (t: Option<i64>)
    ensures
        t == (if next_station_time == -1 {
            None::<i64>
        } else {
            Some(next_station_time as i64)
        }),
{
    if next_station_time == -1 {
        None
    } else {
        Some(next_station_time as i64)
    }
}

/// A position is stored unless exactly one row already holds the same line,
/// bus and GPS time.
pub fn should_store(existing_rows: usize) -> (store: bool)
    ensures
        store == (existing_rows != 1),
{
    existing_rows != 1
}


/// The number of rows for one (line, bus, GPS time) after a position is
/// offered: one more where it is stored, the same otherwise.
pub open spec fn rows_after_offer(existing_rows: nat) -> nat {
    if existing_rows != 1 { existing_rows + 1 } else { existing_rows }
}

/// Storing only where `should_store` says so keeps at most one row per
/// (line, bus, GPS time): from at most one row, an offered position leaves
/// at most one.
pub proof fn lemma_storage_keeps_rows_unique(existing_rows: nat)
    requires
        existing_rows <= 1,
    ensures
        rows_after_offer(existing_rows) <= 1,
{
}

} // verus!
