use vstd::prelude::*;

use crate::time::{Duration, Instant, NANOS_PER_SEC};

verus! {

/// The characters that `char::is_whitespace` accepts: Unicode White_Space.
pub open spec fn is_whitespace(c: char) -> bool {
    let u = c as u32;
    ||| 0x09 <= u <= 0x0D
    ||| u == 0x20
    ||| u == 0x85
    ||| u == 0xA0
    ||| u == 0x1680
    ||| 0x2000 <= u <= 0x200A
    ||| u == 0x2028
    ||| u == 0x2029
    ||| u == 0x202F
    ||| u == 0x205F
    ||| u == 0x3000
}

pub open spec fn trim_start(s: Seq<char>) -> Seq<char>
    decreases s.len(),
{
    if s.len() > 0 && is_whitespace(s[0]) {
        trim_start(s.drop_first())
    } else {
        s
    }
}

pub open spec fn trim_end(s: Seq<char>) -> Seq<char>
    decreases s.len(),
{
    if s.len() > 0 && is_whitespace(s.last()) {
        trim_end(s.drop_last())
    } else {
        s
    }
}

/// `s` without leading and trailing whitespace.
pub open spec fn trimmed(s: Seq<char>) -> Seq<char> {
    trim_end(trim_start(s))
}

pub open spec fn is_digit(c: char) -> bool {
    0x30 <= c as u32 <= 0x39
}

/// The number that a string of decimal digits spells.
pub open spec fn digits_value(s: Seq<char>) -> nat
    decreases s.len(),
{
    if s.len() == 0 {
        0
    } else {
        digits_value(s.drop_last()) * 10 + (s.last() as u32 - 0x30) as nat
    }
}

pub open spec fn all_digits(s: Seq<char>) -> bool {
    forall|i: int| 0 <= i < s.len() ==> is_digit(#[trigger] s[i])
}

/// What parsing `s` as a `u64` gives: an optional `+`, then one or more
/// decimal digits whose value fits in 64 bits.
pub open spec fn u64_text(s: Seq<char>) -> Option<nat> {
    let body = if s.len() > 0 && s[0] == '+' {
        s.drop_first()
    } else {
        s
    };
    if body.len() > 0 && all_digits(body) && digits_value(body) <= u64::MAX {
        Some(digits_value(body))
    } else {
        None
    }
}

/// `p` is the position of the first `:` in `t`.
pub open spec fn first_colon(t: Seq<char>, p: int) -> bool {
    &&& 0 <= p < t.len()
    &&& t[p] == ':'
    &&& forall|q: int| 0 <= q < p ==> #[trigger] t[q] != ':'
}

/// The number of seconds that a duration text gives: after trimming,
/// `mm:ss` (split at the first `:`, each side a `u64`) or a bare number of
/// minutes.
pub open spec fn duration_text_secs(s: Seq<char>) -> Option<nat> {
    let t = trimmed(s);
    if exists|p: int| first_colon(t, p) {
        let p = choose|p: int| first_colon(t, p);
        match (u64_text(t.subrange(0, p)), u64_text(t.subrange(p + 1, t.len() as int))) {
            (Some(m), Some(sec)) => Some(m * 60 + sec),
            _ => None,
        }
    } else {
        match u64_text(t) {
            Some(m) => Some(m * 60),
            None => None,
        }
    }
}

proof fn lemma_u64_text_needs_digits(text: Seq<char>, body: Seq<char>, k: int)
    requires
        body == (if text.len() > 0 && text[0] == '+' {
            text.drop_first()
        } else {
            text
        }),
        0 <= k < body.len(),
        !is_digit(body[k]),
    ensures
        u64_text(text).is_none(),
{
}

proof fn lemma_u64_text_too_large(text: Seq<char>, body: Seq<char>)
    requires
        body == (if text.len() > 0 && text[0] == '+' {
            text.drop_first()
        } else {
            text
        }),
        all_digits(body) ==> digits_value(body) > u64::MAX,
    ensures
        u64_text(text).is_none(),
{
}

proof fn lemma_digits_value_monotone(s: Seq<char>, k: int)
    requires
        0 <= k <= s.len(),
        forall|i: int| 0 <= i < s.len() ==> is_digit(#[trigger] s[i]),
    ensures
        digits_value(s.take(k)) <= digits_value(s),
    decreases s.len(),
{
    if k < s.len() {
        let prefix = s.drop_last();
        assert forall|i: int| 0 <= i < prefix.len() implies is_digit(#[trigger] prefix[i]) by {
            assert(prefix[i] == s[i]);
        }
        lemma_digits_value_monotone(prefix, k);
        assert(prefix.take(k) =~= s.take(k));
    } else {
        assert(s.take(k) =~= s);
    }
}

fn is_whitespace_char(c: char) -> (r: bool)
    ensures
        r == is_whitespace(c),
{
    let u = c as u32;
    (0x09 <= u && u <= 0x0D) || u == 0x20 || u == 0x85 || u == 0xA0 || u == 0x1680 || (0x2000
        <= u && u <= 0x200A) || u == 0x2028 || u == 0x2029 || u == 0x202F || u == 0x205F || u
        == 0x3000
}

/// The bounds of `s` once leading and trailing whitespace is cut off.
fn trim_range(s: &str) -> (r: (usize, usize))
    ensures
        r.0 <= r.1 <= s@.len(),
        s@.subrange(r.0 as int, r.1 as int) == trimmed(s@),
{
    let n = s.unicode_len();
    let mut lo: usize = 0;
    assert(s@.subrange(0, n as int) =~= s@);
    while lo < n && is_whitespace_char(s.get_char(lo))
        invariant
            n == s@.len(),
            lo <= n,
            trim_start(s@) == trim_start(s@.subrange(lo as int, n as int)),
        decreases n - lo,
    {
        assert(s@.subrange(lo as int, n as int).drop_first() =~= s@.subrange(lo + 1, n as int));
        lo = lo + 1;
    }
    let ghost front = s@.subrange(lo as int, n as int);
    assert(trim_start(s@) == front);
    let mut hi: usize = n;
    while hi > lo && is_whitespace_char(s.get_char(hi - 1))
        invariant
            n == s@.len(),
            lo <= hi <= n,
            front == s@.subrange(lo as int, n as int),
            trim_end(front) == trim_end(s@.subrange(lo as int, hi as int)),
        decreases hi - lo,
    {
        assert(s@.subrange(lo as int, hi as int).drop_last() =~= s@.subrange(
            lo as int,
            hi - 1,
        ));
        hi = hi - 1;
    }
    (lo, hi)
}

/// Parses the characters of `s` from `lo` up to `hi` as a `u64`.
fn parse_u64_in(s: &str, lo: usize, hi: usize) -> (r: Option<u64>)
    requires
        lo <= hi <= s@.len(),
    ensures
        match u64_text(s@.subrange(lo as int, hi as int)) {
            Some(v) => r == Some(v as u64),
            None => r.is_none(),
        },
{
    let ghost text = s@.subrange(lo as int, hi as int);
    let mut start: usize = lo;
    if lo < hi && s.get_char(lo) == '+' {
        start = lo + 1;
    }
    let ghost body = s@.subrange(start as int, hi as int);
    assert(body == if text.len() > 0 && text[0] == '+' {
        text.drop_first()
    } else {
        text
    });
    if start == hi {
        return None;
    }
    let mut acc: u64 = 0;
    let mut j: usize = start;
    assert(body.take(0) =~= Seq::<char>::empty());
    while j < hi
        invariant
            lo <= start <= j <= hi <= s@.len(),
            body == s@.subrange(start as int, hi as int),
            text == s@.subrange(lo as int, hi as int),
            body == (if text.len() > 0 && text[0] == '+' {
                text.drop_first()
            } else {
                text
            }),
            forall|k: int| 0 <= k < j - start ==> is_digit(#[trigger] body[k]),
            acc == digits_value(body.take(j - start)),
        decreases hi - j,
    {
        let c = s.get_char(j);
        assert(body[j - start] == c);
        if !(0x30 <= c as u32 && c as u32 <= 0x39) {
            proof {
                assert(!is_digit(body[j - start]));
                lemma_u64_text_needs_digits(text, body, (j - start) as int);
            }
            return None;
        }
        let d = (c as u32 - 0x30) as u64;
        let ghost next = body.take(j - start + 1);
        assert(next.drop_last() =~= body.take(j - start));
        assert(next.last() == c);
        assert(digits_value(next) == acc * 10 + d);
        if acc > (u64::MAX - d) / 10 {
            proof {
                assert(acc * 10 + d > u64::MAX) by (nonlinear_arith)
                    requires
                        acc > (u64::MAX - d) / 10,
                        d <= 9,
                ;
                if all_digits(body) {
                    lemma_digits_value_monotone(body, j - start + 1);
                    assert(digits_value(body) > u64::MAX);
                }
                lemma_u64_text_too_large(text, body);
            }
            return None;
        }
        assert(acc * 10 + d <= u64::MAX) by (nonlinear_arith)
            requires
                acc <= (u64::MAX - d) / 10,
                d <= 9,
        ;
        acc = acc * 10 + d;
        j = j + 1;
    }
    assert(body.take(j - start) =~= body);
    Some(acc)
}

/// The panel state of a countdown that the user sets by hand, pauses and
/// marks as done.
#[derive(Debug)]
pub struct PomodoroTimer {
    /// When the countdown was last resumed; none while paused.
    pub start_at: Option<Instant>,
    /// What is left to count down as of `start_at`.
    pub duration: Duration,
    /// The duration as the user typed it.
    pub duration_str: String,
    pub show_pomodoro: bool,
    pub label: String,
    pub completed_count: u32,
    pub history: Vec<bool>,
    pub is_running: bool,
}

impl PomodoroTimer {
    /// What `remaining_time(now)` reports.
    pub open spec fn remaining_at(&self, now: Instant) -> nat {
        match self.start_at {
            Some(start) => {
                let passed: int = if now.nanos >= start.nanos {
                    now.nanos - start.nanos
                } else {
                    0
                };
                if passed >= self.duration.nanos {
                    0
                } else {
                    (self.duration.nanos - passed) as nat
                }
            },
            None => self.duration.nanos as nat,
        }
    }

    /// The duration that the typed text stands for, where it parses and fits.
    pub open spec fn typed_duration(text: Seq<char>) -> Option<Duration> {
        match duration_text_secs(text) {
            Some(secs) => if secs * NANOS_PER_SEC <= u64::MAX {
                Some(Duration { nanos: (secs * NANOS_PER_SEC) as u64 })
            } else {
                None
            },
            None => None,
        }
    }

    /// The duration once the typed text is applied: the parsed value, or the
    /// current one where the text does not parse.
    pub open spec fn applied_duration(&self) -> Duration {
        match Self::typed_duration(self.duration_str@) {
            Some(d) => d,
            None => self.duration,
        }
    }

    /// Takes the typed text as the new duration where it parses.
    pub fn apply_duration_str(&mut self)
        ensures
            final(self).duration == old(self).applied_duration(),
            final(self).start_at == old(self).start_at,
            final(self).duration_str == old(self).duration_str,
            final(self).show_pomodoro == old(self).show_pomodoro,
            final(self).label == old(self).label,
            final(self).completed_count == old(self).completed_count,
            final(self).history@ == old(self).history@,
            final(self).is_running == old(self).is_running,
    {
        match Self::parse_duration(self.duration_str.as_str()) {
            Some(d) => {
                self.duration = d;
            },
            None => {},
        }
    }

    /// The start / pause button at the clock reading `now`: a running
    /// countdown pauses and keeps what is left as its duration; a paused one
    /// resumes from `now`.
    pub fn toggle(&mut self, now: Instant)
        ensures
            old(self).is_running ==> {
                &&& final(self).duration.nanos == old(self).remaining_at(now)
                &&& final(self).start_at.is_none()
                &&& !final(self).is_running
            },
            !old(self).is_running ==> {
                &&& final(self).duration == old(self).duration
                &&& final(self).start_at == Some(now)
                &&& final(self).is_running
            },
            final(self).duration_str == old(self).duration_str,
            final(self).show_pomodoro == old(self).show_pomodoro,
            final(self).label == old(self).label,
            final(self).completed_count == old(self).completed_count,
            final(self).history@ == old(self).history@,
    {
        if self.is_running {
            self.duration = self.remaining_time(now);
            self.start_at = None;
            self.is_running = false;
        } else {
            self.start_at = Some(now);
            self.is_running = true;
        }
    }

    /// The reset button: stops the countdown and goes back to the typed
    /// duration where it parses.
    pub fn reset(&mut self)
        ensures
            final(self).duration == old(self).applied_duration(),
            final(self).start_at.is_none(),
            !final(self).is_running,
            final(self).duration_str == old(self).duration_str,
            final(self).show_pomodoro == old(self).show_pomodoro,
            final(self).label == old(self).label,
            final(self).completed_count == old(self).completed_count,
            final(self).history@ == old(self).history@,
    {
        self.start_at = None;
        self.is_running = false;
        self.apply_duration_str();
    }

    /// The done button: counts one more completed pomodoro, records it, and
    /// then resets.
    pub fn complete(&mut self)
        requires
            old(self).completed_count < u32::MAX,
        ensures
            final(self).completed_count == old(self).completed_count + 1,
            final(self).history@ == old(self).history@.push(true),
            final(self).duration == old(self).applied_duration(),
            final(self).start_at.is_none(),
            !final(self).is_running,
            final(self).duration_str == old(self).duration_str,
            final(self).show_pomodoro == old(self).show_pomodoro,
            final(self).label == old(self).label,
    {
        self.completed_count = self.completed_count + 1;
        self.history.push(true);
        self.reset();
    }

    pub fn hide_widget(&mut self)
        ensures
            final(self).show_pomodoro == false,
            final(self).start_at == old(self).start_at,
            final(self).duration == old(self).duration,
            final(self).duration_str == old(self).duration_str,
            final(self).label == old(self).label,
            final(self).completed_count == old(self).completed_count,
            final(self).history@ == old(self).history@,
            final(self).is_running == old(self).is_running,
    {
        self.show_pomodoro = false;
    }

    pub fn show_widget(&mut self)
        ensures
            final(self).show_pomodoro == true,
            final(self).start_at == old(self).start_at,
            final(self).duration == old(self).duration,
            final(self).duration_str == old(self).duration_str,
            final(self).label == old(self).label,
            final(self).completed_count == old(self).completed_count,
            final(self).history@ == old(self).history@,
            final(self).is_running == old(self).is_running,
    {
        self.show_pomodoro = true;
    }

    /// Time left at the clock reading `now`: the whole duration while
    /// paused, never below zero while running.
    pub fn remaining_time(&self, now: Instant) -> (r: Duration)
        ensures
            r.nanos == self.remaining_at(now),
            r.nanos <= self.duration.nanos,
    {
        match self.start_at {
            Some(start) => {
                let elapsed = now.saturating_duration_since(start);
                if elapsed.nanos >= self.duration.nanos {
                    Duration::zero()
                } else {
                    Duration::from_nanos(self.duration.nanos - elapsed.nanos)
                }
            },
            None => self.duration,
        }
    }

    /// Parses a duration typed as `mm:ss` or as a bare number of minutes,
    /// ignoring surrounding whitespace; none where the text is neither, or
    /// names more time than a `Duration` holds.
    pub fn parse_duration(s: &str) -> (r: Option<Duration>)
        ensures
            r == Self::typed_duration(s@),
    {
        let (lo, hi) = trim_range(s);
        let ghost t = s@.subrange(lo as int, hi as int);
        let mut k: usize = lo;
        let mut found: bool = false;
        while !found && k < hi
            invariant
                lo <= k <= hi <= s@.len(),
                t == s@.subrange(lo as int, hi as int),
                found ==> k < hi && t[k - lo] == ':',
                forall|q: int| 0 <= q < k - lo ==> #[trigger] t[q] != ':',
            decreases hi - k + (if found { 0int } else { 1int }),
        {
            if s.get_char(k) == ':' {
                found = true;
            } else {
                k = k + 1;
            }
        }
        let max_secs: u64 = u64::MAX / NANOS_PER_SEC;
        let secs: Option<u64> = if found {
            let p = k - lo;
            proof {
                assert(first_colon(t, p as int));
                assert forall|q: int| first_colon(t, q) implies q == p by {
                    if q < p {
                        assert(t[q] != ':');
                    } else if q > p {
                        assert(t[p as int] != ':');
                    }
                }
                assert(t.subrange(0, p as int) =~= s@.subrange(lo as int, k as int));
                assert(t.subrange(p + 1, t.len() as int) =~= s@.subrange(k + 1, hi as int));
            }
            match (parse_u64_in(s, lo, k), parse_u64_in(s, k + 1, hi)) {
                (Some(m), Some(sec)) => if sec <= max_secs && m <= max_secs / 60 && m * 60 <= max_secs - sec {
                    Some(m * 60 + sec)
                } else {
                    None
                },
                _ => None,
            }
        } else {
            proof {
                assert forall|p: int| !first_colon(t, p) by {
                    if 0 <= p < t.len() {
                        assert(t[p] != ':');
                    }
                }
            }
            match parse_u64_in(s, lo, hi) {
                Some(m) => if m <= max_secs / 60 {
                    Some(m * 60)
                } else {
                    None
                },
                None => None,
            }
        };
        match secs {
            Some(n) => Some(Duration::from_secs(n)),
            None => None,
        }
    }
}

/// A panel that shows how long the focused application has held focus, and
/// the applications with the most time.
#[derive(Debug)]
pub struct ApplicationTimer {
    pub app: String,
    pub duration: Duration,
}

/// The panels a user can place.
#[derive(Debug)]
pub enum WidgetEnum {
    Pomodoro(PomodoroTimer),
    ApplicationTimer(ApplicationTimer),
}

} // verus!
