//! The TokenTracker dashboard lifecycle as decisions: whether a start or stop
//! may proceed, which port to use, and how the status moves when the process
//! exits or its port answers. Spawning, probing ports and threads are the
//! caller's part.
use crate::text::{
    chars_string, decimal, decimal_vec, find, find_str, lines, push_all, push_str, split_lines, str_chars,
    tok_end_at, tok_end_from, ws_end_at, ws_end_from,
};
use vstd::prelude::*;

verus! {

/// Status of the TokenTracker process.
#[derive(Debug, Clone, Copy, PartialEq, Eq, Structural)]
pub enum TokentrackerStatus {
    Stopped,
    Starting,
    Running,
    Stopping,
    Error,
}

/// Default port of `tracker serve` (the one its sign-in callback accepts).
pub const DEFAULT_TRACKER_PORT: u16 = 7680;
/// How many ports are tried, from the default one up.
pub const MAX_PORT_ATTEMPTS: u16 = 20;

pub open spec fn busy(s: TokentrackerStatus) -> bool {
    s == TokentrackerStatus::Running || s == TokentrackerStatus::Starting || s == TokentrackerStatus::Stopping
}

/// A start is refused while the process runs or changes state.
pub fn start_allowed(status: TokentrackerStatus) -> (r: Result<(), String>)
    ensures
        r is Ok <==> !busy(status),
        r matches Err(m) ==> m@ == "TokenTracker 正在运行或切换中"@,
{
    match status {
        TokentrackerStatus::Running | TokentrackerStatus::Starting | TokentrackerStatus::Stopping => Err(
            "TokenTracker 正在运行或切换中".to_owned(),
        ),
        _ => Ok(()),
    }
}

/// First index of a free port (`in_use[i]` tells whether port `7680 + i` is taken).
pub open spec fn first_free(in_use: Seq<bool>, i: int) -> Option<int>
    decreases in_use.len() - i,
{
    if i < 0 || i >= in_use.len() || i >= 20 {
        None
    } else if !in_use[i] {
        Some(i)
    } else {
        first_free(in_use, i + 1)
    }
}

pub open spec fn ports_taken_message() -> Seq<char> {
    "7680~7699 端口均被占用，请释放后重试"@
}

/// The port to start on: the first free one of `7680..7700`, given whether
/// each was found in use (in that order; missing entries count as taken).
pub fn pick_port(in_use: &Vec<bool>) -> (r: Result<u16, String>)
    ensures
        match first_free(in_use@, 0) {
            Some(k) => r matches Ok(p) && p == 7680 + k,
            None => r matches Err(m) && m@ == ports_taken_message(),
        },
{
    let mut i: usize = 0;
    while i < in_use.len() && i < 20
        invariant
            i <= in_use.len(),
            i <= 20,
            first_free(in_use@, 0) == first_free(in_use@, i as int),
        decreases in_use.len() - i,
    {
        if !in_use[i] {
            let off: u16 = i as u16;
            return Ok(DEFAULT_TRACKER_PORT + off);
        }
        i = i + 1;
    }
    let mut m = str_chars("7680~");
    push_all(&mut m, &decimal_vec(7699));
    push_str(&mut m, " 端口均被占用，请释放后重试");
    proof {
        reveal_strlit("7680~");
        reveal_strlit(" 端口均被占用，请释放后重试");
        reveal_strlit("7680~7699 端口均被占用，请释放后重试");
        assert(decimal(7699) =~= seq!['7', '6', '9', '9']) by {
            assert(decimal(7) == seq!['7']);
            assert(decimal(76) == seq!['7', '6']);
            assert(decimal(769) == seq!['7', '6', '9']);
        }
    }
    assert(m@ =~= ports_taken_message());
    Err(chars_string(m.as_slice()))
}

/// What a start does: take over a `tracker serve` already listening on the
/// default port, or spawn one on the given port.
#[derive(Debug, Clone, Copy, PartialEq, Eq, Structural)]
pub enum StartAction {
    Adopt { pid: u32 },
    Spawn { port: u16 },
}

/// The default port is taken by a process that looks like `tracker serve`.
pub open spec fn tracker_on_default(in_use: Seq<bool>, default_owner: Option<(u32, bool)>) -> bool {
    &&& in_use.len() > 0
    &&& in_use[0]
    &&& default_owner matches Some(o) && o.1
}

/// How a start proceeds. `in_use[i]` tells whether port `7680 + i` was found
/// taken; `default_owner` is the pid listening on 7680, when one was found, and
/// whether its command line looks like `tracker serve`. A start is refused while
/// the process runs or changes state; a tracker already on 7680 is adopted, so no
/// second one is started and the dashboard stays on 7680; otherwise (7680 free, or
/// held by something else) the process is spawned on the first free port.
pub fn start_decision(status: TokentrackerStatus, in_use: &Vec<bool>, default_owner: Option<(u32, bool)>) -> (r:
    Result<StartAction, String>)
    ensures
        busy(status) ==> (r matches Err(m) && m@ == "TokenTracker 正在运行或切换中"@),
        !busy(status) && tracker_on_default(in_use@, default_owner) ==> r == Ok::<StartAction, String>(
            StartAction::Adopt { pid: default_owner.unwrap().0 },
        ),
        !busy(status) && !tracker_on_default(in_use@, default_owner) ==> match first_free(in_use@, 0) {
            Some(k) => r matches Ok(StartAction::Spawn { port }) && port == 7680 + k,
            None => r matches Err(m) && m@ == ports_taken_message(),
        },
{
    match start_allowed(status) {
        Err(m) => return Err(m),
        Ok(()) => {},
    }
    if in_use.len() > 0 && in_use[0] {
        match default_owner {
            Some((pid, true)) => return Ok(StartAction::Adopt { pid }),
            _ => {},
        }
    }
    match pick_port(in_use) {
        Ok(port) => Ok(StartAction::Spawn { port }),
        Err(m) => Err(m),
    }
}

/// The port a start leaves the dashboard on: the default one for an adopted
/// tracker, the chosen one for a spawned process.
pub fn start_port(a: StartAction) -> (p: u16)
    ensures
        p == match a {
            StartAction::Adopt { .. } => 7680u16,
            StartAction::Spawn { port } => port,
        },
{
    match a {
        StartAction::Adopt { .. } => DEFAULT_TRACKER_PORT,
        StartAction::Spawn { port } => port,
    }
}

/// The status after a start: an adopted tracker is running, a spawned one is
/// starting until its port answers.
pub fn status_after_start(a: StartAction) -> (s: TokentrackerStatus)
    ensures
        s == match a {
            StartAction::Adopt { .. } => TokentrackerStatus::Running,
            StartAction::Spawn { .. } => TokentrackerStatus::Starting,
        },
{
    match a {
        StartAction::Adopt { .. } => TokentrackerStatus::Running,
        StartAction::Spawn { .. } => TokentrackerStatus::Starting,
    }
}

/// The dashboard address: loopback on the port, empty when there is no port.
pub fn dashboard_url(port: u16) -> (s: String)
    ensures
        port == 0 ==> s@.len() == 0,
        port != 0 ==> s@ == "http://127.0.0.1:"@ + decimal(port as nat),
{
    if port == 0 {
        String::new()
    } else {
        let mut v = str_chars("http://127.0.0.1:");
        push_all(&mut v, &decimal_vec(port as usize));
        chars_string(v.as_slice())
    }
}

/// A stop acts only on a running or starting process (otherwise it is a no-op).
pub fn stop_needed(status: TokentrackerStatus) -> (b: bool)
    ensures
        b == (status == TokentrackerStatus::Running || status == TokentrackerStatus::Starting),
{
    match status {
        TokentrackerStatus::Running | TokentrackerStatus::Starting => true,
        _ => false,
    }
}

/// The status after the process exited on its own: a running or starting process
/// is in error; a stop in progress (or any other status) is left as it is.
pub fn after_exit(status: TokentrackerStatus) -> (s: TokentrackerStatus)
    ensures
        s == (if status == TokentrackerStatus::Running || status == TokentrackerStatus::Starting {
            TokentrackerStatus::Error
        } else {
            status
        }),
{
    match status {
        TokentrackerStatus::Running | TokentrackerStatus::Starting => TokentrackerStatus::Error,
        other => other,
    }
}

/// The status after the start-up probe: a starting process becomes running when
/// its port answered, in error when it did not in time; other statuses stay.
pub fn after_probe(status: TokentrackerStatus, ready: bool) -> (s: TokentrackerStatus)
    ensures
        s == (if status == TokentrackerStatus::Starting {
            if ready {
                TokentrackerStatus::Running
            } else {
                TokentrackerStatus::Error
            }
        } else {
            status
        }),
{
    match status {
        TokentrackerStatus::Starting => if ready {
            TokentrackerStatus::Running
        } else {
            TokentrackerStatus::Error
        },
        other => other,
    }
}

// ------------------------------------------------------------------ reading process listings

pub open spec fn is_digit_char(c: char) -> bool {
    '0' <= c && c <= '9'
}

/// The value of a run of decimal digits.
pub open spec fn digits_value(s: Seq<char>) -> int
    decreases s.len(),
{
    if s.len() == 0 {
        0
    } else {
        digits_value(s.drop_last()) * 10 + ((s.last() as u32) - 48)
    }
}

pub open spec fn all_digits(s: Seq<char>) -> bool {
    forall|i: int| 0 <= i < s.len() ==> is_digit_char(#[trigger] s[i])
}

/// `u32::from_str`: an optional `+`, then one or more ASCII digits whose value fits.
pub open spec fn spec_parse_u32(t: Seq<char>) -> Option<u32> {
    let body = if t.len() > 0 && t[0] == '+' {
        t.drop_first()
    } else {
        t
    };
    if body.len() > 0 && all_digits(body) && digits_value(body) <= u32::MAX {
        Some(digits_value(body) as u32)
    } else {
        None
    }
}

proof fn lemma_digits_grow(s: Seq<char>, k: int)
    requires
        all_digits(s),
        0 <= k <= s.len(),
    ensures
        0 <= digits_value(s.subrange(0, k)) <= digits_value(s),
    decreases s.len() - k,
{
    if k < s.len() {
        lemma_digits_grow(s, k + 1);
        let p = s.subrange(0, k + 1);
        assert(p.drop_last() =~= s.subrange(0, k));
        assert(is_digit_char(s[k]));
        assert(p.last() == s[k]);
    } else {
        assert(s.subrange(0, k) =~= s);
        lemma_digits_nonneg(s);
    }
}

proof fn lemma_digits_nonneg(s: Seq<char>)
    requires
        all_digits(s),
    ensures
        digits_value(s) >= 0,
    decreases s.len(),
{
    if s.len() > 0 {
        assert(all_digits(s.drop_last())) by {
            assert forall|i: int| 0 <= i < s.drop_last().len() implies is_digit_char(#[trigger] s.drop_last()[i]) by {
                assert(s.drop_last()[i] == s[i]);
            }
        }
        lemma_digits_nonneg(s.drop_last());
        assert(is_digit_char(s[s.len() - 1]));
    }
}

/// Parses a process id as `str::parse::<u32>` does.
pub fn parse_u32(t: &Vec<char>) -> (r: Option<u32>)
    ensures
        r == spec_parse_u32(t@),
{
    let start: usize = if t.len() > 0 && t[0] == '+' {
        1
    } else {
        0
    };
    let ghost body = if t@.len() > 0 && t@[0] == '+' {
        t@.drop_first()
    } else {
        t@
    };
    assert(body =~= t@.subrange(start as int, t@.len() as int));
    if start >= t.len() {
        return None;
    }
    let mut acc: u64 = 0;
    let mut i: usize = start;
    while i < t.len()
        invariant
            start <= i <= t.len(),
            body == (if t@.len() > 0 && t@[0] == '+' {
                t@.drop_first()
            } else {
                t@
            }),
            body =~= t@.subrange(start as int, t@.len() as int),
            all_digits(body.subrange(0, i - start)),
            acc == digits_value(body.subrange(0, i - start)),
            acc <= u32::MAX,
        decreases t.len() - i,
    {
        let c = t[i];
        if !('0' <= c && c <= '9') {
            assert(!is_digit_char(body[i - start]));
            return None;
        }
        let d: u64 = (c as u32 - 48) as u64;
        let ghost prev = body.subrange(0, i - start);
        let ghost next = body.subrange(0, i + 1 - start);
        assert(next.drop_last() =~= prev);
        assert(next.last() == c);
        assert(all_digits(next)) by {
            assert forall|j: int| 0 <= j < next.len() implies is_digit_char(#[trigger] next[j]) by {
                if j < prev.len() {
                    assert(next[j] == prev[j]);
                }
            }
        }
        acc = acc * 10 + d;
        assert(acc == digits_value(next));
        if acc > 0xFFFF_FFFF {
            proof {
                if all_digits(body) {
                    lemma_digits_grow(body, i + 1 - start);
                }
            }
            return None;
        }
        i = i + 1;
    }
    assert(body.subrange(0, i - start) =~= body);
    Some(acc as u32)
}

/// The second whitespace-separated token of a line (`split_whitespace().nth(1)`).
pub open spec fn second_token(line: Seq<char>) -> Option<Seq<char>> {
    let a = ws_end_from(line, 0);
    let a2 = tok_end_from(line, a);
    let b = ws_end_from(line, a2);
    if a < line.len() && b < line.len() {
        Some(line.subrange(b, tok_end_from(line, b)))
    } else {
        None
    }
}

/// A line of a process listing names `pid` in its second column.
pub open spec fn line_names_pid(line: Seq<char>, pid: u32) -> bool {
    match second_token(line) {
        Some(t) => spec_parse_u32(t) == Some(pid),
        None => false,
    }
}

/// Some line of the listing names `pid` in its second column (`tasklist /NH` output).
pub open spec fn listing_names_pid(text: Seq<char>, pid: u32) -> bool {
    exists|k: int| 0 <= k < lines(text).len() && line_names_pid(#[trigger] lines(text)[k], pid)
}

fn names_pid(line: &Vec<char>, pid: u32) -> (b: bool)
    ensures
        b == line_names_pid(line@, pid),
{
    let a = ws_end_at(line, 0);
    let a2 = tok_end_at(line, a);
    let b = ws_end_at(line, a2);
    if a < line.len() && b < line.len() {
        let c = tok_end_at(line, b);
        let mut tok: Vec<char> = Vec::new();
        let mut j: usize = b;
        while j < c
            invariant
                b <= j <= c <= line.len(),
                tok@ =~= line@.subrange(b as int, j as int),
            decreases c - j,
        {
            tok.push(line[j]);
            j = j + 1;
        }
        match parse_u32(&tok) {
            Some(p) => p == pid,
            None => false,
        }
    } else {
        false
    }
}

/// Whether a process listing (`tasklist /FI "PID eq <pid>" /NH`) shows `pid`:
/// some line has it as its second column.
pub fn listing_shows_pid(text: &str, pid: u32) -> (b: bool)
    ensures
        b == listing_names_pid(text@, pid),
{
    let v = str_chars(text);
    let ls = split_lines(&v);
    let mut i: usize = 0;
    while i < ls.len()
        invariant
            i <= ls.len(),
            crate::text::lines_view(ls@) == lines(text@),
            v@ == text@,
            forall|k: int| 0 <= k < i ==> !line_names_pid(#[trigger] lines(text@)[k], pid),
        decreases ls.len() - i,
    {
        assert(crate::text::lines_view(ls@)[i as int] == ls@[i as int]@);
        if names_pid(&ls[i], pid) {
            assert(line_names_pid(lines(text@)[i as int], pid));
            return true;
        }
        i = i + 1;
    }
    false
}

/// A process id printed alone (surrounding whitespace ignored), as `str::trim().parse::<u32>()` reads it.
pub fn parse_pid(text: &str) -> (r: Option<u32>)
    ensures
        r == spec_parse_u32(crate::text::trim(text@)),
{
    let v = str_chars(text);
    let t = crate::text::trim_vec(&v);
    parse_u32(&t)
}

/// A process command line (already lower-cased) that runs `tracker serve`.
pub fn looks_like_tracker(command_line: &str) -> (b: bool)
    ensures
        b == (find(command_line@, "tracker.js"@) is Some || find(command_line@, "tokentracker"@) is Some),
{
    let v = str_chars(command_line);
    find_str(&v, "tracker.js").is_some() || find_str(&v, "tokentracker").is_some()
}

} // verus!
