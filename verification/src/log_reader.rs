//! Incremental polling of a growing log file for hosting transitions.
//!
//! The watched file is plain text, line oriented and append only. Two kinds
//! of line matter, both opening with a bracketed clock stamp: one announces
//! that a session started serving on some port (the port's decimal digits
//! trail the fixed phrase, at byte offset 43 of the line), the other that
//! the session stopped. A poll cycle scans the lines appended since the
//! previous cycle and keeps only the latest transition — last match wins,
//! one canonical event per poll. A file that shrank since the last look is
//! taken as a fresh session: an immediate stop notice, and the cursor starts
//! over from offset zero.
//!
//! The surrounding process owns the timer and the file handle: it measures
//! the file, reads the appended lines, and hands both to `record`, which
//! holds the cursor and decides what the cycle means. A port that cannot be
//! parsed is reported as an error; the log format is a trusted contract, so
//! the caller treats that as fatal.

use crate::messages::ClientMessage;
use vstd::prelude::*;
use vstd::string::StringSliceAdditionalSpecFns;

verus! {

/// A hosting transition read from the log.
#[derive(Clone, Copy, PartialEq, Eq, Structural, Debug)]
pub enum ClientChange {
    StartedHosting(u16),
    StoppedHosting,
}

/// The one malformed input the poller can meet: a line announcing a started
/// session whose trailing port is not a valid decimal port number.
#[derive(Clone, Copy, PartialEq, Eq, Structural, Debug)]
pub enum LogParseError {
    BadPort,
}

impl ClientChange {
    /// The wire message that reports this transition to the relay.
    pub fn into_message(self) -> (r: ClientMessage)
        ensures
            r == match self {
                ClientChange::StartedHosting(port) => ClientMessage::StartedHosting(port),
                ClientChange::StoppedHosting => ClientMessage::StoppedHosting,
            },
    {
        match self {
            ClientChange::StartedHosting(port) => ClientMessage::StartedHosting(port),
            ClientChange::StoppedHosting => ClientMessage::StoppedHosting,
        }
    }
}

pub const NEWLINE: u8 = 10;

pub const PLUS: u8 = 43;

pub const ZERO: u8 = 48;

pub const NINE: u8 = 57;

// ---------------------------------------------------------------------------
// Port digits
// ---------------------------------------------------------------------------
pub open spec fn is_ascii_digit(b: u8) -> bool {
    ZERO <= b <= NINE
}

pub open spec fn all_digits(s: Seq<u8>) -> bool {
    forall|i: int| 0 <= i < s.len() ==> is_ascii_digit(#[trigger] s[i])
}

/// The number a digit string denotes, most significant digit first.
pub open spec fn digits_value(s: Seq<u8>) -> int
    decreases s.len(),
{
    if s.len() == 0 {
        0
    } else {
        digits_value(s.drop_last()) * 10 + (s.last() - ZERO)
    }
}

/// The digits of a port text: one optional leading plus sign is allowed,
/// as the standard library's integer parser allows it.
pub open spec fn spec_digit_part(s: Seq<u8>) -> Seq<u8> {
    if s.len() > 0 && s[0] == PLUS {
        s.skip(1)
    } else {
        s
    }
}

/// What parsing a port text yields: the denoted number if the text is one
/// optional plus sign, then one or more digits denoting at most 65535.
pub open spec fn spec_parse_port(s: Seq<u8>) -> Option<u16> {
    let t = spec_digit_part(s);
    if t.len() > 0 && all_digits(t) && digits_value(t) <= 65535 {
        Some(digits_value(t) as u16)
    } else {
        None
    }
}

proof fn lemma_digits_value_nonneg(s: Seq<u8>)
    requires
        all_digits(s),
    ensures
        digits_value(s) >= 0,
    decreases s.len(),
{
    if s.len() > 0 {
        assert(forall|i: int| 0 <= i < s.drop_last().len() ==> s.drop_last()[i] == s[i]);
        lemma_digits_value_nonneg(s.drop_last());
    }
}

/// Reading more digits never shrinks the denoted number.
proof fn lemma_digits_value_mono(s: Seq<u8>, k: int)
    requires
        all_digits(s),
        0 <= k <= s.len(),
    ensures
        digits_value(s.take(k)) <= digits_value(s),
    decreases s.len() - k,
{
    if k == s.len() {
        assert(s.take(k) =~= s);
    } else {
        assert(s.take(k + 1).drop_last() =~= s.take(k));
        assert(all_digits(s.take(k)));
        lemma_digits_value_nonneg(s.take(k));
        assert(digits_value(s.take(k + 1)) == digits_value(s.take(k)) * 10 + (s[k] - ZERO));
        lemma_digits_value_mono(s, k + 1);
    }
}

/// Parses the port text starting at byte `from`, as the standard decimal
/// parser for ports would.
pub fn parse_port(line: &Vec<u8>, from: usize) -> (r: Option<u16>)
    requires
        from <= line@.len(),
    ensures
        r == spec_parse_port(line@.skip(from as int)),
{
    let ghost full = line@.skip(from as int);
    let mut i: usize = from;
    if i < line.len() && line[i] == PLUS {
        i = i + 1;
    }
    let ghost t = spec_digit_part(full);
    proof {
        assert(line@.skip(i as int) =~= t);
    }
    if i == line.len() {
        return None;
    }
    let mut acc: u32 = 0;
    let mut j: usize = i;
    while j < line.len()
        invariant
            from <= i <= j <= line@.len(),
            i < line@.len(),
            t == line@.skip(i as int),
            full == line@.skip(from as int),
            t == spec_digit_part(full),
            all_digits(t.take(j - i)),
            acc == digits_value(t.take(j - i)),
            acc <= 65535,
        decreases line@.len() - j,
    {
        let b = line[j];
        if b < ZERO || b > NINE {
            proof {
                assert(t[j - i] == b);
            }
            return None;
        }
        let d = (b - ZERO) as u32;
        let acc2 = acc * 10 + d;
        proof {
            assert(t.take(j - i + 1).drop_last() =~= t.take(j - i));
            assert(t.take(j - i + 1).last() == b);
            assert(digits_value(t.take(j - i + 1)) == acc * 10 + (b - ZERO));
        }
        if acc2 > 65535 {
            proof {
                if all_digits(t) {
                    lemma_digits_value_mono(t, j - i + 1);
                }
            }
            return None;
        }
        acc = acc2;
        j = j + 1;
    }
    proof {
        assert(t.take(j - i) =~= t);
        assert(t.len() > 0);
    }
    Some(acc as u16)
}

// ---------------------------------------------------------------------------
// The two line patterns
// ---------------------------------------------------------------------------
/// The characters of an ASCII phrase as bytes.
pub open spec fn ascii_bytes(s: Seq<char>) -> Seq<u8> {
    Seq::new(s.len(), |i: int| s[i] as u8)
}

/// The fixed phrase that, after a clock stamp, announces a started session;
/// the port's digits follow it.
pub open spec fn spec_start_tail() -> Seq<u8> {
    ascii_bytes("[main/INFO]: Started serving on "@)
}

/// The fixed phrase that, after a clock stamp, announces a stopped session.
pub open spec fn spec_stop_tail() -> Seq<u8> {
    ascii_bytes("[Server thread/INFO]: Stopping singleplayer server as player logged out"@)
}

/// A bracketed clock stamp `[??:??:??] ` at byte `i`: fixed brackets and
/// colons, any non-newline byte in the six clock positions.
pub open spec fn spec_stamp_at(s: Seq<u8>, i: int) -> bool {
    &&& s[i] == 91  // '['
    &&& s[i + 1] != NEWLINE
    &&& s[i + 2] != NEWLINE
    &&& s[i + 3] == 58  // ':'
    &&& s[i + 4] != NEWLINE
    &&& s[i + 5] != NEWLINE
    &&& s[i + 6] == 58
    &&& s[i + 7] != NEWLINE
    &&& s[i + 8] != NEWLINE
    &&& s[i + 9] == 93  // ']'
    &&& s[i + 10] == 32  // ' '
}

/// A clock stamp followed by the given phrase, starting at byte `i`.
pub open spec fn spec_pattern_at(s: Seq<u8>, i: int, tail: Seq<u8>) -> bool {
    &&& 0 <= i
    &&& i + 11 + tail.len() <= s.len()
    &&& spec_stamp_at(s, i)
    &&& s.subrange(i + 11, i + 11 + tail.len()) == tail
}

/// The pattern occurs somewhere in the line.
pub open spec fn spec_pattern_match(s: Seq<u8>, tail: Seq<u8>) -> bool {
    exists|i: int| spec_pattern_at(s, i, tail)
}

fn start_tail() -> (r: &'static [u8])
    ensures
        r@ == spec_start_tail(),
        r@.len() == 32,
{
    let s = "[main/INFO]: Started serving on ";
    proof {
        reveal_strlit("[main/INFO]: Started serving on ");
        assert(vstd::string::is_ascii(s));
        vstd::string::is_ascii_spec_bytes(s);
        assert(s.spec_bytes() =~= spec_start_tail());
    }
    s.as_bytes()
}

fn stop_tail() -> (r: &'static [u8])
    ensures
        r@ == spec_stop_tail(),
{
    let s = "[Server thread/INFO]: Stopping singleplayer server as player logged out";
    proof {
        reveal_strlit(
            "[Server thread/INFO]: Stopping singleplayer server as player logged out",
        );
        assert(vstd::string::is_ascii(s));
        vstd::string::is_ascii_spec_bytes(s);
        assert(s.spec_bytes() =~= spec_stop_tail());
    }
    s.as_bytes()
}

fn pattern_at(line: &Vec<u8>, i: usize, tail: &[u8]) -> (r: bool)
    requires
        i + 11 + tail@.len() <= line@.len(),
        line@.len() <= usize::MAX,
    ensures
        r == spec_pattern_at(line@, i as int, tail@),
{
    let n = tail.len();
    if line[i] != 91 {
        return false;
    }
    if line[i + 1] == NEWLINE || line[i + 2] == NEWLINE {
        return false;
    }
    if line[i + 3] != 58 {
        return false;
    }
    if line[i + 4] == NEWLINE || line[i + 5] == NEWLINE {
        return false;
    }
    if line[i + 6] != 58 {
        return false;
    }
    if line[i + 7] == NEWLINE || line[i + 8] == NEWLINE {
        return false;
    }
    if line[i + 9] != 93 {
        return false;
    }
    if line[i + 10] != 32 {
        return false;
    }
    let mut j: usize = 0;
    while j < n
        invariant
            j <= n,
            n == tail@.len(),
            i + 11 + n <= line@.len(),
            line@.len() <= usize::MAX,
            spec_stamp_at(line@, i as int),
            forall|k: int| 0 <= k < j ==> line@[i + 11 + k] == tail@[k],
        decreases n - j,
    {
        if line[i + 11 + j] != tail[j] {
            proof {
                if spec_pattern_at(line@, i as int, tail@) {
                    assert(line@.subrange(i + 11, i + 11 + tail@.len())[j as int] == line@[i + 11
                        + j]);
                }
            }
            return false;
        }
        j = j + 1;
    }
    proof {
        assert(line@.subrange(i + 11, i + 11 + tail@.len()) =~= tail@);
    }
    true
}

fn pattern_match(line: &Vec<u8>, tail: &[u8]) -> (r: bool)
    ensures
        r == spec_pattern_match(line@, tail@),
{
    let n = tail.len();
    if line.len() < 11 || line.len() - 11 < n {
        proof {
            assert forall|k: int| !spec_pattern_at(line@, k, tail@) by {}
        }
        return false;
    }
    let last_start = line.len() - 11 - n;
    let mut i: usize = 0;
    while i <= last_start
        invariant
            11 + n <= line@.len(),
            line@.len() <= usize::MAX,
            n == tail@.len(),
            last_start == line@.len() - 11 - n,
            i <= last_start + 1,
            forall|k: int| 0 <= k < i ==> !spec_pattern_at(line@, k, tail@),
        decreases last_start + 1 - i,
    {
        if pattern_at(line, i, tail) {
            proof {
                assert(spec_pattern_at(line@, i as int, tail@));
            }
            return true;
        }
        i = i + 1;
    }
    proof {
        assert forall|k: int| !spec_pattern_at(line@, k, tail@) by {
            if 0 <= k < i {
            }
        }
    }
    false
}

// ---------------------------------------------------------------------------
// Scanning lines
// ---------------------------------------------------------------------------
/// What one line means: a started session with its parsed port, a stopped
/// session, nothing — or a malformed port on a started-session line.
pub open spec fn spec_match_line(s: Seq<u8>) -> Result<Option<ClientChange>, LogParseError> {
    if spec_pattern_match(s, spec_start_tail()) {
        match spec_parse_port(s.skip(43)) {
            Some(p) => Ok(Some(ClientChange::StartedHosting(p))),
            None => Err(LogParseError::BadPort),
        }
    } else if spec_pattern_match(s, spec_stop_tail()) {
        Ok(Some(ClientChange::StoppedHosting))
    } else {
        Ok(None)
    }
}

/// Scans a single line for a transition. A started-session line carries its
/// port at byte offset 43; a port that does not parse is an error.
pub fn match_line(line: &Vec<u8>) -> (r: Result<Option<ClientChange>, LogParseError>)
    ensures
        r == spec_match_line(line@),
{
    let start_t = start_tail();
    if pattern_match(line, start_t) {
        proof {
            let w = choose|k: int| spec_pattern_at(line@, k, spec_start_tail());
            assert(w + 43 <= line@.len());
        }
        match parse_port(line, 43) {
            Some(p) => Ok(Some(ClientChange::StartedHosting(p))),
            None => Err(LogParseError::BadPort),
        }
    } else {
        let stop_t = stop_tail();
        if pattern_match(line, stop_t) {
            Ok(Some(ClientChange::StoppedHosting))
        } else {
            Ok(None)
        }
    }
}

/// The views of a batch of lines.
pub open spec fn line_views(lines: Seq<Vec<u8>>) -> Seq<Seq<u8>> {
    lines.map_values(|l: Vec<u8>| l@)
}

/// The latest transition any line of the batch announces.
pub open spec fn spec_last_hit(lines: Seq<Seq<u8>>) -> Option<ClientChange>
    decreases lines.len(),
{
    if lines.len() == 0 {
        None
    } else {
        match spec_match_line(lines.last()) {
            Ok(Some(c)) => Some(c),
            _ => spec_last_hit(lines.drop_last()),
        }
    }
}

/// What scanning a batch of lines yields: an error if any line has a
/// malformed port, else the latest transition — last match wins.
pub open spec fn spec_scan_lines(lines: Seq<Seq<u8>>) -> Result<
    Option<ClientChange>,
    LogParseError,
> {
    if exists|j: int| 0 <= j < lines.len() && (#[trigger] spec_match_line(lines[j])) is Err {
        Err(LogParseError::BadPort)
    } else {
        Ok(spec_last_hit(lines))
    }
}

/// Scans the appended lines in order and keeps only the latest transition.
pub fn match_lines(lines: &Vec<Vec<u8>>) -> (r: Result<Option<ClientChange>, LogParseError>)
    ensures
        r == spec_scan_lines(line_views(lines@)),
{
    let ghost ls = line_views(lines@);
    let mut result: Option<ClientChange> = None;
    let mut k: usize = 0;
    while k < lines.len()
        invariant
            k <= lines@.len(),
            ls == line_views(lines@),
            ls.len() == lines@.len(),
            forall|j: int| 0 <= j < k ==> !((#[trigger] spec_match_line(ls[j])) is Err),
            result == spec_last_hit(ls.take(k as int)),
        decreases lines@.len() - k,
    {
        proof {
            assert(ls[k as int] == lines@[k as int]@);
        }
        match match_line(&lines[k]) {
            Err(e) => {
                return Err(e);
            },
            Ok(Some(c)) => {
                result = Some(c);
            },
            Ok(None) => {},
        }
        proof {
            assert(ls.take(k + 1).drop_last() =~= ls.take(k as int));
            assert(ls.take(k + 1).last() == ls[k as int]);
        }
        k = k + 1;
    }
    proof {
        assert(ls.take(k as int) =~= ls);
    }
    Ok(result)
}

/// Law: when a line announces a transition and no later line announces one,
/// the scan yields exactly that transition — the last match wins.
pub proof fn lemma_last_match_wins(lines: Seq<Seq<u8>>, j: int, c: ClientChange)
    requires
        0 <= j < lines.len(),
        spec_match_line(lines[j]) == Ok::<Option<ClientChange>, LogParseError>(Some(c)),
        forall|k: int|
            j < k < lines.len() ==> !((#[trigger] spec_match_line(lines[k])) matches Ok(Some(_))),
    ensures
        spec_last_hit(lines) == Some(c),
    decreases lines.len(),
{
    if j < lines.len() - 1 {
        assert(forall|i: int| 0 <= i < lines.len() - 1 ==> lines.drop_last()[i] == lines[i]);
        lemma_last_match_wins(lines.drop_last(), j, c);
    }
}

// ---------------------------------------------------------------------------
// The poll cursor
// ---------------------------------------------------------------------------
/// Stores data to detect updates in log files: the last position read up
/// to, and the last observed file size.
pub struct LogPollMemory {
    last_position: u64,
    last_size: u64,
}

/// What one poll cycle produced.
#[derive(Clone, Copy, PartialEq, Eq, Debug)]
pub struct PollReport {
    /// The file shrank since the last cycle: report an immediate stop
    /// notice, the old session is gone.
    pub truncation_stop: bool,
    /// What the newly appended lines announce, if anything.
    pub scanned: Result<Option<ClientChange>, LogParseError>,
}

impl LogPollMemory {
    /// The byte offset the last cycle read up to.
    pub closed spec fn spec_position(&self) -> u64 {
        self.last_position
    }

    /// The file size the last cycle observed.
    pub closed spec fn spec_size(&self) -> u64 {
        self.last_size
    }

    /// A fresh cursor: nothing read, nothing observed.
    pub fn new() -> (m: LogPollMemory)
        ensures
            m.spec_position() == 0,
            m.spec_size() == 0,
    {
        LogPollMemory { last_position: 0, last_size: 0 }
    }

    /// Where this cycle must start reading, given the file's current size:
    /// from the start again if the file shrank, else from where the last
    /// cycle stopped.
    pub fn read_offset(&self, size: u64) -> (r: u64)
        ensures
            r == if size < self.spec_size() {
                0u64
            } else {
                self.spec_position()
            },
    {
        if size < self.last_size {
            0
        } else {
            self.last_position
        }
    }

    /// Folds one poll cycle into the cursor. `size` is the file's current
    /// size, `lines` are the lines read from `read_offset(size)` to the end
    /// of the file (none when the file is empty), and `end_position` is the
    /// offset that read stopped at. A shrunken file yields an immediate
    /// stop notice and the cursor starts over; a nonempty file has its new
    /// lines scanned, last match wins.
    pub fn record(&mut self, size: u64, lines: &Vec<Vec<u8>>, end_position: u64) -> (r: PollReport)
        ensures
            r.truncation_stop == (size < old(self).spec_size()),
            r.scanned == if size != 0 {
                spec_scan_lines(line_views(lines@))
            } else {
                Ok::<Option<ClientChange>, LogParseError>(None)
            },
            final(self).spec_size() == size,
            final(self).spec_position() == if size != 0 {
                end_position
            } else if size < old(self).spec_size() {
                0u64
            } else {
                old(self).spec_position()
            },
    {
        let truncation_stop = size < self.last_size;
        if truncation_stop {
            self.last_position = 0;
        }
        let scanned = if size != 0 {
            let res = match_lines(lines);
            self.last_position = end_position;
            res
        } else {
            Ok(None)
        };
        self.last_size = size;
        PollReport { truncation_stop, scanned }
    }
}

} // verus!
