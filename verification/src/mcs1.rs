//! Decoding of the multichannel scaler's list files (`.lst`).
//!
//! A list file starts with a text header that must describe the word layout
//! by six lines (channel, edge, time, sweeps, tag, data-lost bits) before the
//! line `[DATA]`. Each following line is one 64-bit word in hexadecimal:
//!
//! - bits 0..=2: channel; bit 3: edge (1 = falling, the only one expected);
//! - bits 4..=31: time; bits 32..=47: sweep counter (16 bits, wraps around);
//! - bits 48..=62: tags (ignored); bit 63: data lost.
//!
//! The decoder follows the sweep counter from word to word: it may stay or
//! advance by one, and a step from 65535 to 0 is a wrap-around, after which
//! 65536 is added to all later sweeps. Anything else means the list is
//! corrupt. Each accepted word becomes the line `sweeps<TAB>channel<TAB>time`.

use crate::numeral::{chars_of, parse_i64_hex, push_signed_decimal, signed_decimal_text, spec_parse_i64_hex};
use crate::paths::{path_with_extension, set_extension};
use vstd::prelude::*;

verus! {

/// Period of the sweep counter.
pub const SWEEP_PERIOD: i64 = 65536;

/// The channel field of a word.
pub open spec fn word_channel(w: i64) -> i64 {
    w & 7
}

/// The edge bit of a word (1 for a falling edge).
pub open spec fn word_edge(w: i64) -> i64 {
    (w >> 3) & 1
}

/// The time field of a word.
pub open spec fn word_time(w: i64) -> i64 {
    (w >> 4) & 0xfff_ffff
}

/// The sweep counter of a word.
pub open spec fn word_sweeps(w: i64) -> i64 {
    (w >> 32) & 0xffff
}

/// The data-lost bit of a word.
pub open spec fn word_lost(w: i64) -> i64 {
    (w >> 63) & 1
}

/// The fields of a word lie within their widths.
pub proof fn lemma_word_fields(w: i64)
    ensures
        0 <= word_channel(w) <= 7,
        0 <= word_edge(w) <= 1,
        0 <= word_time(w) <= 0xfff_ffff,
        0 <= word_sweeps(w) <= 0xffff,
        0 <= word_lost(w) <= 1,
{
    assert(0 <= w & 7 <= 7) by (bit_vector);
    assert(0 <= (w >> 3) & 1 <= 1) by (bit_vector);
    assert(0 <= (w >> 4) & 0xfff_ffff <= 0xfff_ffff) by (bit_vector);
    assert(0 <= (w >> 32) & 0xffff <= 0xffff) by (bit_vector);
    assert(0 <= (w >> 63) & 1 <= 1) by (bit_vector);
}

/// One decoded word.
#[derive(Clone, Copy, Debug, PartialEq, Eq)]
pub struct McsEvent {
    /// The sweep, with the wrap-arounds of the counter added in.
    pub sweeps: i64,
    /// The input channel.
    pub channel: i64,
    /// The time within the sweep.
    pub time: i64,
}

impl McsEvent {
    /// The event as a line of the decoded list: sweep, channel and time in
    /// decimal, separated by tabs, ending in a newline.
    pub fn to_line(&self) -> (r: String)
        ensures
            r@ == signed_decimal_text(self.sweeps as int) + seq!['\t'] + signed_decimal_text(
                self.channel as int,
            ) + seq!['\t'] + signed_decimal_text(self.time as int) + seq!['\n'],
    {
        proof {
            reveal_strlit("\t");
            reveal_strlit("\n");
        }
        let mut out = String::new();
        push_signed_decimal(&mut out, self.sweeps);
        out.append("\t");
        push_signed_decimal(&mut out, self.channel);
        out.append("\t");
        push_signed_decimal(&mut out, self.time);
        out.append("\n");
        out
    }
}

/// Why a word is refused.
#[derive(Clone, Copy, Debug, PartialEq, Eq)]
pub enum DecodeError {
    /// The word records a rising edge; `before` is the last sweep decoded.
    RisingEdge { before: i64 },
    /// The word has its data-lost bit set; `before` is the last sweep decoded.
    DataLost { before: i64 },
    /// The sweep counter jumped ahead by more than one.
    SweepSkipped { sweeps_raw: i64, delta: i64 },
    /// The sweep counter went back without wrapping around.
    SweepReversed { sweeps_raw: i64, before_raw: i64, delta: i64, before: i64 },
    /// The counter wrapped around less than a full period after the last
    /// wrap-around; `since_wrap` is how far the sweep has come since then.
    ReversedAtOverflow { sweeps_raw: i64, since_wrap: i64 },
    /// The sweep number no longer fits an `i64`.
    CounterOverflow,
}

/// What the decoder remembers between words.
#[derive(Clone, Copy, Debug, PartialEq, Eq)]
pub struct DecoderState {
    /// Sum of the wrap-arounds so far (a multiple of the period).
    pub add_loop: i64,
    /// The sweep at the last wrap-around (0 before the first).
    pub last_add_loop: i64,
    /// The counter value of the last word.
    pub before_raw: i64,
    /// The sweep of the last word.
    pub before: i64,
}

/// The states the decoder can be in.
pub open spec fn state_wf(s: DecoderState) -> bool {
    &&& 0 <= s.before_raw <= 0xffff
    &&& 0 <= s.add_loop
    &&& s.add_loop % 65536 == 0
    &&& s.before == s.add_loop + s.before_raw
    &&& 0 <= s.last_add_loop <= s.add_loop
}

/// The decoder's answer to the word `w` in state `s`: the event and the next
/// state, or why the word is refused.
pub open spec fn spec_step(s: DecoderState, w: i64) -> Result<(McsEvent, DecoderState), DecodeError> {
    let raw = word_sweeps(w);
    let delta = s.before_raw - raw;
    if word_edge(w) == 0 {
        Err(DecodeError::RisingEdge { before: s.before })
    } else if word_lost(w) == 1 {
        Err(DecodeError::DataLost { before: s.before })
    } else if delta < -1 {
        Err(DecodeError::SweepSkipped { sweeps_raw: raw, delta: delta as i64 })
    } else if 0 < delta < 65535 {
        Err(
            DecodeError::SweepReversed {
                sweeps_raw: raw,
                before_raw: s.before_raw,
                delta: delta as i64,
                before: s.before,
            },
        )
    } else if delta == 65535 {
        if s.before - s.last_add_loop < 65535 {
            Err(
                DecodeError::ReversedAtOverflow {
                    sweeps_raw: raw,
                    since_wrap: (raw + s.add_loop - s.last_add_loop) as i64,
                },
            )
        } else if s.add_loop + 65536 > i64::MAX {
            Err(DecodeError::CounterOverflow)
        } else {
            let add_loop = (s.add_loop + 65536) as i64;
            let sweeps = (add_loop + raw) as i64;
            Ok(
                (
                    McsEvent { sweeps, channel: word_channel(w), time: word_time(w) },
                    DecoderState { add_loop, last_add_loop: sweeps, before_raw: raw, before: sweeps },
                ),
            )
        }
    } else {
        let sweeps = (s.add_loop + raw) as i64;
        Ok(
            (
                McsEvent { sweeps, channel: word_channel(w), time: word_time(w) },
                DecoderState {
                    add_loop: s.add_loop,
                    last_add_loop: s.last_add_loop,
                    before_raw: raw,
                    before: sweeps,
                },
            ),
        )
    }
}

/// The decoder of the data part of a list file.
pub struct McsDecoder {
    state: DecoderState,
}

impl View for McsDecoder {
    type V = DecoderState;

    closed spec fn view(&self) -> DecoderState {
        self.state
    }
}

impl McsDecoder {
    #[verifier::type_invariant]
    spec fn well_formed(self) -> bool {
        state_wf(self.state)
    }

    /// A decoder before the first word: all zero.
    pub fn new() -> (r: McsDecoder)
        ensures
            r@ == (DecoderState { add_loop: 0, last_add_loop: 0, before_raw: 0, before: 0 }),
    {
        McsDecoder { state: DecoderState { add_loop: 0, last_add_loop: 0, before_raw: 0, before: 0 } }
    }

    /// The decoder's state.
    pub fn state(&self) -> (r: DecoderState)
        ensures
            r == self@,
            state_wf(r),
    {
        proof {
            use_type_invariant(self);
        }
        self.state
    }

    /// Decodes the word `w`. On success the decoder moves on; a refused word
    /// leaves it as it was.
    pub fn step(&mut self, w: i64) -> (r: Result<McsEvent, DecodeError>)
        ensures
            state_wf(final(self)@),
            match spec_step(old(self)@, w) {
                Ok((event, next)) => r == Ok::<McsEvent, DecodeError>(event) && final(self)@ == next,
                Err(e) => r == Err::<McsEvent, DecodeError>(e) && final(self)@ == old(self)@,
            },
    {
        proof {
            use_type_invariant(&*self);
            lemma_word_fields(w);
        }
        let s = self.state;
        let channel = w & 7;
        let edge = (w >> 3) & 1;
        let time = (w >> 4) & 0xfff_ffff;
        let raw = (w >> 32) & 0xffff;
        let lost = (w >> 63) & 1;
        if edge == 0 {
            return Err(DecodeError::RisingEdge { before: s.before });
        }
        if lost == 1 {
            return Err(DecodeError::DataLost { before: s.before });
        }
        let delta = s.before_raw - raw;
        if delta < -1 {
            return Err(DecodeError::SweepSkipped { sweeps_raw: raw, delta });
        }
        if 0 < delta && delta < 65535 {
            return Err(
                DecodeError::SweepReversed {
                    sweeps_raw: raw,
                    before_raw: s.before_raw,
                    delta,
                    before: s.before,
                },
            );
        }
        let mut add_loop = s.add_loop;
        let mut last_add_loop = s.last_add_loop;
        if delta == 65535 {
            if s.before - s.last_add_loop < 65535 {
                return Err(
                    DecodeError::ReversedAtOverflow {
                        sweeps_raw: raw,
                        since_wrap: raw + s.add_loop - s.last_add_loop,
                    },
                );
            }
            if s.add_loop > i64::MAX - SWEEP_PERIOD {
                return Err(DecodeError::CounterOverflow);
            }
            add_loop = s.add_loop + SWEEP_PERIOD;
            last_add_loop = add_loop + raw;
        }
        let sweeps = add_loop + raw;
        self.state = DecoderState { add_loop, last_add_loop, before_raw: raw, before: sweeps };
        Ok(McsEvent { sweeps, channel, time })
    }
}

/// Each accepted word keeps the sweep where it was or advances it by one,
/// and the sweep agrees with the word's counter modulo the period.
pub proof fn lemma_step_advances_by_at_most_one(s: DecoderState, w: i64)
    requires
        state_wf(s),
        spec_step(s, w) is Ok,
    ensures
        ({
            let (event, next) = spec_step(s, w)->Ok_0;
            &&& event.sweeps == s.before || event.sweeps == s.before + 1
            &&& event.sweeps % 65536 == word_sweeps(w)
            &&& 0 <= event.channel <= 7
            &&& 0 <= event.time <= 0xfff_ffff
            &&& state_wf(next)
            &&& next.before == event.sweeps
        }),
{
    lemma_word_fields(w);
    let raw = word_sweeps(w);
    let delta = s.before_raw - raw;
    if delta == 65535 {
        let add_loop = s.add_loop + 65536;
        assert(add_loop % 65536 == 0);
        assert((add_loop + raw) % 65536 == raw);
    } else {
        assert((s.add_loop + raw) % 65536 == raw);
    }
}

/// The word written on a data line, as `i64::from_str_radix(line, 16)` reads
/// it; `None` where the line is no hexadecimal `i64`.
pub fn parse_word(line: &str) -> (r: Option<i64>)
    ensures
        r == spec_parse_i64_hex(line@),
{
    parse_i64_hex(line)
}

/// The file the decoded list of `path` is written to: `path` with the
/// extension `lstdecoded`.
pub fn decoded_path(path: &str) -> (r: String)
    ensures
        r@ == path_with_extension(path@, "lstdecoded"@),
{
    proof {
        reveal_strlit("lstdecoded");
    }
    set_extension(path, "lstdecoded")
}

/// Whether `p` begins `s`.
pub open spec fn starts_with(s: Seq<char>, p: Seq<char>) -> bool {
    p.len() <= s.len() && s.subrange(0, p.len() as int) == p
}

/// Whether `line` begins with `prefix`.
pub fn line_starts_with(line: &str, prefix: &str) -> (r: bool)
    ensures
        r == starts_with(line@, prefix@),
{
    let l = chars_of(line);
    let p = chars_of(prefix);
    if p.len() > l.len() {
        return false;
    }
    let mut i: usize = 0;
    while i < p.len()
        invariant
            i <= p@.len() <= l@.len(),
            l@ == line@,
            p@ == prefix@,
            forall|j: int| 0 <= j < i ==> l@[j] == p@[j],
        decreases p@.len() - i,
    {
        if l[i] != p[i] {
            assert(line@.subrange(0, prefix@.len() as int)[i as int] != prefix@[i as int]);
            return false;
        }
        i = i + 1;
    }
    assert(line@.subrange(0, prefix@.len() as int) =~= prefix@);
    true
}

/// The six header lines that describe the word layout, in order.
pub open spec fn header_marker(i: int) -> Seq<char> {
    if i == 0 {
        ";bit0..2: channel# 1..6 ( 3 bit)"@
    } else if i == 1 {
        ";bit3: edge 0=up / 1=dn ( 1 bit)"@
    } else if i == 2 {
        ";bit4 ..31: timedata    (28 bit)"@
    } else if i == 3 {
        ";bit32..47: sweeps      (16 bit)"@
    } else if i == 4 {
        ";bit48..62: tag0..tag14 (15 bit)"@
    } else {
        ";bit63:     data_lost   ( 1 bit)"@
    }
}

/// The line that ends the header.
pub open spec fn data_marker() -> Seq<char> {
    "[DATA]"@
}

/// How many of the first `k` layout lines `line` begins with.
pub open spec fn marker_hits(line: Seq<char>, k: int) -> int
    decreases k,
{
    if k <= 0 {
        0
    } else {
        marker_hits(line, k - 1) + if starts_with(line, header_marker(k - 1)) {
            1int
        } else {
            0int
        }
    }
}

/// What reading one header line gives.
#[derive(Clone, Copy, Debug, PartialEq, Eq)]
pub enum HeaderStep {
    /// The header goes on.
    Continue,
    /// The line was `[DATA]` and the six layout lines were seen: data follow.
    DataFollows,
    /// The line was `[DATA]` but the layout lines seen were not exactly six.
    WrongFormat,
    /// More layout lines than the counter (an `i8`) can hold.
    TooManyMarkers,
}

/// The count of layout lines and the step for `line`, from the count `count`.
pub open spec fn spec_header_step(count: i8, line: Seq<char>) -> (int, HeaderStep) {
    let c = count + marker_hits(line, 6);
    if c > 127 {
        (count as int, HeaderStep::TooManyMarkers)
    } else if starts_with(line, data_marker()) {
        (c, if c == 6 { HeaderStep::DataFollows } else { HeaderStep::WrongFormat })
    } else {
        (c, HeaderStep::Continue)
    }
}

/// The reader of a list file's header: counts the layout lines up to `[DATA]`.
pub struct HeaderScan {
    count: i8,
}

impl HeaderScan {
    /// The number of layout lines seen so far.
    pub closed spec fn spec_count(&self) -> i8 {
        self.count
    }

    /// A reader before the first line.
    pub fn new() -> (r: HeaderScan)
        ensures
            r.spec_count() == 0,
    {
        HeaderScan { count: 0 }
    }

    /// The number of layout lines seen so far.
    pub fn count(&self) -> (r: i8)
        ensures
            r == self.spec_count(),
    {
        self.count
    }

    /// Reads one header line (with or without its line ending).
    pub fn feed(&mut self, line: &str) -> (r: HeaderStep)
        ensures
            r == spec_header_step(old(self).spec_count(), line@).1,
            final(self).spec_count() == spec_header_step(old(self).spec_count(), line@).0,
    {
        let mut hits: i16 = 0;
        if line_starts_with(line, ";bit0..2: channel# 1..6 ( 3 bit)") {
            hits = hits + 1;
        }
        if line_starts_with(line, ";bit3: edge 0=up / 1=dn ( 1 bit)") {
            hits = hits + 1;
        }
        if line_starts_with(line, ";bit4 ..31: timedata    (28 bit)") {
            hits = hits + 1;
        }
        if line_starts_with(line, ";bit32..47: sweeps      (16 bit)") {
            hits = hits + 1;
        }
        if line_starts_with(line, ";bit48..62: tag0..tag14 (15 bit)") {
            hits = hits + 1;
        }
        if line_starts_with(line, ";bit63:     data_lost   ( 1 bit)") {
            hits = hits + 1;
        }
        proof {
            reveal_with_fuel(marker_hits, 7);
        }
        assert(hits == marker_hits(line@, 6));
        let c = self.count as i16 + hits;
        if c > 127 {
            return HeaderStep::TooManyMarkers;
        }
        self.count = c as i8;
        if line_starts_with(line, "[DATA]") {
            if c == 6 {
                HeaderStep::DataFollows
            } else {
                HeaderStep::WrongFormat
            }
        } else {
            HeaderStep::Continue
        }
    }
}

/// In every state the decoder can reach, the last wrap-around lies at least a
/// full period behind a counter value of 65535, so a word is never refused
/// with `ReversedAtOverflow`.
pub proof fn lemma_no_reversal_at_overflow(s: DecoderState, w: i64)
    requires
        state_wf(s),
    ensures
        !(spec_step(s, w) matches Err(DecodeError::ReversedAtOverflow { .. })),
{
    lemma_word_fields(w);
}

/// A line that differs from `m` at position `i` does not begin with `m`.
proof fn lemma_not_prefix_at(line: Seq<char>, m: Seq<char>, i: int)
    requires
        0 <= i < m.len(),
        i < line.len(),
        line[i] != m[i],
    ensures
        !starts_with(line, m),
{
    if starts_with(line, m) {
        assert(line.subrange(0, m.len() as int)[i] == line[i]);
    }
}

/// A line that begins with `[DATA]` ends the header: data follow when six
/// layout lines were counted, and the format is wrong otherwise; the count
/// stays as it was.
pub proof fn lemma_header_data_line(count: i8, line: Seq<char>)
    requires
        6 <= line.len(),
        line.subrange(0, 6) == "[DATA]"@,
    ensures
        spec_header_step(count, line).0 == count,
        count == 6 ==> spec_header_step(count, line).1 == HeaderStep::DataFollows,
        count != 6 ==> spec_header_step(count, line).1 == HeaderStep::WrongFormat,
{
    reveal_strlit("[DATA]");
    reveal_strlit(";bit0..2: channel# 1..6 ( 3 bit)");
    reveal_strlit(";bit3: edge 0=up / 1=dn ( 1 bit)");
    reveal_strlit(";bit4 ..31: timedata    (28 bit)");
    reveal_strlit(";bit32..47: sweeps      (16 bit)");
    reveal_strlit(";bit48..62: tag0..tag14 (15 bit)");
    reveal_strlit(";bit63:     data_lost   ( 1 bit)");
    assert(line[0] == line.subrange(0, 6)[0]);
    assert(line[0] == '[');
    lemma_not_prefix_at(line, header_marker(0), 0);
    lemma_not_prefix_at(line, header_marker(1), 0);
    lemma_not_prefix_at(line, header_marker(2), 0);
    lemma_not_prefix_at(line, header_marker(3), 0);
    lemma_not_prefix_at(line, header_marker(4), 0);
    lemma_not_prefix_at(line, header_marker(5), 0);
    reveal_with_fuel(marker_hits, 7);
    assert(line.subrange(0, 6) =~= data_marker());
}

/// A line that begins with one of the six layout lines adds one to the count
/// (while the count has room) and the header goes on.
pub proof fn lemma_header_layout_line(count: i8, line: Seq<char>, k: int)
    requires
        0 <= k < 6,
        count < 127,
        32 <= line.len(),
        line.subrange(0, 32) == seq![";bit0..2: channel# 1..6 ( 3 bit)"@, ";bit3: edge 0=up / 1=dn ( 1 bit)"@, ";bit4 ..31: timedata    (28 bit)"@, ";bit32..47: sweeps      (16 bit)"@, ";bit48..62: tag0..tag14 (15 bit)"@, ";bit63:     data_lost   ( 1 bit)"@][k],
    ensures
        spec_header_step(count, line).0 == count + 1,
        spec_header_step(count, line).1 == HeaderStep::Continue,
{
    reveal_strlit("[DATA]");
    reveal_strlit(";bit0..2: channel# 1..6 ( 3 bit)");
    reveal_strlit(";bit3: edge 0=up / 1=dn ( 1 bit)");
    reveal_strlit(";bit4 ..31: timedata    (28 bit)");
    reveal_strlit(";bit32..47: sweeps      (16 bit)");
    reveal_strlit(";bit48..62: tag0..tag14 (15 bit)");
    reveal_strlit(";bit63:     data_lost   ( 1 bit)");
    assert(forall|i: int| 0 <= i < 32 ==> line[i] == #[trigger] line.subrange(0, 32)[i]);
    if k == 0 {
        assert(line.subrange(0, 32) == header_marker(0));
        assert(line.subrange(0, 32)[0] == ';');
        assert(line.subrange(0, 32)[4] == '0');
        lemma_not_prefix_at(line, header_marker(1), 4);
        lemma_not_prefix_at(line, header_marker(2), 4);
        lemma_not_prefix_at(line, header_marker(3), 4);
        lemma_not_prefix_at(line, header_marker(4), 4);
        lemma_not_prefix_at(line, header_marker(5), 4);
    } else if k == 1 {
        assert(line.subrange(0, 32) == header_marker(1));
        assert(line.subrange(0, 32)[0] == ';');
        assert(line.subrange(0, 32)[4] == '3');
        assert(line.subrange(0, 32)[5] == ':');
        lemma_not_prefix_at(line, header_marker(0), 4);
        lemma_not_prefix_at(line, header_marker(2), 4);
        lemma_not_prefix_at(line, header_marker(3), 5);
        lemma_not_prefix_at(line, header_marker(4), 4);
        lemma_not_prefix_at(line, header_marker(5), 4);
    } else if k == 2 {
        assert(line.subrange(0, 32) == header_marker(2));
        assert(line.subrange(0, 32)[0] == ';');
        assert(line.subrange(0, 32)[4] == '4');
        assert(line.subrange(0, 32)[5] == ' ');
        lemma_not_prefix_at(line, header_marker(0), 4);
        lemma_not_prefix_at(line, header_marker(1), 4);
        lemma_not_prefix_at(line, header_marker(3), 4);
        lemma_not_prefix_at(line, header_marker(4), 5);
        lemma_not_prefix_at(line, header_marker(5), 4);
    } else if k == 3 {
        assert(line.subrange(0, 32) == header_marker(3));
        assert(line.subrange(0, 32)[0] == ';');
        assert(line.subrange(0, 32)[4] == '3');
        assert(line.subrange(0, 32)[5] == '2');
        lemma_not_prefix_at(line, header_marker(0), 4);
        lemma_not_prefix_at(line, header_marker(1), 5);
        lemma_not_prefix_at(line, header_marker(2), 4);
        lemma_not_prefix_at(line, header_marker(4), 4);
        lemma_not_prefix_at(line, header_marker(5), 4);
    } else if k == 4 {
        assert(line.subrange(0, 32) == header_marker(4));
        assert(line.subrange(0, 32)[0] == ';');
        assert(line.subrange(0, 32)[4] == '4');
        assert(line.subrange(0, 32)[5] == '8');
        lemma_not_prefix_at(line, header_marker(0), 4);
        lemma_not_prefix_at(line, header_marker(1), 4);
        lemma_not_prefix_at(line, header_marker(2), 5);
        lemma_not_prefix_at(line, header_marker(3), 4);
        lemma_not_prefix_at(line, header_marker(5), 4);
    } else if k == 5 {
        assert(line.subrange(0, 32) == header_marker(5));
        assert(line.subrange(0, 32)[0] == ';');
        assert(line.subrange(0, 32)[4] == '6');
        lemma_not_prefix_at(line, header_marker(0), 4);
        lemma_not_prefix_at(line, header_marker(1), 4);
        lemma_not_prefix_at(line, header_marker(2), 4);
        lemma_not_prefix_at(line, header_marker(3), 4);
        lemma_not_prefix_at(line, header_marker(4), 4);
    }
    lemma_not_prefix_at(line, data_marker(), 0);
    reveal_with_fuel(marker_hits, 7);
}

/// A line that begins with neither `;` nor `[` (or is empty) leaves the count
/// as it was, and the header goes on.
pub proof fn lemma_header_other_line(count: i8, line: Seq<char>)
    requires
        line.len() == 0 || (line[0] != ';' && line[0] != '['),
    ensures
        spec_header_step(count, line).0 == count,
        spec_header_step(count, line).1 == HeaderStep::Continue,
{
    reveal_strlit("[DATA]");
    reveal_strlit(";bit0..2: channel# 1..6 ( 3 bit)");
    reveal_strlit(";bit3: edge 0=up / 1=dn ( 1 bit)");
    reveal_strlit(";bit4 ..31: timedata    (28 bit)");
    reveal_strlit(";bit32..47: sweeps      (16 bit)");
    reveal_strlit(";bit48..62: tag0..tag14 (15 bit)");
    reveal_strlit(";bit63:     data_lost   ( 1 bit)");
    if line.len() == 0 {
        reveal_with_fuel(marker_hits, 7);
    } else {
        lemma_not_prefix_at(line, header_marker(0), 0);
        lemma_not_prefix_at(line, header_marker(1), 0);
        lemma_not_prefix_at(line, header_marker(2), 0);
        lemma_not_prefix_at(line, header_marker(3), 0);
        lemma_not_prefix_at(line, header_marker(4), 0);
        lemma_not_prefix_at(line, header_marker(5), 0);
        lemma_not_prefix_at(line, data_marker(), 0);
        reveal_with_fuel(marker_hits, 7);
    }
}

/// An accepted word is a falling edge without lost data, whose channel is
/// bits 0..=2 and whose time is bits 4..=31 of the word; its sweep agrees with
/// the counter in bits 32..=47 modulo 65536, and stays or moves on by one.
pub proof fn lemma_accepted_word(s: DecoderState, w: i64)
    requires
        state_wf(s),
        spec_step(s, w) is Ok,
    ensures
        (w >> 3) & 1 == 1,
        (w >> 63) & 1 == 0,
        spec_step(s, w)->Ok_0.0.channel == w & 7,
        spec_step(s, w)->Ok_0.0.time == (w >> 4) & 0xfff_ffff,
        spec_step(s, w)->Ok_0.0.sweeps % 65536 == (w >> 32) & 0xffff,
        spec_step(s, w)->Ok_0.0.sweeps == s.before || spec_step(s, w)->Ok_0.0.sweeps == s.before + 1,
        spec_step(s, w)->Ok_0.1.before == spec_step(s, w)->Ok_0.0.sweeps,
        spec_step(s, w)->Ok_0.1.before_raw == (w >> 32) & 0xffff,
{
    lemma_word_fields(w);
    lemma_step_advances_by_at_most_one(s, w);
}

/// A falling-edge word without lost data whose counter stays or moves on by
/// one is accepted: its sweep moves on as the counter does, and its channel
/// and time are read from the word.
pub proof fn lemma_word_accepted(s: DecoderState, w: i64)
    requires
        state_wf(s),
        (w >> 3) & 1 == 1,
        (w >> 63) & 1 == 0,
        (w >> 32) & 0xffff == s.before_raw || (w >> 32) & 0xffff == s.before_raw + 1,
    ensures
        spec_step(s, w) is Ok,
        spec_step(s, w)->Ok_0.0.sweeps == s.before + ((w >> 32) & 0xffff) - s.before_raw,
        spec_step(s, w)->Ok_0.0.channel == w & 7,
        spec_step(s, w)->Ok_0.0.time == (w >> 4) & 0xfff_ffff,
{
    lemma_word_fields(w);
}

/// A falling-edge word without lost data whose counter wrapped from 65535 to
/// 0 is accepted as the next sweep, and the wrap-arounds grow by a period
/// (while the sweep still fits an `i64`).
pub proof fn lemma_word_wraps(s: DecoderState, w: i64)
    requires
        state_wf(s),
        (w >> 3) & 1 == 1,
        (w >> 63) & 1 == 0,
        s.before_raw == 0xffff,
        (w >> 32) & 0xffff == 0,
        s.add_loop + 65536 <= i64::MAX,
    ensures
        spec_step(s, w) is Ok,
        spec_step(s, w)->Ok_0.0.sweeps == s.before + 1,
        spec_step(s, w)->Ok_0.1.add_loop == s.add_loop + 65536,
        spec_step(s, w)->Ok_0.0.channel == w & 7,
        spec_step(s, w)->Ok_0.0.time == (w >> 4) & 0xfff_ffff,
{
    lemma_word_fields(w);
}

/// Words are refused for a rising edge, then for lost data, then for a
/// counter that jumps ahead by more than one, or goes back by less than a
/// full wrap-around.
pub proof fn lemma_word_refused(s: DecoderState, w: i64)
    requires
        state_wf(s),
    ensures
        (w >> 3) & 1 == 0 ==> spec_step(s, w) == Err::<(McsEvent, DecoderState), DecodeError>(
            DecodeError::RisingEdge { before: s.before },
        ),
        (w >> 3) & 1 == 1 && (w >> 63) & 1 == 1 ==> spec_step(s, w) == Err::<
            (McsEvent, DecoderState),
            DecodeError,
        >(DecodeError::DataLost { before: s.before }),
        (w >> 3) & 1 == 1 && (w >> 63) & 1 == 0 && (w >> 32) & 0xffff > s.before_raw + 1
            ==> spec_step(s, w) is Err,
        (w >> 3) & 1 == 1 && (w >> 63) & 1 == 0 && (w >> 32) & 0xffff < s.before_raw && s.before_raw
            - ((w >> 32) & 0xffff) < 0xffff ==> spec_step(s, w) is Err,
{
    lemma_word_fields(w);
}

} // verus!
