//! Energy spectra of the coincidence events.
//!
//! Each input file belongs to one setting of the analyser energy, written in
//! its name as `se` and three digits. Every event of the file adds one start
//! to the spectrum bin of that energy, and its number of stops to the stop
//! count of the bin. Events are sorted into a spectrum for molecules aligned
//! parallel and one for molecules perpendicular to the field; that sorting
//! works on the event's floating-point angle and is done outside this library.

use crate::mylib::file_names::{analyzed_folder, spec_analyzed_folder};
use crate::numeral::{decimal_text, push_decimal, parse_u16_decimal, spec_parse_u16};
use crate::paths::{file_name, path_file_name, path_pushed, push};
use crate::pattern::{captures_group, regex_group, Pattern};
use vstd::prelude::*;

verus! {

/// Number of energy bins of a spectrum (energies `0..=30`).
pub const SPECTRUM_BINS: usize = 31;

/// Start and stop counts per energy bin.
pub struct Spectrum {
    starts: [u64; 31],
    stops: [u64; 31],
}

/// The counts after one event of energy `energy` with `stop_count` stops.
pub open spec fn spec_check(v: (Seq<u64>, Seq<u64>), energy: int, stop_count: u64) -> (Seq<u64>, Seq<u64>) {
    (
        v.0.update(energy, (v.0[energy] + 1) as u64),
        v.1.update(energy, (v.1[energy] + stop_count) as u64),
    )
}

/// Whether one event of energy `energy` with `stop_count` stops can be counted
/// without a count passing `u64::MAX`.
pub open spec fn can_check(v: (Seq<u64>, Seq<u64>), energy: int, stop_count: u64) -> bool {
    &&& 0 <= energy < 31
    &&& v.0[energy] + 1 <= u64::MAX
    &&& v.1[energy] + stop_count <= u64::MAX
}

impl View for Spectrum {
    type V = (Seq<u64>, Seq<u64>);

    /// The start counts and the stop counts, indexed by energy.
    closed spec fn view(&self) -> (Seq<u64>, Seq<u64>) {
        (self.starts@, self.stops@)
    }
}

impl Spectrum {
    /// An empty spectrum: every count is zero.
    pub fn new() -> (r: Spectrum)
        ensures
            r@.0 == Seq::new(31, |i: int| 0u64),
            r@.1 == Seq::new(31, |i: int| 0u64),
    {
        let r = Spectrum { starts: [0u64; 31], stops: [0u64; 31] };
        assert(r@.0 =~= Seq::new(31, |i: int| 0u64));
        assert(r@.1 =~= Seq::new(31, |i: int| 0u64));
        r
    }

    /// Counts one event of energy `energy` with `stop_count` stops.
    pub fn check(&mut self, energy: u64, stop_count: u64)
        requires
            can_check(old(self)@, energy as int, stop_count),
        ensures
            final(self)@ == spec_check(old(self)@, energy as int, stop_count),
    {
        let e = energy as usize;
        let s = self.starts[e];
        self.starts[e] = s + 1;
        let t = self.stops[e];
        self.stops[e] = t + stop_count;
    }

    /// A spectrum has one start count and one stop count per energy bin.
    pub proof fn lemma_bins(&self)
        ensures
            self@.0.len() == 31,
            self@.1.len() == 31,
    {
    }

    /// The number of events of energy `energy`.
    pub fn starts(&self, energy: usize) -> (r: u64)
        requires
            energy < 31,
        ensures
            r == self@.0[energy as int],
    {
        self.starts[energy]
    }

    /// The number of stops counted at energy `energy`.
    pub fn stops(&self, energy: usize) -> (r: u64)
        requires
            energy < 31,
        ensures
            r == self@.1[energy as int],
    {
        self.stops[energy]
    }

    /// The spectrum as text: one line `energy<TAB>starts<TAB>stops` per
    /// energy from 0 to 30, lines separated by a newline, none after the last.
    pub fn to_text(&self) -> (r: String)
        ensures
            r@ == spectrum_text(self@, 31),
    {
        let mut out = String::new();
        let mut i: usize = 0;
        while i < 31
            invariant
                i <= 31,
                self@.0.len() == 31,
                self@.1.len() == 31,
                out@ == spectrum_text(self@, i as int),
            decreases 31 - i,
        {
            if i > 0 {
                proof {
                    reveal_strlit("\n");
                }
                out.append("\n");
            }
            let ghost before = out@;
            push_decimal(&mut out, i as u64);
            proof {
                reveal_strlit("\t");
            }
            out.append("\t");
            push_decimal(&mut out, self.starts[i]);
            out.append("\t");
            push_decimal(&mut out, self.stops[i]);
            assert(out@ =~= before + spectrum_line(self@, i as int));
            i = i + 1;
        }
        out
    }
}

/// The line of energy `i`: the energy, its starts and its stops, in decimal,
/// separated by tabs.
pub open spec fn spectrum_line(v: (Seq<u64>, Seq<u64>), i: int) -> Seq<char> {
    decimal_text(i as nat) + seq!['\t'] + decimal_text(v.0[i] as nat) + seq!['\t'] + decimal_text(
        v.1[i] as nat,
    )
}

/// The lines of energies `0..k`, separated by newlines.
pub open spec fn spectrum_text(v: (Seq<u64>, Seq<u64>), k: int) -> Seq<char>
    decreases k,
{
    if k <= 0 {
        Seq::empty()
    } else if k == 1 {
        spectrum_line(v, 0)
    } else {
        spectrum_text(v, k - 1) + seq!['\n'] + spectrum_line(v, k - 1)
    }
}

/// Sum of a sequence of counts.
pub open spec fn total(s: Seq<u64>) -> int
    decreases s.len(),
{
    if s.len() == 0 {
        0
    } else {
        total(s.drop_last()) + s.last()
    }
}

/// Replacing one entry changes the sum by the difference.
pub proof fn lemma_total_update(s: Seq<u64>, i: int, v: u64)
    requires
        0 <= i < s.len(),
    ensures
        total(s.update(i, v)) == total(s) - s[i] + v,
    decreases s.len(),
{
    let t = s.update(i, v);
    if i == s.len() - 1 {
        assert(t.drop_last() =~= s.drop_last());
    } else {
        lemma_total_update(s.drop_last(), i, v);
        assert(t.drop_last() =~= s.drop_last().update(i, v));
    }
}

/// Counting an event adds one to the total of starts and its stops to the
/// total of stops: the totals count the events and stops seen.
pub proof fn lemma_check_totals(v: (Seq<u64>, Seq<u64>), energy: int, stop_count: u64)
    requires
        v.0.len() == 31,
        v.1.len() == 31,
        can_check(v, energy, stop_count),
    ensures
        total(spec_check(v, energy, stop_count).0) == total(v.0) + 1,
        total(spec_check(v, energy, stop_count).1) == total(v.1) + stop_count,
{
    lemma_total_update(v.0, energy, (v.0[energy] + 1) as u64);
    lemma_total_update(v.1, energy, (v.1[energy] + stop_count) as u64);
}

/// The spectrum does not depend on the order of the events: counting two
/// events in either order gives the same counts.
pub proof fn lemma_check_commutes(
    v: (Seq<u64>, Seq<u64>),
    e1: int,
    c1: u64,
    e2: int,
    c2: u64,
)
    requires
        v.0.len() == 31,
        v.1.len() == 31,
        can_check(v, e1, c1),
        can_check(spec_check(v, e1, c1), e2, c2),
    ensures
        can_check(v, e2, c2),
        can_check(spec_check(v, e2, c2), e1, c1),
        spec_check(spec_check(v, e1, c1), e2, c2) == spec_check(spec_check(v, e2, c2), e1, c1),
{
    let a = spec_check(spec_check(v, e1, c1), e2, c2);
    let b = spec_check(spec_check(v, e2, c2), e1, c1);
    assert(a.0 =~= b.0);
    assert(a.1 =~= b.1);
}

/// The counts of an empty spectrum.
pub open spec fn empty_counts() -> (Seq<u64>, Seq<u64>) {
    (Seq::new(31, |i: int| 0u64), Seq::new(31, |i: int| 0u64))
}

/// The counts after the events `events` (energy, stops), counted in order
/// from the counts `v`.
pub open spec fn counts_after(v: (Seq<u64>, Seq<u64>), events: Seq<(u64, u64)>) -> (Seq<u64>, Seq<u64>)
    decreases events.len(),
{
    if events.len() == 0 {
        v
    } else {
        spec_check(counts_after(v, events.drop_last()), events.last().0 as int, events.last().1)
    }
}

/// Whether each of `events`, counted in order from an empty spectrum, can be
/// counted: its energy names a bin and no count passes `u64::MAX`.
pub open spec fn all_countable(events: Seq<(u64, u64)>) -> bool
    decreases events.len(),
{
    if events.len() == 0 {
        true
    } else {
        all_countable(events.drop_last()) && can_check(
            counts_after(empty_counts(), events.drop_last()),
            events.last().0 as int,
            events.last().1,
        )
    }
}

/// The number of events of energy `e`.
pub open spec fn events_at(events: Seq<(u64, u64)>, e: int) -> int
    decreases events.len(),
{
    if events.len() == 0 {
        0
    } else {
        events_at(events.drop_last(), e) + if events.last().0 == e {
            1int
        } else {
            0int
        }
    }
}

/// The sum of the stops of the events of energy `e`.
pub open spec fn stops_at(events: Seq<(u64, u64)>, e: int) -> int
    decreases events.len(),
{
    if events.len() == 0 {
        0
    } else {
        stops_at(events.drop_last(), e) + if events.last().0 == e {
            events.last().1 as int
        } else {
            0int
        }
    }
}

/// Counting a sequence of events into an empty spectrum leaves in each bin
/// the number of events of that energy as its starts and the sum of their
/// stops as its stops.
pub proof fn lemma_counts_per_bin(events: Seq<(u64, u64)>)
    requires
        all_countable(events),
    ensures
        counts_after(empty_counts(), events).0.len() == 31,
        counts_after(empty_counts(), events).1.len() == 31,
        forall|e: int|
            0 <= e < 31 ==> #[trigger] counts_after(empty_counts(), events).0[e] == events_at(events, e)
                && counts_after(empty_counts(), events).1[e] == stops_at(events, e),
    decreases events.len(),
{
    if events.len() > 0 {
        lemma_counts_per_bin(events.drop_last());
    }
}

/// The pattern that finds the energy setting in an input file's name.
pub open spec fn energy_pattern_text() -> Seq<char> {
    "se(\\d{3})"@
}

/// Compiles the pattern `se(\d{3})` that finds the energy setting in a file name.
pub fn energy_pattern() -> (r: Option<Pattern>)
    ensures
        r is Some <==> crate::pattern::regex_compiles(energy_pattern_text()),
        r matches Some(p) ==> p.source() == energy_pattern_text(),
{
    Pattern::new("se(\\d{3})")
}

/// The energy setting read from the digits that `pattern` captured.
pub open spec fn spec_energy_from_group(group: Option<Seq<char>>) -> Option<u16> {
    match group {
        Some(digits) => spec_parse_u16(digits),
        None => None,
    }
}

/// The energy setting in the captured digits `group`: `None` where nothing
/// was captured or the capture is no decimal `u16`.
pub fn energy_from_group(group: Option<&str>) -> (r: Option<u16>)
    ensures
        r == spec_energy_from_group(
            match group {
                Some(g) => Some(g@),
                None => None,
            },
        ),
{
    match group {
        Some(digits) => parse_u16_decimal(digits),
        None => None,
    }
}

/// The energy setting in the file name `file_name`: the first capture group
/// of `pattern` there, read as a decimal `u16`.
pub fn energy_of_file(pattern: &Pattern, file_name: &str) -> (r: Option<u16>)
    ensures
        r == spec_energy_from_group(regex_group(pattern.source(), file_name@, 1)),
{
    match captures_group(pattern, file_name, 1) {
        Some(digits) => energy_from_group(Some(digits.as_str())),
        None => energy_from_group(None),
    }
}

/// The energy setting of the input file at `path`: `energy_of_file` on its
/// file name; `None` where the path has no file name.
pub fn energy_of_path(pattern: &Pattern, path: &str) -> (r: Option<u16>)
    ensures
        r == match path_file_name(path@) {
            Some(name) => spec_energy_from_group(regex_group(pattern.source(), name, 1)),
            None => None,
        },
{
    match file_name(path) {
        Some(name) => energy_of_file(pattern, name.as_str()),
        None => None,
    }
}

/// The files the two spectra are written to, for an analysis whose first
/// input is `first_input`: `perpendicular` and `parallel` in its experiment's
/// analysis directory.
pub fn spectrum_paths(first_input: &String) -> (r: (String, String))
    ensures
        r.0@ == path_pushed(spec_analyzed_folder(first_input@), "perpendicular"@),
        r.1@ == path_pushed(spec_analyzed_folder(first_input@), "parallel"@),
{
    let folder = analyzed_folder(first_input);
    (push(folder.as_str(), "perpendicular"), push(folder.as_str(), "parallel"))
}

} // verus!
