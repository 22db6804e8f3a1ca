use vstd::prelude::*;
use vstd::seq_lib::to_multiset_contains;
use crate::calendar::{in_span, ties_in_order, select_sorted, starting_within, deref_all, sorted_by_key, Timed};
use crate::text::{find, occurs, str_eq};
use crate::icstime::{date_of, ics_text, ICSTime, ParseError, valid_time_literal, time_of_literal};

verus! {

/// One event of the calendar text.
pub struct Vevent {
    pub uid: String,
    pub start: ICSTime,
    pub end: ICSTime,
    pub location: String,
    pub summary: String,
    /// Whether the raw summary names a lesson (holds `Tanóra`).
    pub lesson: bool,
}

/// The value of an event, with its text fields as character sequences.
pub struct EventModel {
    pub uid: Seq<char>,
    pub start: ICSTime,
    pub end: ICSTime,
    pub location: Seq<char>,
    pub summary: Seq<char>,
    pub lesson: bool,
}

impl View for Vevent {
    type V = EventModel;

    open spec fn view(&self) -> EventModel {
        EventModel {
            uid: self.uid@,
            start: self.start,
            end: self.end,
            location: self.location@,
            summary: self.summary@,
            lesson: self.lesson,
        }
    }
}

impl Vevent {
    /// The raw identifier of the event.
    pub fn uid(&self) -> (r: &String)
        ensures
            r@ == self.uid@,
    {
        &self.uid
    }

    /// The event as five lines: identifier, summary, location, start and end.
    pub fn to_text(&self) -> (r: String)
        ensures
            r@ == self.uid@ + "\n"@ + self.summary@ + "\n"@ + self.location@ + "\n"@ + ics_text(
                self.start,
            ) + "\n"@ + ics_text(self.end),
    {
        let mut r = self.uid.clone();
        r.append("\n");
        r.append(self.summary.as_str());
        r.append("\n");
        r.append(self.location.as_str());
        r.append("\n");
        r.append(self.start.to_text().as_str());
        r.append("\n");
        r.append(self.end.to_text().as_str());
        r
    }
}

impl PartialEq for Vevent {
    /// Two events are equal when their identifiers match, whatever their times.
    fn eq(&self, other: &Vevent) -> (r: bool) {
        self.uid == other.uid
    }
}

impl vstd::std_specs::cmp::PartialEqSpecImpl for Vevent {
    open spec fn obeys_eq_spec() -> bool {
        true
    }

    open spec fn eq_spec(&self, other: &Vevent) -> bool {
        self.uid@ == other.uid@
    }
}

impl Timed for Vevent {
    open spec fn start_spec(&self) -> ICSTime {
        self.start
    }

    open spec fn end_spec(&self) -> ICSTime {
        self.end
    }

    open spec fn sort_key(&self) -> (ICSTime, ICSTime) {
        (self.start, self.end)
    }

    fn start_exec(&self) -> (r: ICSTime) {
        self.start
    }

    fn end_exec(&self) -> (r: ICSTime) {
        self.end
    }

    fn sort_key_exec(&self) -> (r: (ICSTime, ICSTime)) {
        (self.start, self.end)
    }
}

/// Position of the first `:` of `s` at or after `i`, or the length of `s` when there is none.
pub open spec fn colon_from(s: Seq<char>, i: int) -> int
    decreases s.len() - i,
{
    if i >= s.len() {
        s.len() as int
    } else if s[i] == ':' {
        i
    } else {
        colon_from(s, i + 1)
    }
}

/// Position of the first `:` of `s`, or the length of `s` when there is none.
pub open spec fn first_colon(s: Seq<char>) -> int {
    colon_from(s, 0)
}

/// A line that holds a `:` and a non-empty key before the first one.
pub open spec fn line_well_formed(s: Seq<char>) -> bool {
    0 < first_colon(s) < s.len()
}

/// What stands before the first `:` of a line.
pub open spec fn key_of(s: Seq<char>) -> Seq<char> {
    s.subrange(0, first_colon(s))
}

/// What stands after the first `:` of a line, further `:` included.
pub open spec fn value_of(s: Seq<char>) -> Seq<char> {
    s.subrange(first_colon(s) + 1, s.len() as int)
}

/// Splits a line on its first `:` into key and value.
pub fn split_line(line: &str) -> (r: Result<(&str, &str), ParseError>)
    ensures
        r is Ok <==> line_well_formed(line@),
        r matches Ok((k, v)) ==> k@ == key_of(line@) && v@ == value_of(line@),
        r matches Err(e) ==> e == ParseError::MalformedLine,
{
    let n = line.unicode_len();
    let mut i: usize = 0;
    while i < n
        invariant
            i <= n == line@.len(),
            colon_from(line@, i as int) == first_colon(line@),
        decreases n - i,
    {
        if line.get_char(i) == ':' {
            if i == 0 {
                return Err(ParseError::MalformedLine);
            }
            return Ok((line.substring_char(0, i), line.substring_char(i + 1, n)));
        }
        i = i + 1;
    }
    Err(ParseError::MalformedLine)
}

/// Whether `s` ends with `suffix`.
pub open spec fn ends_with(s: Seq<char>, suffix: Seq<char>) -> bool {
    suffix.len() <= s.len() && s.subrange(s.len() - suffix.len(), s.len() as int) == suffix
}

/// `s` without a trailing `suffix`; `s` unchanged when it does not end with it.
pub open spec fn without_suffix(s: Seq<char>, suffix: Seq<char>) -> Seq<char> {
    if ends_with(s, suffix) {
        s.subrange(0, s.len() - suffix.len())
    } else {
        s
    }
}

/// The boilerplate that the calendar export appends to the summary of a lesson.
pub open spec fn summary_suffix() -> Seq<char> {
    " - Tanóra"@
}

/// The word by which a summary marks a lesson.
pub open spec fn lesson_marker() -> Seq<char> {
    "Tanóra"@
}

/// A summary value without a trailing boilerplate `suffix`; the value unchanged when it does
/// not end with it.
pub fn strip_summary_suffix<'a>(value: &'a str, suffix: &str) -> (r: &'a str)
    ensures
        r@ == without_suffix(value@, suffix@),
{
    let n = value.unicode_len();
    let m = suffix.unicode_len();
    if m <= n && str_eq(value.substring_char(n - m, n), suffix) {
        value.substring_char(0, n - m)
    } else {
        assert(value@.subrange(0, n as int) =~= value@);
        value.substring_char(0, n)
    }
}

/// The fields gathered so far for an open block.
pub struct BlockModel {
    pub uid: Seq<char>,
    pub start: Option<ICSTime>,
    pub end: Option<ICSTime>,
    pub location: Seq<char>,
    pub summary: Seq<char>,
    pub lesson: bool,
    pub broken: bool,
}

/// The state of a scan: the open block if any, the events emitted, the blocks skipped.
pub struct ScanModel {
    pub block: Option<BlockModel>,
    pub events: Seq<EventModel>,
    pub skipped: nat,
}

pub open spec fn empty_block() -> BlockModel {
    BlockModel {
        uid: Seq::empty(),
        start: None,
        end: None,
        location: Seq::empty(),
        summary: Seq::empty(),
        lesson: false,
        broken: false,
    }
}

pub open spec fn opens_block(line: Seq<char>) -> bool {
    line_well_formed(line) && key_of(line) == "BEGIN"@ && value_of(line) == "VEVENT"@
}

pub open spec fn closes_block(line: Seq<char>) -> bool {
    line_well_formed(line) && key_of(line) == "END"@
}

/// The time value of a date-time literal, if it is valid.
pub open spec fn time_field(v: Seq<char>) -> Option<ICSTime> {
    if valid_time_literal(v) {
        Some(time_of_literal(v))
    } else {
        None
    }
}

/// A block after one `KEY:VALUE` line of it that neither opens nor closes a block.
pub open spec fn fill_field(b: BlockModel, k: Seq<char>, v: Seq<char>) -> BlockModel {
    if k == "DTSTART"@ {
        match time_field(v) {
            Some(t) => BlockModel { start: Some(t), ..b },
            None => BlockModel { broken: true, ..b },
        }
    } else if k == "DTEND"@ {
        match time_field(v) {
            Some(t) => BlockModel { end: Some(t), ..b },
            None => BlockModel { broken: true, ..b },
        }
    } else if k == "LOCATION"@ {
        BlockModel { location: v, ..b }
    } else if k == "SUMMARY"@ {
        BlockModel {
            summary: without_suffix(v, summary_suffix()),
            lesson: occurs(v, lesson_marker()),
            ..b
        }
    } else if k == "UID"@ {
        BlockModel { uid: v, ..b }
    } else {
        b
    }
}

/// Whether a block can become an event: no malformed line or literal, start and end set.
pub open spec fn block_complete(b: BlockModel) -> bool {
    !b.broken && b.start is Some && b.end is Some
}

pub open spec fn event_of_block(b: BlockModel) -> EventModel {
    EventModel {
        uid: b.uid,
        start: b.start->Some_0,
        end: b.end->Some_0,
        location: b.location,
        summary: b.summary,
        lesson: b.lesson,
    }
}

/// The scan after closing block `b`: an event when the block is complete, a skip otherwise.
pub open spec fn close_block(st: ScanModel, b: BlockModel) -> ScanModel {
    if block_complete(b) {
        ScanModel { block: None, events: st.events.push(event_of_block(b)), skipped: st.skipped }
    } else {
        ScanModel { block: None, events: st.events, skipped: st.skipped + 1 }
    }
}

/// The scan after one more line.
pub open spec fn scan_line(st: ScanModel, line: Seq<char>) -> ScanModel {
    match st.block {
        None => if opens_block(line) {
            ScanModel { block: Some(empty_block()), ..st }
        } else {
            st
        },
        Some(b) => if !line_well_formed(line) {
            ScanModel { block: Some(BlockModel { broken: true, ..b }), ..st }
        } else if opens_block(line) {
            ScanModel { block: Some(empty_block()), events: st.events, skipped: st.skipped + 1 }
        } else if closes_block(line) {
            close_block(st, b)
        } else {
            ScanModel { block: Some(fill_field(b, key_of(line), value_of(line))), ..st }
        },
    }
}

pub open spec fn initial_scan() -> ScanModel {
    ScanModel { block: None, events: Seq::empty(), skipped: 0 }
}

/// The scan after the first `n` lines.
pub open spec fn scan_prefix(lines: Seq<Seq<char>>, n: int) -> ScanModel
    decreases n,
{
    if n <= 0 {
        initial_scan()
    } else {
        scan_line(scan_prefix(lines, n - 1), lines[n - 1])
    }
}

/// The number of skipped blocks once the text ends: a block still open is skipped too.
pub open spec fn final_skipped(st: ScanModel) -> nat {
    if st.block is Some {
        st.skipped + 1
    } else {
        st.skipped
    }
}

pub open spec fn line_views(lines: Seq<String>) -> Seq<Seq<char>> {
    lines.map_values(|l: String| l@)
}

pub open spec fn event_views(events: Seq<Vevent>) -> Seq<EventModel> {
    events.map_values(|e: Vevent| e@)
}

/// The open block of a scan.
struct Block {
    uid: String,
    start: Option<ICSTime>,
    end: Option<ICSTime>,
    location: String,
    summary: String,
    lesson: bool,
    broken: bool,
}

impl View for Block {
    type V = BlockModel;

    closed spec fn view(&self) -> BlockModel {
        BlockModel {
            uid: self.uid@,
            start: self.start,
            end: self.end,
            location: self.location@,
            summary: self.summary@,
            lesson: self.lesson,
            broken: self.broken,
        }
    }
}

impl Block {
    fn new() -> (r: Block)
        ensures
            r@ == empty_block(),
    {
        Block {
            uid: String::new(),
            start: None,
            end: None,
            location: String::new(),
            summary: String::new(),
            lesson: false,
            broken: false,
        }
    }

    fn fill(&mut self, k: &str, v: &str)
        ensures
            final(self)@ == fill_field(old(self)@, k@, v@),
    {
        if str_eq(k, "DTSTART") {
            match ICSTime::new(v) {
                Ok(t) => self.start = Some(t),
                Err(_) => self.broken = true,
            }
        } else if str_eq(k, "DTEND") {
            match ICSTime::new(v) {
                Ok(t) => self.end = Some(t),
                Err(_) => self.broken = true,
            }
        } else if str_eq(k, "LOCATION") {
            self.location = String::from_str(v);
        } else if str_eq(k, "SUMMARY") {
            proof {
                reveal_strlit("Tanóra");
            }
            self.summary = String::from_str(strip_summary_suffix(v, " - Tanóra"));
            self.lesson = find(v, "Tanóra") < v.unicode_len();
        } else if str_eq(k, "UID") {
            self.uid = String::from_str(v);
        }
    }
}

/// Reads calendar text line by line, gathering events and counting skipped blocks.
///
/// Keys are matched whole: `UID`, `DTSTART`, `DTEND`, `LOCATION` and `SUMMARY` are read, and
/// any other key is ignored, so a line with parameters such as `DTSTART;TZID=...` counts as an
/// unknown key rather than a start.
pub struct Scanner {
    block: Option<Block>,
    events: Vec<Vevent>,
    skipped: usize,
}

impl View for Scanner {
    type V = ScanModel;

    closed spec fn view(&self) -> ScanModel {
        ScanModel {
            block: match self.block {
                Some(b) => Some(b@),
                None => None,
            },
            events: event_views(self.events@),
            skipped: self.skipped as nat,
        }
    }
}

impl Scanner {
    pub fn new() -> (r: Scanner)
        ensures
            r@ == initial_scan(),
    {
        let r = Scanner { block: None, events: Vec::new(), skipped: 0 };
        assert(event_views(r.events@) =~= Seq::empty());
        r
    }

    /// Number of blocks skipped so far.
    pub fn skipped(&self) -> (r: usize)
        ensures
            r == self@.skipped,
    {
        self.skipped
    }

    /// Takes one more line of the text.
    pub fn feed_line(&mut self, line: &str)
        requires
            old(self)@.skipped < usize::MAX,
        ensures
            final(self)@ == scan_line(old(self)@, line@),
    {
        let parts = split_line(line);
        let is_open = match parts {
            Ok((k, v)) => str_eq(k, "BEGIN") && str_eq(v, "VEVENT"),
            Err(_) => false,
        };
        let is_close = match parts {
            Ok((k, _)) => str_eq(k, "END"),
            Err(_) => false,
        };
        match self.block.take() {
            None => {
                if is_open {
                    self.block = Some(Block::new());
                }
            },
            Some(mut b) => {
                match parts {
                    Err(_) => {
                        b.broken = true;
                        self.block = Some(b);
                    },
                    Ok((k, v)) => {
                        if is_open {
                            self.skipped = self.skipped + 1;
                            self.block = Some(Block::new());
                        } else if is_close {
                            self.close(b);
                        } else {
                            b.fill(k, v);
                            self.block = Some(b);
                        }
                    },
                }
            },
        }
    }

    fn close(&mut self, b: Block)
        requires
            old(self).block is None,
            old(self)@.skipped < usize::MAX,
        ensures
            final(self)@ == close_block(old(self)@, b@),
    {
        match (b.start, b.end) {
            (Some(start), Some(end)) => {
                if b.broken {
                    self.skipped = self.skipped + 1;
                } else {
                    let ev = Vevent {
                        uid: b.uid,
                        start,
                        end,
                        location: b.location,
                        summary: b.summary,
                        lesson: b.lesson,
                    };
                    let ghost old_events = self.events@;
                    self.events.push(ev);
                    assert(event_views(self.events@) =~= event_views(old_events).push(ev@));
                }
            },
            _ => {
                self.skipped = self.skipped + 1;
            },
        }
    }

    /// Ends the text: a block still open is skipped. Returns the events and the skip count.
    pub fn finish(self) -> (r: (Vec<Vevent>, usize))
        requires
            final_skipped(self@) <= usize::MAX,
        ensures
            event_views(r.0@) == self@.events,
            r.1 == final_skipped(self@),
    {
        let skipped = if self.block.is_some() {
            self.skipped + 1
        } else {
            self.skipped
        };
        (self.events, skipped)
    }
}

/// The events of calendar text given as lines, and the number of blocks skipped as malformed.
pub struct ParsedCalendar {
    pub events: Vec<Vevent>,
    pub skipped: usize,
}

/// Reads the events of calendar text given as lines. A block with a malformed line, an invalid
/// date-time literal or no start or end is skipped and counted, and reading goes on after it.
pub fn parse_events(lines: &Vec<String>) -> (r: ParsedCalendar)
    ensures
        event_views(r.events@) == scan_prefix(line_views(lines@), lines@.len() as int).events,
        r.skipped == final_skipped(scan_prefix(line_views(lines@), lines@.len() as int)),
{
    let mut sc = Scanner::new();
    let mut i: usize = 0;
    while i < lines.len()
        invariant
            i <= lines@.len(),
            sc@ == scan_prefix(line_views(lines@), i as int),
        decreases lines@.len() - i,
    {
        let line: &str = lines[i].as_str();
        proof {
            lemma_scan_skipped_bound(line_views(lines@), i as int);
        }
        sc.feed_line(line);
        proof {
            assert(line_views(lines@)[i as int] == line@);
            lemma_scan_skipped_bound(line_views(lines@), i + 1);
        }
        i = i + 1;
    }
    proof {
        lemma_scan_skipped_bound(line_views(lines@), lines@.len() as int);
    }
    let (events, skipped) = sc.finish();
    ParsedCalendar { events, skipped }
}

/// Whatever block a scan has left open, a `BEGIN:VEVENT` line starts a fresh block and keeps
/// every event read so far; an unfinished block is counted as skipped. A malformed block thus
/// has no bearing on the blocks that follow it.
pub proof fn lemma_open_line_restarts(st: ScanModel, line: Seq<char>)
    requires
        opens_block(line),
    ensures
        scan_line(st, line).block == Some(empty_block()),
        scan_line(st, line).events == st.events,
        scan_line(st, line).skipped == final_skipped(st),
{
}

/// A scan of `n` lines has skipped at most `n` blocks, and at most `n - 1` while a block is open.
pub proof fn lemma_scan_skipped_bound(lines: Seq<Seq<char>>, n: int)
    requires
        0 <= n,
    ensures
        final_skipped(scan_prefix(lines, n)) <= n,
    decreases n,
{
    if n > 0 {
        lemma_scan_skipped_bound(lines, n - 1);
    }
}

/// The events of `events` that start on `date`, in ascending order of start, ties broken by
/// end.
pub fn get_events_by_date<'a>(events: &'a Vec<Vevent>, date_tuple: (u32, u32, u32)) -> (r: Vec<
    &'a Vevent,
>)
    ensures
        sorted_by_key(deref_all(r@)),
        deref_all(r@).to_multiset() == starting_within(events@, date_tuple, date_tuple).to_multiset(),
        ties_in_order(deref_all(r@), starting_within(events@, date_tuple, date_tuple)),
        forall|k: int| 0 <= k < r@.len() ==> date_of(r@[k].start) == date_tuple,
{
    let r = select_sorted(events, date_tuple, date_tuple);
    proof {
        assert forall|k: int| 0 <= k < r@.len() implies date_of(r@[k].start) == date_tuple by {
            let e = deref_all(r@)[k];
            let within = starting_within(events@, date_tuple, date_tuple);
            assert(deref_all(r@).contains(e));
            to_multiset_contains(deref_all(r@), e);
            to_multiset_contains(within, e);
            let j = choose|j: int| 0 <= j < within.len() && within[j] == e;
            events@.lemma_filter_pred(|e: Vevent| in_span(e.start_spec(), date_tuple, date_tuple), j);
        }
    }
    r
}

} // verus!
