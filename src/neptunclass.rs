use vstd::prelude::*;
use crate::calendar::Timed;
use crate::event_parser::{EventModel, Vevent};
use crate::icstime::{ICSTime, ParseError};
use crate::text::{
    after, before, find, occurs, padded2, padded2_text, split_char, split_on_char, split_once,
    string_views,
};

verus! {

/// A class of a timetable, read from the composite summary
/// `NAME ( - CODE) - TEACHER1;TEACHER2;... - REST` of an event.
pub struct NeptunClass {
    pub name: String,
    pub code: String,
    pub teachers: Vec<String>,
    pub start: ICSTime,
    pub end: ICSTime,
    pub location: String,
}

/// The value of a class, with its text fields as character sequences.
pub struct ClassModel {
    pub name: Seq<char>,
    pub code: Seq<char>,
    pub teachers: Seq<Seq<char>>,
    pub start: ICSTime,
    pub end: ICSTime,
    pub location: Seq<char>,
}

impl View for NeptunClass {
    type V = ClassModel;

    open spec fn view(&self) -> ClassModel {
        ClassModel {
            name: self.name@,
            code: self.code@,
            teachers: string_views(self.teachers@),
            start: self.start,
            end: self.end,
            location: self.location@,
        }
    }
}

impl PartialEq for NeptunClass {
    /// Two classes are equal when their course codes match, whatever their times.
    fn eq(&self, other: &NeptunClass) -> (r: bool) {
        self.code == other.code
    }
}

impl vstd::std_specs::cmp::PartialEqSpecImpl for NeptunClass {
    open spec fn obeys_eq_spec() -> bool {
        true
    }

    open spec fn eq_spec(&self, other: &NeptunClass) -> bool {
        self.code@ == other.code@
    }
}

impl Timed for NeptunClass {
    open spec fn start_spec(&self) -> ICSTime {
        self.start
    }

    open spec fn end_spec(&self) -> ICSTime {
        self.end
    }

    /// Classes sort by start alone; equal starts keep their order.
    open spec fn sort_key(&self) -> (ICSTime, ICSTime) {
        (self.start, self.start)
    }

    fn start_exec(&self) -> (r: ICSTime) {
        self.start
    }

    fn end_exec(&self) -> (r: ICSTime) {
        self.end
    }

    fn sort_key_exec(&self) -> (r: (ICSTime, ICSTime)) {
        (self.start, self.start)
    }
}

pub open spec fn name_sep() -> Seq<char> {
    " ( - "@
}

pub open spec fn code_sep() -> Seq<char> {
    ") - "@
}

pub open spec fn teacher_sep() -> Seq<char> {
    " - "@
}

/// Whether a summary carries both separators that the decomposition needs.
pub open spec fn summary_decomposes(s: Seq<char>) -> bool {
    occurs(s, name_sep()) && occurs(after(s, name_sep()), code_sep())
}

pub open spec fn summary_name(s: Seq<char>) -> Seq<char> {
    before(s, name_sep())
}

pub open spec fn summary_code(s: Seq<char>) -> Seq<char> {
    before(after(s, name_sep()), code_sep())
}

pub open spec fn summary_teachers(s: Seq<char>) -> Seq<Seq<char>> {
    let rest = after(after(s, name_sep()), code_sep());
    split_char(before(rest, teacher_sep()), ';')
}

/// The class model that a summary, times and location give, when the summary decomposes.
pub open spec fn class_model(
    summary: Seq<char>,
    start: ICSTime,
    end: ICSTime,
    location: Seq<char>,
) -> ClassModel {
    ClassModel {
        name: summary_name(summary),
        code: summary_code(summary),
        teachers: summary_teachers(summary),
        start,
        end,
        location,
    }
}

/// The classes of a sequence of events: one for each lesson whose summary decomposes, in order.
pub open spec fn classes_of(evs: Seq<EventModel>) -> Seq<ClassModel>
    decreases evs.len(),
{
    if evs.len() == 0 {
        Seq::empty()
    } else {
        let e = evs.last();
        if e.lesson && summary_decomposes(e.summary) {
            classes_of(evs.drop_last()).push(class_model(e.summary, e.start, e.end, e.location))
        } else {
            classes_of(evs.drop_last())
        }
    }
}

pub open spec fn class_views(s: Seq<NeptunClass>) -> Seq<ClassModel> {
    s.map_values(|c: NeptunClass| c@)
}

/// The time of day of a time value as `HH:MM`.
pub open spec fn clock_text(t: ICSTime) -> Seq<char> {
    padded2(t.hour as nat) + seq![':'] + padded2(t.min as nat)
}

/// A rule of `n` equal signs.
pub open spec fn rule(n: nat) -> Seq<char> {
    Seq::new(n, |i: int| '=')
}

fn rule_text(n: usize) -> (r: String)
    ensures
        r@ == rule(n as nat),
{
    let mut r = String::new();
    let eq = "=";
    proof {
        reveal_strlit("=");
    }
    let mut i: usize = 0;
    while i < n
        invariant
            i <= n,
            eq@ == seq!['='],
            r@ == rule(i as nat),
        decreases n - i,
    {
        r.append(eq);
        i = i + 1;
        assert(r@ =~= rule(i as nat));
    }
    r
}

/// Pieces joined with `;` between each two.
pub open spec fn join_semicolon(s: Seq<Seq<char>>) -> Seq<char>
    decreases s.len(),
{
    if s.len() == 0 {
        Seq::empty()
    } else if s.len() == 1 {
        s[0]
    } else {
        join_semicolon(s.drop_last()) + seq![';'] + s.last()
    }
}

/// The time of day of a time value as `HH:MM`.
pub fn clock(t: &ICSTime) -> (r: String)
    ensures
        r@ == clock_text(*t),
{
    let mut r = padded2_text(t.hour);
    let colon = ":";
    proof {
        reveal_strlit(":");
    }
    r.append(colon);
    let m = padded2_text(t.min);
    r.append(m.as_str());
    assert(r@ =~= clock_text(*t));
    r
}

/// Texts joined with `;` between each two.
pub fn join_semicolon_exec(parts: &Vec<String>) -> (r: String)
    ensures
        r@ == join_semicolon(string_views(parts@)),
{
    let mut r = String::new();
    if parts.len() == 0 {
        return r;
    }
    r.append(parts[0].as_str());
    let semi = ";";
    proof {
        reveal_strlit(";");
        assert(string_views(parts@).subrange(0, 1).drop_last() =~= Seq::empty());
    }
    let mut i: usize = 1;
    while i < parts.len()
        invariant
            1 <= i <= parts@.len(),
            semi@ == seq![';'],
            r@ == join_semicolon(string_views(parts@).subrange(0, i as int)),
        decreases parts@.len() - i,
    {
        r.append(semi);
        r.append(parts[i].as_str());
        proof {
            let v = string_views(parts@);
            assert(v.subrange(0, i + 1).drop_last() =~= v.subrange(0, i as int));
        }
        i = i + 1;
    }
    proof {
        assert(string_views(parts@).subrange(0, parts@.len() as int) =~= string_views(parts@));
    }
    r
}

/// The classes of a list of events: one for each lesson whose summary decomposes, in order.
/// Other events, and lessons whose summary lacks a separator, are left out.
pub fn get_classes(events: &Vec<Vevent>) -> (r: Vec<NeptunClass>)
    ensures
        class_views(r@) == classes_of(events@.map_values(|e: Vevent| e@)),
{
    let ghost evs = events@.map_values(|e: Vevent| e@);
    let mut r: Vec<NeptunClass> = Vec::new();
    let mut i: usize = 0;
    proof {
        assert(evs.subrange(0, 0) =~= Seq::empty());
        assert(class_views(r@) =~= Seq::empty());
    }
    while i < events.len()
        invariant
            i <= events@.len(),
            evs == events@.map_values(|e: Vevent| e@),
            class_views(r@) == classes_of(evs.subrange(0, i as int)),
        decreases events@.len() - i,
    {
        let ghost old_r = r@;
        proof {
            assert(evs.subrange(0, i + 1).drop_last() =~= evs.subrange(0, i as int));
        }
        if events[i].lesson {
            match NeptunClass::from_event(&events[i]) {
                Ok(c) => {
                    r.push(c);
                    assert(class_views(r@) =~= class_views(old_r).push(c@));
                },
                Err(_) => {},
            }
        }
        i = i + 1;
    }
    proof {
        assert(evs.subrange(0, events@.len() as int) =~= evs);
    }
    r
}

impl NeptunClass {
    /// The class of an event whose summary decomposes.
    pub fn from_event(ev: &Vevent) -> (r: Result<NeptunClass, ParseError>)
        ensures
            r is Ok <==> summary_decomposes(ev.summary@),
            r matches Err(e) ==> e == ParseError::MissingField,
            r matches Ok(c) ==> c@ == class_model(ev.summary@, ev.start, ev.end, ev.location@),
    {
        NeptunClass::new(ev.summary.as_str(), ev.start, ev.end, ev.location.clone())
    }

    /// The five columns of the class on lines of their own, between two rules of `=` as long as
    /// the name.
    pub fn to_text(&self) -> (r: String)
        ensures
            r@ == rule(self.name@.len()) + "\n"@ + self.name@ + "\n"@ + self.code@ + "\n"@
                + clock_text(self.start) + " - "@ + clock_text(self.end) + "\n"@ + self.location@
                + "\n"@ + join_semicolon(string_views(self.teachers@)) + "\n"@ + rule(
                self.name@.len(),
            ),
    {
        let cols = self.string_array();
        let n = self.name.as_str().unicode_len();
        let bar = rule_text(n);
        let mut r = bar.clone();
        r.append("\n");
        r.append(cols[0].as_str());
        r.append("\n");
        r.append(cols[1].as_str());
        r.append("\n");
        r.append(cols[2].as_str());
        r.append("\n");
        r.append(cols[3].as_str());
        r.append("\n");
        r.append(cols[4].as_str());
        r.append("\n");
        r.append(bar.as_str());
        r
    }

    /// The five columns shown for a class: name, code, `HH:MM - HH:MM`, location, and the
    /// teachers joined with `;`.
    pub fn string_array(&self) -> (r: [String; 5])
        ensures
            r@[0]@ == self.name@,
            r@[1]@ == self.code@,
            r@[2]@ == clock_text(self.start) + " - "@ + clock_text(self.end),
            r@[3]@ == self.location@,
            r@[4]@ == join_semicolon(string_views(self.teachers@)),
    {
        let mut span = clock(&self.start);
        span.append(" - ");
        let e = clock(&self.end);
        span.append(e.as_str());
        [
            self.name.clone(),
            self.code.clone(),
            span,
            self.location.clone(),
            join_semicolon_exec(&self.teachers),
        ]
    }

    /// Reads a class from its composite summary, its start and end and its location. Fails with
    /// `MissingField` when the summary lacks the name or the code separator.
    pub fn new(summary: &str, start: ICSTime, end: ICSTime, location: String) -> (r: Result<
        NeptunClass,
        ParseError,
    >)
        ensures
            r is Ok <==> summary_decomposes(summary@),
            r matches Err(e) ==> e == ParseError::MissingField,
            r matches Ok(c) ==> c@ == (ClassModel {
                name: summary_name(summary@),
                code: summary_code(summary@),
                teachers: summary_teachers(summary@),
                start,
                end,
                location: location@,
            }),
    {
        proof {
            reveal_strlit(" ( - ");
            reveal_strlit(") - ");
            reveal_strlit(" - ");
            reveal_strlit(";");
        }
        let n = summary.unicode_len();
        if find(summary, " ( - ") == n {
            return Err(ParseError::MissingField);
        }
        let (name, rest) = split_once(summary, " ( - ");
        if find(rest, ") - ") == rest.unicode_len() {
            return Err(ParseError::MissingField);
        }
        let (code, rest2) = split_once(rest, ") - ");
        let (teacher_list, _) = split_once(rest2, " - ");
        let teachers = split_on_char(teacher_list, ";");
        Ok(
            NeptunClass {
                name: String::from_str(name),
                code: String::from_str(code),
                teachers,
                start,
                end,
                location,
            },
        )
    }
}

} // verus!
