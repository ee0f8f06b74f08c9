//! The configuration that is kept between runs: a few global entries, and one
//! section of entries for each configured provider. It is written and read
//! as an INI text.

use core::convert::Infallible;
use light_ini::{IniError, IniHandler, IniParser};
use vstd::prelude::*;
use vstd::string::*;

use crate::text_map::{ordered_keys, TextMap};

verus! {

/// One group of entries, each a text under a key. Keys are case-sensitive
/// and come in order.
pub type Section = TextMap<String>;

/// The whole configuration.
#[derive(Debug)]
pub struct Config {
    /// Entries that belong to no provider
    pub globals: Section,
    /// The providers' sections, by provider name
    pub sections: TextMap<Section>,
}

/// What a configuration holds.
#[verifier::ext_equal]
pub struct ConfigView {
    pub globals: Map<Seq<char>, Seq<char>>,
    pub sections: Map<Seq<char>, Map<Seq<char>, Seq<char>>>,
}

impl View for Config {
    type V = ConfigView;

    open spec fn view(&self) -> ConfigView {
        ConfigView { globals: self.globals@, sections: self.sections@ }
    }
}

/// The line that writes one entry.
pub open spec fn entry_line(key: Seq<char>, value: Seq<char>) -> Seq<char> {
    key + " = "@ + value + "\n"@
}

/// The lines that write the first `count` entries of `section`, by key in
/// order.
pub open spec fn entry_lines(section: Map<Seq<char>, Seq<char>>, count: int) -> Seq<char>
    decreases count,
{
    if count <= 0 {
        Seq::empty()
    } else {
        let key = ordered_keys(section.dom())[count - 1];
        entry_lines(section, count - 1) + entry_line(key, section[key])
    }
}

/// The line that opens the section `name`.
pub open spec fn heading(name: Seq<char>) -> Seq<char> {
    "["@ + name + "]\n"@
}

/// The text that writes `section`: its heading where it has a name, its
/// entries, and an empty line. A section without entries is not written.
pub open spec fn section_text(name: Option<Seq<char>>, section: Map<Seq<char>, Seq<char>>) -> Seq<
    char,
> {
    if section == Map::<Seq<char>, Seq<char>>::empty() {
        Seq::empty()
    } else {
        let head = match name {
            Some(name) => heading(name),
            None => Seq::empty(),
        };
        head + entry_lines(section, section.dom().len() as int) + "\n"@
    }
}

/// The text that writes the first `count` of `sections`, by name in order.
pub open spec fn sections_text(
    sections: Map<Seq<char>, Map<Seq<char>, Seq<char>>>,
    count: int,
) -> Seq<char>
    decreases count,
{
    if count <= 0 {
        Seq::empty()
    } else {
        let name = ordered_keys(sections.dom())[count - 1];
        sections_text(sections, count - 1) + section_text(Some(name), sections[name])
    }
}

/// The text that writes `config`: the global entries without a heading,
/// then each provider's section under its name.
pub open spec fn config_text(config: ConfigView) -> Seq<char> {
    section_text(None, config.globals) + sections_text(
        config.sections,
        config.sections.dom().len() as int,
    )
}

fn push_section(out: &mut String, name: Option<&str>, section: &Section)
    ensures
        final(out)@ == old(out)@ + section_text(
            match name {
                Some(name) => Some(name@),
                None => None,
            },
            section@,
        ),
{
    if section.is_empty() {
        assert(out@ =~= old(out)@ + Seq::<char>::empty());
        return ;
    }
    match name {
        Some(name) => {
            out.append("[");
            out.append(name);
            out.append("]\n");
        },
        None => {},
    }
    let ghost start = out@;
    let count = section.len();
    let mut i: usize = 0;
    while i < count
        invariant
            i <= count,
            count == section@.dom().len(),
            out@ == start + entry_lines(section@, i as int),
        decreases count - i,
    {
        out.append(section.key_at(i).as_str());
        out.append(" = ");
        out.append(section.value_at(i).as_str());
        out.append("\n");
        i = i + 1;
        assert(out@ =~= start + entry_lines(section@, i as int));
    }
    out.append("\n");
    assert(out@ =~= old(out)@ + section_text(
        match name {
            Some(name) => Some(name@),
            None => None,
        },
        section@,
    ));
}

impl Config {
    /// A configuration that holds nothing.
    pub fn new() -> (r: Self)
        ensures
            r@.globals == Map::<Seq<char>, Seq<char>>::empty(),
            r@.sections == Map::<Seq<char>, Map<Seq<char>, Seq<char>>>::empty(),
    {
        Config { globals: TextMap::new(), sections: TextMap::new() }
    }

    /// Writes the configuration as an INI text.
    pub fn to_string(&self) -> (r: String)
        ensures
            r@ == config_text(self@),
    {
        let mut out = String::new();
        push_section(&mut out, None, &self.globals);
        let ghost start = out@;
        let count = self.sections.len();
        let mut i: usize = 0;
        while i < count
            invariant
                i <= count,
                count == self.sections@.dom().len(),
                out@ == start + sections_text(self.sections@, i as int),
            decreases count - i,
        {
            push_section(&mut out, Some(self.sections.key_at(i).as_str()), self.sections.value_at(i));
            i = i + 1;
            assert(out@ =~= start + sections_text(self.sections@, i as int));
        }
        out
    }
}

/// One thing that an INI text holds, as its reader reports it.
#[derive(Debug, PartialEq, Eq)]
pub enum IniEvent {
    /// A section begins: its name
    Section(String),
    /// An entry: its key and its value
    Option(String, String),
}

/// What an `IniEvent` says.
pub enum IniEventView {
    Section(Seq<char>),
    Option(Seq<char>, Seq<char>),
}

impl View for IniEvent {
    type V = IniEventView;

    open spec fn view(&self) -> IniEventView {
        match self {
            IniEvent::Section(name) => IniEventView::Section(name@),
            IniEvent::Option(key, value) => IniEventView::Option(key@, value@),
        }
    }
}

/// What `events` say, in their order.
pub open spec fn event_views(events: Seq<IniEvent>) -> Seq<IniEventView> {
    Seq::new(events.len(), |i: int| events[i]@)
}

/// Why a text is no INI text.
#[derive(Clone, Copy, Debug, PartialEq, Eq, Structural)]
pub enum IniFault {
    /// The line of this number, counted from one, is neither empty nor a
    /// comment, a heading or an entry
    InvalidLine(usize),
    /// The reading stopped before the end of the text
    Interrupted,
}

/// What the parser of `light_ini`, with `#` as the mark of a comment, makes
/// of `text`: the headings and entries that it reports, in their order, or
/// the fault that it ends with.
pub uninterp spec fn ini_scan(text: Seq<char>) -> Result<Seq<IniEventView>, IniFault>;

/// What `scanned` says.
pub open spec fn scan_view(scanned: Result<Vec<IniEvent>, IniFault>) -> Result<
    Seq<IniEventView>,
    IniFault,
> {
    match scanned {
        Ok(events) => Ok(event_views(events@)),
        Err(fault) => Err(fault),
    }
}

struct Recorder {
    events: Vec<IniEvent>,
}

impl IniHandler for Recorder {
    type Error = Infallible;

    fn section(&mut self, name: &str) -> (r: Result<(), Infallible>)
        ensures
            r is Ok,
            final(self)@ == old(self)@.push(IniEventView::Section(name@)),
    {
        self.events.push(IniEvent::Section(name.to_owned()));
        assert(self@ =~= old(self)@.push(IniEventView::Section(name@)));
        Ok(())
    }

    fn option(&mut self, key: &str, value: &str) -> (r: Result<(), Infallible>)
        ensures
            r is Ok,
            final(self)@ == old(self)@.push(IniEventView::Option(key@, value@)),
    {
        self.events.push(IniEvent::Option(key.to_owned(), value.to_owned()));
        assert(self@ =~= old(self)@.push(IniEventView::Option(key@, value@)));
        Ok(())
    }
}

impl View for Recorder {
    type V = Seq<IniEventView>;

    closed spec fn view(&self) -> Seq<IniEventView> {
        event_views(self.events@)
    }
}

/// Runs `light_ini::IniParser::parse` on `text`, with `#` as the mark of a
/// comment and a handler that notes each heading and entry reported. The
/// contract claims only that what comes back is the parser's reading of
/// this text, under the name `ini_scan`: the same text is read the same way
/// every time.
#[verifier::external_body]
fn scan_ini(text: &str) -> (r: Result<Vec<IniEvent>, IniFault>)
    ensures
        scan_view(r) == ini_scan(text@),
{
    let mut recorder = Recorder { events: Vec::new() };
    let outcome = IniParser::with_start_comment(&mut recorder, '#').parse(text.as_bytes());
    match outcome {
        Ok(()) => Ok(recorder.events),
        Err(IniError::InvalidLine(line)) => Err(IniFault::InvalidLine(line)),
        Err(IniError::Handler(_)) => Err(IniFault::Interrupted),
        Err(IniError::Io(_)) => Err(IniFault::Interrupted),
    }
}

/// Entries in the order in which they were read.
pub type HandleSection = Vec<(String, String)>;

/// What entries say, in their order.
pub open spec fn pair_views(pairs: Seq<(String, String)>) -> Seq<(Seq<char>, Seq<char>)> {
    Seq::new(pairs.len(), |i: int| (pairs[i].0@, pairs[i].1@))
}

/// What named groups of entries say, in their order.
pub open spec fn group_views(groups: Seq<(String, HandleSection)>) -> Seq<
    (Seq<char>, Seq<(Seq<char>, Seq<char>)>),
> {
    Seq::new(groups.len(), |i: int| (groups[i].0@, pair_views(groups[i].1@)))
}

/// Puts a configuration together from the headings and entries of an INI
/// text, as they come.
#[derive(Debug)]
pub struct IniVisitor {
    globals: HandleSection,
    sections: Vec<(String, HandleSection)>,
    current_name: Option<String>,
    current_items: HandleSection,
}

/// What an `IniVisitor` has been given so far.
#[verifier::ext_equal]
pub struct IniVisitorView {
    /// The entries that stand before the first heading
    pub globals: Seq<(Seq<char>, Seq<char>)>,
    /// The sections that are complete, each with its entries
    pub sections: Seq<(Seq<char>, Seq<(Seq<char>, Seq<char>)>)>,
    /// The heading under which entries are being read, if one was met
    pub current_name: Option<Seq<char>>,
    /// The entries read since that heading, or since the beginning
    pub current_items: Seq<(Seq<char>, Seq<char>)>,
}

impl View for IniVisitor {
    type V = IniVisitorView;

    closed spec fn view(&self) -> IniVisitorView {
        IniVisitorView {
            globals: pair_views(self.globals@),
            sections: group_views(self.sections@),
            current_name: match self.current_name {
                Some(name) => Some(name@),
                None => None,
            },
            current_items: pair_views(self.current_items@),
        }
    }
}

/// A visitor that has been given nothing.
pub open spec fn fresh() -> IniVisitorView {
    IniVisitorView {
        globals: Seq::empty(),
        sections: Seq::empty(),
        current_name: None,
        current_items: Seq::empty(),
    }
}

/// The visitor once the entries being read are put away: under their
/// heading as one more section, or as the global entries where no heading
/// was met. Where no entry was read since the heading, the heading is
/// forgotten and nothing is put away.
pub open spec fn flushed(visitor: IniVisitorView) -> IniVisitorView {
    if visitor.current_items.len() == 0 {
        IniVisitorView { current_name: None, ..visitor }
    } else {
        match visitor.current_name {
            Some(name) => IniVisitorView {
                sections: visitor.sections.push((name, visitor.current_items)),
                current_name: None,
                current_items: Seq::empty(),
                ..visitor
            },
            None => IniVisitorView {
                globals: visitor.current_items,
                current_name: None,
                current_items: Seq::empty(),
                ..visitor
            },
        }
    }
}

/// The visitor after one more heading or entry.
pub open spec fn after_event(visitor: IniVisitorView, event: IniEventView) -> IniVisitorView {
    match event {
        IniEventView::Section(name) => IniVisitorView {
            current_name: Some(name),
            ..flushed(visitor)
        },
        IniEventView::Option(key, value) => IniVisitorView {
            current_items: visitor.current_items.push((key, value)),
            ..visitor
        },
    }
}

/// The visitor after the first `count` of `events`.
pub open spec fn after_events(
    visitor: IniVisitorView,
    events: Seq<IniEventView>,
    count: int,
) -> IniVisitorView
    decreases count,
{
    if count <= 0 {
        visitor
    } else {
        after_event(after_events(visitor, events, count - 1), events[count - 1])
    }
}

/// The section that holds the entries `pairs`: of two entries with one key
/// the later one stays.
pub open spec fn section_of(pairs: Seq<(Seq<char>, Seq<char>)>) -> Map<Seq<char>, Seq<char>>
    decreases pairs.len(),
{
    if pairs.len() == 0 {
        Map::empty()
    } else {
        section_of(pairs.drop_last()).insert(pairs.last().0, pairs.last().1)
    }
}

/// The sections that `groups` make: of two groups with one name the later
/// one stays, and the entries of the earlier one are lost.
pub open spec fn sections_of(groups: Seq<(Seq<char>, Seq<(Seq<char>, Seq<char>)>)>) -> Map<
    Seq<char>,
    Map<Seq<char>, Seq<char>>,
>
    decreases groups.len(),
{
    if groups.len() == 0 {
        Map::empty()
    } else {
        sections_of(groups.drop_last()).insert(groups.last().0, section_of(groups.last().1))
    }
}

/// The configuration that a visitor makes of what it has been given.
pub open spec fn built(visitor: IniVisitorView) -> ConfigView {
    let done = flushed(visitor);
    ConfigView { globals: section_of(done.globals), sections: sections_of(done.sections) }
}

/// The configuration that the headings and entries `events` make.
pub open spec fn config_of_events(events: Seq<IniEventView>) -> ConfigView {
    built(after_events(fresh(), events, events.len() as int))
}

fn section_from(pairs: &HandleSection) -> (r: Section)
    ensures
        r@ == section_of(pair_views(pairs@)),
{
    let ghost all = pair_views(pairs@);
    let mut section: Section = TextMap::new();
    let mut i: usize = 0;
    while i < pairs.len()
        invariant
            i <= pairs@.len(),
            all == pair_views(pairs@),
            section@ == section_of(all.take(i as int)),
        decreases pairs@.len() - i,
    {
        proof {
            assert(all.take(i + 1).drop_last() =~= all.take(i as int));
            assert(all.take(i + 1).last() == all[i as int]);
        }
        section.insert(pairs[i].0.clone(), pairs[i].1.clone());
        i = i + 1;
    }
    proof {
        assert(all.take(i as int) =~= all);
    }
    section
}

impl IniVisitor {
    /// A visitor that has been given nothing.
    pub fn new() -> (r: Self)
        ensures
            r@ == fresh(),
    {
        let r = IniVisitor {
            globals: Vec::new(),
            sections: Vec::new(),
            current_name: None,
            current_items: Vec::new(),
        };
        assert(r@ =~= fresh());
        r
    }

    /// Puts away the entries that are being read.
    pub fn flush_current(&mut self)
        ensures
            final(self)@ == flushed(old(self)@),
    {
        let mut name: Option<String> = None;
        let mut items: HandleSection = Vec::new();
        core::mem::swap(&mut name, &mut self.current_name);
        core::mem::swap(&mut items, &mut self.current_items);
        if items.len() == 0 {
            assert(self@ =~= flushed(old(self)@));
            return ;
        }
        match name {
            Some(name) => {
                self.sections.push((name, items));
                assert(self@ =~= flushed(old(self)@));
            },
            None => {
                self.globals = items;
                assert(self@ =~= flushed(old(self)@));
            },
        }
    }

    /// Takes note of a heading.
    pub fn section(&mut self, name: &str)
        ensures
            final(self)@ == after_event(old(self)@, IniEventView::Section(name@)),
    {
        self.flush_current();
        self.current_name = Some(name.to_owned());
        assert(self@ =~= after_event(old(self)@, IniEventView::Section(name@)));
    }

    /// Takes note of an entry.
    pub fn option(&mut self, key: &str, value: &str)
        ensures
            final(self)@ == after_event(old(self)@, IniEventView::Option(key@, value@)),
    {
        self.current_items.push((key.to_owned(), value.to_owned()));
        assert(self@ =~= after_event(old(self)@, IniEventView::Option(key@, value@)));
    }

    /// The configuration made of what the visitor has been given.
    pub fn build(self) -> (r: Config)
        ensures
            r@ == built(self@),
    {
        let mut visitor = self;
        visitor.flush_current();
        let globals = section_from(&visitor.globals);
        let ghost groups = group_views(visitor.sections@);
        let mut sections: TextMap<Section> = TextMap::new();
        let mut i: usize = 0;
        while i < visitor.sections.len()
            invariant
                i <= visitor.sections@.len(),
                groups == group_views(visitor.sections@),
                sections@ == sections_of(groups.take(i as int)),
            decreases visitor.sections@.len() - i,
        {
            proof {
                assert(groups.take(i + 1).drop_last() =~= groups.take(i as int));
                assert(groups.take(i + 1).last() == groups[i as int]);
            }
            let section = section_from(&visitor.sections[i].1);
            sections.insert(visitor.sections[i].0.clone(), section);
            i = i + 1;
        }
        proof {
            assert(groups.take(i as int) =~= groups);
        }
        Config { globals, sections }
    }
}

impl Config {
    /// The configuration that the headings and entries `events` make, taken
    /// in their order.
    pub fn from_events(events: &Vec<IniEvent>) -> (r: Self)
        ensures
            r@ == config_of_events(event_views(events@)),
    {
        let ghost all = event_views(events@);
        let mut visitor = IniVisitor::new();
        let mut i: usize = 0;
        while i < events.len()
            invariant
                i <= events@.len(),
                all == event_views(events@),
                visitor@ == after_events(fresh(), all, i as int),
            decreases events@.len() - i,
        {
            match &events[i] {
                IniEvent::Section(name) => {
                    visitor.section(name.as_str());
                },
                IniEvent::Option(key, value) => {
                    visitor.option(key.as_str(), value.as_str());
                },
            }
            i = i + 1;
        }
        visitor.build()
    }

    /// Reads a configuration from an INI text, in which `#` begins a
    /// comment. The headings and entries are found by `light_ini`; the
    /// configuration made of them is that of `from_events`.
    pub fn from_str(s: &str) -> (r: Result<Self, IniFault>)
        ensures
            match ini_scan(s@) {
                Ok(events) => r matches Ok(config) && config@ == config_of_events(events),
                Err(fault) => r matches Err(e) && e == fault,
            },
    {
        match scan_ini(s) {
            Ok(events) => Ok(Config::from_events(&events)),
            Err(fault) => Err(fault),
        }
    }
}

} // verus!
