use vstd::prelude::*;

use crate::map_laws::{
    law_settle_stops_at_first_failure, lemma_signs_push_warning, lemma_step_keeps_refs, number_signs,
    scan_refs_ok, state_refs_ok, warnings_in,
};
use crate::svg::{
    item_view, next_item, svg_tokenizer, svg_tokens_left, svg_tokens_of, ElementEndKind, ItemView,
    MapToken, SvgError, SvgItem, SvgName, SvgToken, TokenView,
};

verus! {

/// The file the map is read from.
pub const MAP_FILE: &'static str = "map.svg";

/// A warning the map reader gives on a map it can still use.
#[derive(Debug, Clone, Copy, PartialEq, Eq)]
pub enum MapWarning {
    /// A second start circle replaces the first.
    StartRedefined,
    /// A circle closes without the attributes it needs.
    IncompleteCircle,
    /// A rectangle closes without the attributes it needs.
    IncompleteRect,
    /// The map has no start circle.
    NoStart,
}

/// The line printed for a warning.
pub open spec fn warning_text(w: MapWarning) -> Seq<char> {
    match w {
        MapWarning::StartRedefined => "WARGNING: svg map redefinition of start"@,
        MapWarning::IncompleteCircle => "WARGNING: svg map incomplete circle definition"@,
        MapWarning::IncompleteRect => "WARGNING: svg map incomplete rect definition"@,
        MapWarning::NoStart => "WARGNING: svg map no start definition"@,
    }
}

impl MapWarning {
    /// The line printed for this warning.
    pub fn message(&self) -> (s: &'static str)
        ensures
            s@ == warning_text(*self),
    {
        match self {
            MapWarning::StartRedefined => "WARGNING: svg map redefinition of start",
            MapWarning::IncompleteCircle => "WARGNING: svg map incomplete circle definition",
            MapWarning::IncompleteRect => "WARGNING: svg map incomplete rect definition",
            MapWarning::NoStart => "WARGNING: svg map no start definition",
        }
    }
}

/// What the program does, in order, to turn a scanned map into its bodies.
/// `S` is the text type: `String` in executable code, `Seq<char>` in
/// specifications.
#[derive(Debug, Clone, PartialEq, Eq)]
pub enum ScanEvent<S> {
    /// Parse `text` as a number, negated when `negated` is set (the SVG `y`
    /// axis points down, the game's up). Numbers are indexed from 0 in the
    /// order of their events; bodies and the start refer to them by index.
    Number { text: S, negated: bool },
    /// Print the warning.
    Warning(MapWarning),
}

impl View for ScanEvent<String> {
    type V = ScanEvent<Seq<char>>;

    open spec fn view(&self) -> ScanEvent<Seq<char>> {
        match self {
            ScanEvent::Number { text, negated } => ScanEvent::Number { text: text@, negated: *negated },
            ScanEvent::Warning(w) => ScanEvent::Warning(*w),
        }
    }
}

/// A body of the map; each field is the index of the number that gives it.
#[derive(Debug, Clone, Copy, PartialEq, Eq)]
pub enum BodyDef {
    /// A circle centred on (`x`, `y`) with radius `r`.
    Circle { x: usize, y: usize, r: usize },
    /// A rectangle whose top left corner is (`x`, `y`).
    Rect { x: usize, y: usize, width: usize, height: usize },
}

/// A `<circle` being read: whether its id is `start`, and the numbers that
/// give its centre and radius so far.
#[derive(Debug, Clone, Copy, PartialEq, Eq)]
pub struct PendingCircle {
    pub is_start: bool,
    pub cx: Option<usize>,
    pub cy: Option<usize>,
    pub r: Option<usize>,
}

/// A `<rect` being read: the numbers that give its corner and size so far.
#[derive(Debug, Clone, Copy, PartialEq, Eq)]
pub struct PendingRect {
    pub x: Option<usize>,
    pub y: Option<usize>,
    pub width: Option<usize>,
    pub height: Option<usize>,
}

/// The state of the map reader.
pub struct ReaderState {
    pub circle: Option<PendingCircle>,
    pub rect: Option<PendingRect>,
    pub start: Option<(usize, usize)>,
    pub bodies: Seq<BodyDef>,
    pub events: Seq<ScanEvent<Seq<char>>>,
    /// How many `Number` events there are.
    pub numbers: nat,
}

/// What reading a map gives.
pub struct ScanView {
    pub events: Seq<ScanEvent<Seq<char>>>,
    pub bodies: Seq<BodyDef>,
    pub start: Option<(usize, usize)>,
    pub error: Option<Seq<char>>,
}

pub open spec fn initial_state() -> ReaderState {
    ReaderState {
        circle: None,
        rect: None,
        start: None,
        bodies: Seq::empty(),
        events: Seq::empty(),
        numbers: 0,
    }
}

pub open spec fn empty_circle() -> PendingCircle {
    PendingCircle { is_start: false, cx: None, cy: None, r: None }
}

pub open spec fn empty_rect() -> PendingRect {
    PendingRect { x: None, y: None, width: None, height: None }
}

/// Adds the event that asks for `text` to be parsed as the next number.
pub open spec fn with_number(s: ReaderState, text: Seq<char>, negated: bool) -> ReaderState {
    ReaderState {
        events: s.events.push(ScanEvent::Number { text, negated }),
        numbers: s.numbers + 1,
        ..s
    }
}

/// Adds a warning event.
pub open spec fn with_warning(s: ReaderState, w: MapWarning) -> ReaderState {
    ReaderState { events: s.events.push(ScanEvent::Warning(w)), ..s }
}

/// An attribute of the element being opened: `id`, `cx`, `cy` and `r` count
/// for a circle, `x`, `y`, `width` and `height` for a rectangle; the others,
/// and those of no pending element, change nothing.
pub open spec fn attribute_step(s: ReaderState, name: Seq<char>, value: Seq<char>) -> ReaderState {
    let i = s.numbers as usize;
    if name == "id"@ {
        match s.circle {
            Some(c) => ReaderState { circle: Some(PendingCircle { is_start: value == "start"@, ..c }), ..s },
            None => s,
        }
    } else if name == "cx"@ || name == "cy"@ || name == "r"@ {
        match s.circle {
            Some(c) => {
                let c2 = if name == "cx"@ {
                    PendingCircle { cx: Some(i), ..c }
                } else if name == "cy"@ {
                    PendingCircle { cy: Some(i), ..c }
                } else {
                    PendingCircle { r: Some(i), ..c }
                };
                ReaderState { circle: Some(c2), ..with_number(s, value, name == "cy"@) }
            },
            None => s,
        }
    } else if name == "x"@ || name == "y"@ || name == "width"@ || name == "height"@ {
        match s.rect {
            Some(r) => {
                let r2 = if name == "x"@ {
                    PendingRect { x: Some(i), ..r }
                } else if name == "y"@ {
                    PendingRect { y: Some(i), ..r }
                } else if name == "width"@ {
                    PendingRect { width: Some(i), ..r }
                } else {
                    PendingRect { height: Some(i), ..r }
                };
                ReaderState { rect: Some(r2), ..with_number(s, value, name == "y"@) }
            },
            None => s,
        }
    } else {
        s
    }
}

/// A circle closes: a start circle with its centre sets the start (with a
/// warning when there was one already), a circle with centre and radius
/// becomes a body, any other gives a warning.
pub open spec fn close_circle(s: ReaderState, c: PendingCircle) -> ReaderState {
    if c.is_start && c.cx is Some && c.cy is Some {
        let s2 = if s.start is Some { with_warning(s, MapWarning::StartRedefined) } else { s };
        ReaderState { start: Some((c.cx->Some_0, c.cy->Some_0)), ..s2 }
    } else if !c.is_start && c.cx is Some && c.cy is Some && c.r is Some {
        ReaderState {
            bodies: s.bodies.push(BodyDef::Circle { x: c.cx->Some_0, y: c.cy->Some_0, r: c.r->Some_0 }),
            ..s
        }
    } else {
        with_warning(s, MapWarning::IncompleteCircle)
    }
}

/// A rectangle closes: with corner and size it becomes a body, else it gives
/// a warning.
pub open spec fn close_rect(s: ReaderState, r: PendingRect) -> ReaderState {
    if r.x is Some && r.y is Some && r.width is Some && r.height is Some {
        ReaderState {
            bodies: s.bodies.push(
                BodyDef::Rect { x: r.x->Some_0, y: r.y->Some_0, width: r.width->Some_0, height: r.height->Some_0 },
            ),
            ..s
        }
    } else {
        with_warning(s, MapWarning::IncompleteRect)
    }
}

/// What one token does to the reader: the start of an SVG `circle` or
/// `rect` opens it, an SVG attribute may set a field of what is open, and
/// `/>` closes the open circle, or else the open rectangle. Every other
/// token (other kinds, plain XML names, `>` and `</name>`) changes nothing.
pub open spec fn step(s: ReaderState, t: TokenView) -> ReaderState {
    match t {
        MapToken::ElementStart(SvgName::Svg(name)) => {
            if name == "circle"@ {
                ReaderState { circle: Some(empty_circle()), ..s }
            } else if name == "rect"@ {
                ReaderState { rect: Some(empty_rect()), ..s }
            } else {
                s
            }
        },
        MapToken::Attribute(SvgName::Svg(name), value) => attribute_step(s, name, value),
        MapToken::ElementEnd(ElementEndKind::Empty) => match s.circle {
            Some(c) => close_circle(ReaderState { circle: None, ..s }, c),
            None => match s.rect {
                Some(r) => close_rect(ReaderState { rect: None, ..s }, r),
                None => s,
            },
        },
        _ => s,
    }
}

/// Reads the items of a token stream up to its end or its first error;
/// gives the state reached and the error, if any.
pub open spec fn read_items(s: ReaderState, items: Seq<ItemView>) -> (ReaderState, Option<Seq<char>>)
    decreases items.len(),
{
    if items.len() == 0 {
        (s, None)
    } else {
        match items[0] {
            Ok(t) => read_items(step(s, t), items.drop_first()),
            Err(m) => (s, Some(m)),
        }
    }
}

/// The scan of a reader at the end of the stream: without an error and
/// without a start, the warning that there is no start comes last.
pub open spec fn scan_result(s: ReaderState, error: Option<Seq<char>>) -> ScanView {
    ScanView {
        events: if error is None && s.start is None {
            s.events.push(ScanEvent::Warning(MapWarning::NoStart))
        } else {
            s.events
        },
        bodies: s.bodies,
        start: s.start,
        error,
    }
}

/// The scan of a token stream.
pub open spec fn scan_items(items: Seq<ItemView>) -> ScanView {
    let (s, e) = read_items(initial_state(), items);
    scan_result(s, e)
}

/// Whether `s` is the text `lit`.
fn is_text(s: &String, lit: &str) -> (b: bool)
    ensures
        b == (s@ == lit@),
{
    *s == String::from_str(lit)
}

/// The map reader: it takes the tokens of an SVG map one by one and keeps
/// the bodies, the start and the events that turn them into numbers.
pub struct MapReader {
    circle: Option<PendingCircle>,
    rect: Option<PendingRect>,
    start: Option<(usize, usize)>,
    bodies: Vec<BodyDef>,
    events: Vec<ScanEvent<String>>,
    numbers: usize,
}

impl View for MapReader {
    type V = ReaderState;

    closed spec fn view(&self) -> ReaderState {
        ReaderState {
            circle: self.circle,
            rect: self.rect,
            start: self.start,
            bodies: self.bodies@,
            events: self.events@.map_values(|e: ScanEvent<String>| e@),
            numbers: self.numbers as nat,
        }
    }
}

impl MapReader {
    /// The number count is within the event count.
    spec fn counted(&self) -> bool {
        self.numbers <= self.events@.len()
    }

    /// The reader's own bookkeeping is consistent, and every index it holds
    /// names a number it has asked for.
    pub closed spec fn inv(&self) -> bool {
        self.counted() && state_refs_ok(self@)
    }

    /// A reader that has read nothing.
    pub fn new() -> (r: MapReader)
        ensures
            r.inv(),
            r@ == initial_state(),
    {
        let r = MapReader {
            circle: None,
            rect: None,
            start: None,
            bodies: Vec::new(),
            events: Vec::new(),
            numbers: 0,
        };
        assert(r@.events =~= Seq::<ScanEvent<Seq<char>>>::empty());
        assert(number_signs(r@.events) =~= Seq::<bool>::empty());
        r
    }

    fn push_event(&mut self, e: ScanEvent<String>)
        requires
            old(self).counted(),
        ensures
            final(self).counted(),
            final(self)@ == (ReaderState { events: old(self)@.events.push(e@), ..old(self)@ }),
            final(self).events@.len() == old(self).events@.len() + 1,
    {
        self.events.push(e);
        assert(self@.events =~= old(self)@.events.push(e@));
    }

    /// Records the event that asks for `text` to be parsed as the next
    /// number; gives the number's index.
    fn add_number(&mut self, text: &String, negated: bool) -> (i: usize)
        requires
            old(self).counted(),
        ensures
            final(self).counted(),
            i == old(self).numbers,
            final(self)@ == with_number(old(self)@, text@, negated),
    {
        let i = self.numbers;
        self.push_event(ScanEvent::Number { text: text.clone(), negated });
        // The event count is a `usize`, and `i` is below it.
        let _count = self.events.len();
        self.numbers = i + 1;
        i
    }

    fn add_warning(&mut self, w: MapWarning)
        requires
            old(self).counted(),
        ensures
            final(self).counted(),
            final(self)@ == with_warning(old(self)@, w),
    {
        self.push_event(ScanEvent::Warning(w));
    }

    fn attribute(&mut self, name: &String, value: &String)
        requires
            old(self).counted(),
        ensures
            final(self).counted(),
            final(self)@ == attribute_step(old(self)@, name@, value@),
    {
        if is_text(name, "id") {
            if let Some(c) = self.circle {
                self.circle = Some(PendingCircle { is_start: is_text(value, "start"), ..c });
            }
        } else if is_text(name, "cx") || is_text(name, "cy") || is_text(name, "r") {
            if let Some(c) = self.circle {
                let negated = is_text(name, "cy");
                let i = self.add_number(value, negated);
                let c2 = if is_text(name, "cx") {
                    PendingCircle { cx: Some(i), ..c }
                } else if negated {
                    PendingCircle { cy: Some(i), ..c }
                } else {
                    PendingCircle { r: Some(i), ..c }
                };
                self.circle = Some(c2);
            }
        } else if is_text(name, "x") || is_text(name, "y") || is_text(name, "width") || is_text(
            name,
            "height",
        ) {
            if let Some(r) = self.rect {
                let negated = is_text(name, "y");
                let i = self.add_number(value, negated);
                let r2 = if is_text(name, "x") {
                    PendingRect { x: Some(i), ..r }
                } else if negated {
                    PendingRect { y: Some(i), ..r }
                } else if is_text(name, "width") {
                    PendingRect { width: Some(i), ..r }
                } else {
                    PendingRect { height: Some(i), ..r }
                };
                self.rect = Some(r2);
            }
        }
    }

    fn close_circle(&mut self, c: PendingCircle)
        requires
            old(self).counted(),
        ensures
            final(self).counted(),
            final(self)@ == close_circle(old(self)@, c),
    {
        match (c.is_start, c.cx, c.cy, c.r) {
            (true, Some(x), Some(y), _) => {
                if self.start.is_some() {
                    self.add_warning(MapWarning::StartRedefined);
                }
                self.start = Some((x, y));
            },
            (false, Some(x), Some(y), Some(r)) => {
                self.bodies.push(BodyDef::Circle { x, y, r });
            },
            _ => self.add_warning(MapWarning::IncompleteCircle),
        }
    }

    fn close_rect(&mut self, r: PendingRect)
        requires
            old(self).counted(),
        ensures
            final(self).counted(),
            final(self)@ == close_rect(old(self)@, r),
    {
        match (r.x, r.y, r.width, r.height) {
            (Some(x), Some(y), Some(width), Some(height)) => {
                self.bodies.push(BodyDef::Rect { x, y, width, height });
            },
            _ => self.add_warning(MapWarning::IncompleteRect),
        }
    }

    /// Reads one token.
    pub fn feed(&mut self, token: &SvgToken)
        requires
            old(self).inv(),
        ensures
            final(self).inv(),
            final(self)@ == step(old(self)@, token@),
    {
        proof {
            lemma_step_keeps_refs(self@, token@);
        }
        match token {
            MapToken::ElementStart(SvgName::Svg(name)) => {
                if is_text(name, "circle") {
                    self.circle = Some(PendingCircle { is_start: false, cx: None, cy: None, r: None });
                } else if is_text(name, "rect") {
                    self.rect = Some(PendingRect { x: None, y: None, width: None, height: None });
                }
            },
            MapToken::Attribute(SvgName::Svg(name), value) => self.attribute(name, value),
            MapToken::ElementEnd(ElementEndKind::Empty) => {
                if let Some(c) = self.circle {
                    self.circle = None;
                    self.close_circle(c);
                } else if let Some(r) = self.rect {
                    self.rect = None;
                    self.close_rect(r);
                }
            },
            _ => {},
        }
    }

    /// Ends the reading, at the end of the stream or at its `error`.
    pub fn finish(self, error: Option<SvgError>) -> (scan: MapScan)
        requires
            self.inv(),
        ensures
            scan@ == scan_result(self@, error_view(error)),
            scan_refs_ok(scan@),
    {
        proof {
            lemma_signs_push_warning(self@.events, MapWarning::NoStart);
        }
        let mut reader = self;
        if error.is_none() && reader.start.is_none() {
            reader.add_warning(MapWarning::NoStart);
        }
        MapScan { events: reader.events, bodies: reader.bodies, start: reader.start, error }
    }
}

/// The view of an optional tokenizer error.
pub open spec fn error_view(e: Option<SvgError>) -> Option<Seq<char>> {
    match e {
        Some(e) => Some(e@),
        None => None,
    }
}

/// What reading a map gives: the events to carry out in order (parsing
/// numbers, printing warnings), the bodies and the start as indices of those
/// numbers, and the tokenizer error that ended the stream, if any.
#[derive(Debug, Clone, PartialEq, Eq)]
pub struct MapScan {
    pub events: Vec<ScanEvent<String>>,
    pub bodies: Vec<BodyDef>,
    pub start: Option<(usize, usize)>,
    pub error: Option<SvgError>,
}

impl View for MapScan {
    type V = ScanView;

    open spec fn view(&self) -> ScanView {
        ScanView {
            events: self.events@.map_values(|e: ScanEvent<String>| e@),
            bodies: self.bodies@,
            start: self.start,
            error: error_view(self.error),
        }
    }
}

/// Reads the items of a token stream with a new reader: the tokens up to
/// the end of the stream or its first error, which ends the scan.
pub fn scan_tokens(items: &Vec<SvgItem>) -> (scan: MapScan)
    ensures
        scan@ == scan_items(items@.map_values(|i: SvgItem| item_view(i))),
        scan_refs_ok(scan@),
{
    let ghost all = items@.map_values(|i: SvgItem| item_view(i));
    let mut reader = MapReader::new();
    let mut k: usize = 0;
    assert(all.skip(0) =~= all);
    while k < items.len()
        invariant
            reader.inv(),
            k <= items.len(),
            all == items@.map_values(|i: SvgItem| item_view(i)),
            read_items(initial_state(), all) == read_items(reader@, all.skip(k as int)),
        decreases items.len() - k,
    {
        assert(all.skip(k as int)[0] == item_view(items@[k as int]));
        assert(all.skip(k as int).drop_first() =~= all.skip(k + 1));
        match &items[k] {
            Ok(t) => reader.feed(t),
            Err(e) => return reader.finish(Some(SvgError { message: e.message.clone() })),
        }
        k += 1;
    }
    reader.finish(None)
}

/// Reads the SVG map `text` with the `svgparser` tokenizer.
pub fn scan_map(text: &str) -> (scan: MapScan)
    ensures
        scan@ == scan_items(svg_tokens_of(text@)),
        scan_refs_ok(scan@),
{
    let mut tokens = svg_tokenizer(text);
    let mut reader = MapReader::new();
    loop
        invariant
            reader.inv(),
            read_items(initial_state(), svg_tokens_of(text@)) == read_items(
                reader@,
                svg_tokens_left(tokens),
            ),
        decreases svg_tokens_left(tokens).len(),
    {
        match next_item(&mut tokens) {
            None => return reader.finish(None),
            Some(Ok(t)) => reader.feed(&t),
            Some(Err(e)) => return reader.finish(Some(e)),
        }
    }
}

/// Why the map could not be loaded.
#[derive(Debug, Clone, PartialEq, Eq)]
pub enum MapError {
    /// Reading the map file failed with this message.
    Io(String),
    /// The SVG tokenizer failed.
    Svg(SvgError),
    /// A number of the map could not be parsed; the parser's message.
    ParseFloat(String),
}

/// The text shown for a map error.
pub open spec fn map_error_text(e: MapError) -> Seq<char> {
    match e {
        MapError::Io(m) => "file `"@ + MAP_FILE@ + "`: io error: "@ + m@,
        MapError::Svg(e) => "file `"@ + MAP_FILE@ + "`: svg parser error: "@ + e@,
        MapError::ParseFloat(m) => "file `"@ + MAP_FILE@ + "`: svg parser float error: "@ + m@,
    }
}

impl MapError {
    /// The text shown for this error.
    pub fn message(&self) -> (s: String)
        ensures
            s@ == map_error_text(*self),
    {
        let head = String::from_str("file `").concat(MAP_FILE);
        match self {
            MapError::Io(m) => head.concat("`: io error: ").concat(m.as_str()),
            MapError::Svg(e) => head.concat("`: svg parser error: ").concat(e.message.as_str()),
            MapError::ParseFloat(m) => head.concat("`: svg parser float error: ").concat(m.as_str()),
        }
    }
}

/// Reads the map file with `read`; a failure is an `Io` error carrying what
/// `read` reported.
pub fn read_map_file<F: Fn(&str) -> Result<String, String>>(read: F) -> (r: Result<String, MapError>)
    requires
        read.requires((MAP_FILE,)),
    ensures
        match r {
            Ok(text) => read.ensures((MAP_FILE,), Ok(text)),
            Err(MapError::Io(m)) => read.ensures((MAP_FILE,), Err(m)),
            Err(_) => false,
        },
{
    match read(MAP_FILE) {
        Ok(text) => Ok(text),
        Err(m) => Err(MapError::Io(m)),
    }
}

/// The number of `Number` events.
pub open spec fn number_count(events: Seq<ScanEvent<Seq<char>>>) -> nat
    decreases events.len(),
{
    if events.len() == 0 {
        0
    } else {
        let rest = number_count(events.drop_last());
        match events.last() {
            ScanEvent::Number { .. } => rest + 1,
            ScanEvent::Warning(_) => rest,
        }
    }
}

/// Carries out the events from event `i` on, number `k` being the next to
/// parse, where `parse_errors[k]` is the parser's message if number `k`
/// does not parse: the warnings printed, in order, up to the first number
/// that does not parse, and that number's message.
pub open spec fn settle_events(
    events: Seq<ScanEvent<Seq<char>>>,
    parse_errors: Seq<Option<Seq<char>>>,
    i: int,
    k: int,
) -> (Seq<MapWarning>, Option<Seq<char>>)
    decreases events.len() - i,
{
    if i < 0 || i >= events.len() {
        (Seq::empty(), None)
    } else {
        match events[i] {
            ScanEvent::Warning(w) => {
                let rest = settle_events(events, parse_errors, i + 1, k);
                (seq![w] + rest.0, rest.1)
            },
            ScanEvent::Number { .. } => match parse_errors[k] {
                Some(m) => (Seq::empty(), Some(m)),
                None => settle_events(events, parse_errors, i + 1, k + 1),
            },
        }
    }
}

/// The view of the optional parse errors.
pub open spec fn parse_errors_view(errors: Seq<Option<String>>) -> Seq<Option<Seq<char>>> {
    errors.map_values(|e: Option<String>| match e {
        Some(m) => Some(m@),
        None => None,
    })
}

pub(crate) proof fn lemma_number_count_prefix(events: Seq<ScanEvent<Seq<char>>>, i: int)
    requires
        0 <= i < events.len(),
    ensures
        number_count(events.take(i + 1)) == number_count(events.take(i)) + if events[i] is Number {
            1int
        } else {
            0int
        },
        number_count(events.take(i)) <= number_count(events),
        number_count(events.take(i + 1)) <= number_count(events),
    decreases events.len() - i,
{
    assert(events.take(i + 1).drop_last() =~= events.take(i));
    if i + 1 < events.len() {
        lemma_number_count_prefix(events, i + 1);
    } else {
        assert(events.take(i + 1) =~= events);
    }
}

/// Ends the loading of a scanned map, given for each number of the scan the
/// parser's message if it does not parse: the warnings to print, in order,
/// and the outcome. Numbers and warnings are carried out in the order of the
/// events and the first number that does not parse stops the loading with a
/// `ParseFloat` error; a tokenizer error comes after all the scan's events.
pub fn settle_scan(scan: &MapScan, parse_errors: &Vec<Option<String>>) -> (r: (
    Vec<MapWarning>,
    Result<(), MapError>,
))
    requires
        parse_errors@.len() == number_count(scan@.events),
    ensures
        ({
            let s = settle_events(scan@.events, parse_errors_view(parse_errors@), 0, 0);
            &&& r.0@ == s.0
            &&& match r.1 {
                Ok(()) => s.1 is None && scan@.error is None,
                Err(MapError::ParseFloat(m)) => s.1 == Some(m@),
                Err(MapError::Svg(e)) => s.1 is None && scan@.error == Some(e@),
                Err(MapError::Io(_)) => false,
            }
        }),
        ({
            let errs = parse_errors_view(parse_errors@);
            &&& (r.1 is Ok <==> (forall|l: int| 0 <= l < errs.len() ==> #[trigger] errs[l] is None)
                && scan@.error is None)
            &&& (r.1 matches Err(MapError::ParseFloat(m)) ==> exists|j: int|
                0 <= j < errs.len() && #[trigger] errs[j] == Some(m@) && forall|l: int|
                    0 <= l < j ==> #[trigger] errs[l] is None)
            &&& (r.1 matches Err(MapError::Svg(e)) ==> forall|l: int|
                0 <= l < errs.len() ==> #[trigger] errs[l] is None)
            &&& ((forall|l: int| 0 <= l < errs.len() ==> #[trigger] errs[l] is None) ==> r.0@
                == warnings_in(scan@.events))
        }),
{
    proof {
        law_settle_stops_at_first_failure(scan@.events, parse_errors_view(parse_errors@));
    }
    let ghost events = scan@.events;
    let ghost errs = parse_errors_view(parse_errors@);
    let mut warnings: Vec<MapWarning> = Vec::new();
    let mut i: usize = 0;
    let mut k: usize = 0;
    let n_numbers = parse_errors.len();
    while i < scan.events.len()
        invariant
            n_numbers == parse_errors@.len(),
            events == scan@.events,
            errs == parse_errors_view(parse_errors@),
            events.len() == scan.events@.len(),
            parse_errors@.len() == number_count(events),
            i <= events.len(),
            k == number_count(events.take(i as int)),
            settle_events(events, errs, 0, 0) == (
                warnings@ + settle_events(events, errs, i as int, k as int).0,
                settle_events(events, errs, i as int, k as int).1,
            ),
        decreases events.len() - i,
    {
        proof {
            lemma_number_count_prefix(events, i as int);
        }
        assert(events[i as int] == scan.events@[i as int]@);
        match &scan.events[i] {
            ScanEvent::Warning(w) => {
                let ghost before = warnings@;
                warnings.push(*w);
                assert(warnings@ + settle_events(events, errs, i + 1, k as int).0 =~= before + (
                seq![*w] + settle_events(events, errs, i + 1, k as int).0));
            },
            ScanEvent::Number { .. } => {
                match &parse_errors[k] {
                    Some(m) => {
                        proof {
                            law_settle_stops_at_first_failure(events, errs);
                        }
                        assert(errs[k as int] == Some(m@));
                        assert(warnings@ + Seq::<MapWarning>::empty() =~= warnings@);
                        return (warnings, Err(MapError::ParseFloat(m.clone())));
                    },
                    None => {
                        assert(errs[k as int] is None);
                        k = k + 1;
                    },
                }
            },
        }
        i = i + 1;
    }
    assert(warnings@ + Seq::<MapWarning>::empty() =~= warnings@);
    match &scan.error {
        Some(e) => (warnings, Err(MapError::Svg(SvgError { message: e.message.clone() }))),
        None => (warnings, Ok(())),
    }
}

} // verus!
