use vstd::prelude::*;

use crate::map::{
    attribute_step, close_circle, close_rect, initial_state, lemma_number_count_prefix, number_count, read_items, scan_items,
    settle_events, step, with_number, with_warning, BodyDef, MapWarning, PendingCircle, ReaderState, ScanEvent,
    ScanView,
};
use crate::svg::{ElementEndKind, ItemView, MapToken, SvgName, TokenView};

verus! {

/// The sign flags of the `Number` events, in order: entry `i` tells whether
/// number `i` is negated.
pub open spec fn number_signs(events: Seq<ScanEvent<Seq<char>>>) -> Seq<bool>
    decreases events.len(),
{
    if events.len() == 0 {
        Seq::empty()
    } else {
        let rest = number_signs(events.drop_last());
        match events.last() {
            ScanEvent::Number { negated, .. } => rest.push(negated),
            ScanEvent::Warning(_) => rest,
        }
    }
}

/// `i` is the index of a number of `signs` with sign flag `negated`.
pub open spec fn number_is(signs: Seq<bool>, i: Option<usize>, negated: bool) -> bool {
    i matches Some(k) ==> k < signs.len() && signs[k as int] == negated
}

/// A body refers to numbers that exist, its `y` to a negated one and its
/// other fields to numbers taken as they are.
pub open spec fn body_refs_ok(signs: Seq<bool>, b: BodyDef) -> bool {
    match b {
        BodyDef::Circle { x, y, r } => {
            &&& number_is(signs, Some(x), false)
            &&& number_is(signs, Some(y), true)
            &&& number_is(signs, Some(r), false)
        },
        BodyDef::Rect { x, y, width, height } => {
            &&& number_is(signs, Some(x), false)
            &&& number_is(signs, Some(y), true)
            &&& number_is(signs, Some(width), false)
            &&& number_is(signs, Some(height), false)
        },
    }
}

pub open spec fn start_refs_ok(signs: Seq<bool>, start: Option<(usize, usize)>) -> bool {
    start matches Some((x, y)) ==> number_is(signs, Some(x), false) && number_is(signs, Some(y), true)
}

/// Every index a scan holds names a number of its events, negated exactly
/// where it gives a `y`.
pub open spec fn scan_refs_ok(scan: ScanView) -> bool {
    let signs = number_signs(scan.events);
    &&& forall|i: int| 0 <= i < scan.bodies.len() ==> body_refs_ok(signs, #[trigger] scan.bodies[i])
    &&& start_refs_ok(signs, scan.start)
}

/// The reader's state refers only to numbers it has asked for.
pub open spec fn state_refs_ok(s: ReaderState) -> bool {
    let signs = number_signs(s.events);
    &&& s.numbers == signs.len()
    &&& forall|i: int| 0 <= i < s.bodies.len() ==> body_refs_ok(signs, #[trigger] s.bodies[i])
    &&& start_refs_ok(signs, s.start)
    &&& (s.circle matches Some(c) ==> {
        &&& number_is(signs, c.cx, false)
        &&& number_is(signs, c.cy, true)
        &&& number_is(signs, c.r, false)
    })
    &&& (s.rect matches Some(r) ==> {
        &&& number_is(signs, r.x, false)
        &&& number_is(signs, r.y, true)
        &&& number_is(signs, r.width, false)
        &&& number_is(signs, r.height, false)
    })
}

pub(crate) proof fn lemma_signs_push_number(events: Seq<ScanEvent<Seq<char>>>, text: Seq<char>, negated: bool)
    ensures
        number_signs(events.push(ScanEvent::Number { text, negated })) == number_signs(events).push(negated),
{
    assert(events.push(ScanEvent::Number { text, negated }).drop_last() =~= events);
}

pub(crate) proof fn lemma_signs_push_warning(events: Seq<ScanEvent<Seq<char>>>, w: MapWarning)
    ensures
        number_signs(events.push(ScanEvent::Warning(w))) == number_signs(events),
{
    assert(events.push(ScanEvent::Warning(w)).drop_last() =~= events);
}

proof fn lemma_warning_keeps_refs(s: ReaderState, w: MapWarning)
    requires
        state_refs_ok(s),
    ensures
        state_refs_ok(with_warning(s, w)),
{
    lemma_signs_push_warning(s.events, w);
}

proof fn lemma_number_keeps_refs(s: ReaderState, text: Seq<char>, negated: bool)
    requires
        state_refs_ok(s),
    ensures
        ({
            let s2 = with_number(s, text, negated);
            let signs2 = number_signs(s2.events);
            &&& signs2 == number_signs(s.events).push(negated)
            &&& s2.numbers == signs2.len()
            &&& forall|i: int| 0 <= i < s2.bodies.len() ==> body_refs_ok(signs2, #[trigger] s2.bodies[i])
            &&& start_refs_ok(signs2, s2.start)
        }),
{
    lemma_signs_push_number(s.events, text, negated);
    let signs = number_signs(s.events);
    let signs2 = signs.push(negated);
    assert forall|i: int| 0 <= i < s.bodies.len() implies body_refs_ok(signs2, #[trigger] s.bodies[i]) by {
        assert(body_refs_ok(signs, s.bodies[i]));
    }
}

proof fn lemma_attribute_keeps_refs(s: ReaderState, name: Seq<char>, value: Seq<char>)
    requires
        state_refs_ok(s),
        s.numbers <= usize::MAX,
    ensures
        state_refs_ok(attribute_step(s, name, value)),
{
    let signs = number_signs(s.events);
    reveal_strlit("cx");
    reveal_strlit("cy");
    reveal_strlit("r");
    reveal_strlit("x");
    reveal_strlit("y");
    reveal_strlit("width");
    reveal_strlit("height");
    assert("cx"@[1] != "cy"@[1]);
    assert("x"@[0] != "y"@[0]);
    if name == "id"@ {
    } else if name == "cx"@ || name == "cy"@ || name == "r"@ {
        if let Some(c) = s.circle {
            lemma_number_keeps_refs(s, value, name == "cy"@);
            let signs2 = signs.push(name == "cy"@);
            assert(number_is(signs2, c.cx, false));
            assert(number_is(signs2, c.cy, true));
            assert(number_is(signs2, c.r, false));
            assert(start_refs_ok(signs2, attribute_step(s, name, value).start));
            if let Some(r) = s.rect {
                assert(number_is(signs2, r.x, false));
                assert(number_is(signs2, r.y, true));
                assert(number_is(signs2, r.width, false));
                assert(number_is(signs2, r.height, false));
            }
        }
    } else if name == "x"@ || name == "y"@ || name == "width"@ || name == "height"@ {
        if let Some(r) = s.rect {
            lemma_number_keeps_refs(s, value, name == "y"@);
            let signs2 = signs.push(name == "y"@);
            assert(number_is(signs2, r.x, false));
            assert(number_is(signs2, r.y, true));
            assert(number_is(signs2, r.width, false));
            assert(number_is(signs2, r.height, false));
            if let Some(c) = s.circle {
                assert(number_is(signs2, c.cx, false));
                assert(number_is(signs2, c.cy, true));
                assert(number_is(signs2, c.r, false));
            }
        }
    }
}

pub(crate) proof fn lemma_step_keeps_refs(s: ReaderState, t: TokenView)
    requires
        state_refs_ok(s),
        s.numbers <= usize::MAX,
    ensures
        state_refs_ok(step(s, t)),
        step(s, t).numbers <= s.numbers + 1,
{
    let signs = number_signs(s.events);
    match t {
        MapToken::Attribute(SvgName::Svg(name), value) => {
            lemma_attribute_keeps_refs(s, name, value);
        },
        MapToken::ElementEnd(ElementEndKind::Empty) => {
            match s.circle {
                Some(c) => {
                    let s1 = ReaderState { circle: None, ..s };
                    lemma_warning_keeps_refs(s1, MapWarning::StartRedefined);
                    lemma_warning_keeps_refs(s1, MapWarning::IncompleteCircle);
                    let s2 = close_circle(s1, c);
                    lemma_signs_push_warning(s.events, MapWarning::StartRedefined);
                    lemma_signs_push_warning(s.events, MapWarning::IncompleteCircle);
                    assert(number_signs(s2.events) == signs);
                    assert(start_refs_ok(number_signs(s2.events), s2.start));
                    assert forall|i: int| 0 <= i < s2.bodies.len() implies body_refs_ok(
                        number_signs(s2.events),
                        #[trigger] s2.bodies[i],
                    ) by {
                        if i < s.bodies.len() {
                            assert(s2.bodies[i] == s.bodies[i]);
                        }
                    }
                },
                None => match s.rect {
                    Some(r) => {
                        let s1 = ReaderState { rect: None, ..s };
                        lemma_warning_keeps_refs(s1, MapWarning::IncompleteRect);
                        let s2 = close_rect(s1, r);
                        assert forall|i: int| 0 <= i < s2.bodies.len() implies body_refs_ok(
                            number_signs(s2.events),
                            #[trigger] s2.bodies[i],
                        ) by {
                            if i < s.bodies.len() {
                                assert(s2.bodies[i] == s.bodies[i]);
                            }
                        }
                    },
                    None => {},
                },
            }
        },
        _ => {},
    }
}

proof fn lemma_read_keeps_refs(s: ReaderState, items: Seq<ItemView>)
    requires
        state_refs_ok(s),
        s.numbers + items.len() <= usize::MAX,
    ensures
        state_refs_ok(read_items(s, items).0),
    decreases items.len(),
{
    if items.len() > 0 {
        if let Ok(t) = items[0] {
            lemma_step_keeps_refs(s, t);
            lemma_read_keeps_refs(step(s, t), items.drop_first());
        }
    }
}

/// Every body and the start of a map's scan refer to numbers that the scan
/// asks to be parsed, and to a negated number exactly where they give a `y`
/// coordinate (the SVG `y` axis points down, the game's up). A stream of
/// more than `usize::MAX` items cannot be held, and is left out.
pub proof fn law_scan_refers_to_its_numbers(items: Seq<ItemView>)
    requires
        items.len() <= usize::MAX,
    ensures
        scan_refs_ok(scan_items(items)),
{
    let s0 = initial_state();
    assert(number_signs(s0.events) =~= Seq::<bool>::empty());
    lemma_read_keeps_refs(s0, items);
    let (s, e) = read_items(s0, items);
    lemma_signs_push_warning(s.events, MapWarning::NoStart);
}

proof fn lemma_read_stops_at_error(
    s: ReaderState,
    items: Seq<ItemView>,
    m: Seq<char>,
    rest: Seq<ItemView>,
)
    ensures
        read_items(s, items + seq![Err(m)] + rest) == read_items(s, items + seq![Err(m)]),
    decreases items.len(),
{
    let a = items + seq![Err(m)] + rest;
    let b = items + seq![Err(m)];
    if items.len() == 0 {
        assert(a[0] == Err::<TokenView, Seq<char>>(m));
        assert(b[0] == Err::<TokenView, Seq<char>>(m));
    } else {
        assert(a[0] == items[0]);
        assert(b[0] == items[0]);
        if let Ok(t) = items[0] {
            assert(a.drop_first() =~= items.drop_first() + seq![Err(m)] + rest);
            assert(b.drop_first() =~= items.drop_first() + seq![Err(m)]);
            lemma_read_stops_at_error(step(s, t), items.drop_first(), m, rest);
        }
    }
}

/// A tokenizer error ends the map: whatever would follow it changes nothing.
pub proof fn law_error_ends_scan(items: Seq<ItemView>, m: Seq<char>, rest: Seq<ItemView>)
    ensures
        scan_items(items + seq![Err(m)] + rest) == scan_items(items + seq![Err(m)]),
{
    lemma_read_stops_at_error(initial_state(), items, m, rest);
}

/// Whether a token can change the reader: the start of an SVG `circle` or
/// `rect`, one of the SVG attributes `id`, `cx`, `cy`, `r`, `x`, `y`,
/// `width`, `height`, or `/>`.
pub open spec fn may_change_reader(t: TokenView) -> bool {
    match t {
        MapToken::ElementStart(SvgName::Svg(n)) => n == "circle"@ || n == "rect"@,
        MapToken::Attribute(SvgName::Svg(n), _) => {
            ||| n == "id"@
            ||| n == "cx"@
            ||| n == "cy"@
            ||| n == "r"@
            ||| n == "x"@
            ||| n == "y"@
            ||| n == "width"@
            ||| n == "height"@
        },
        MapToken::ElementEnd(ElementEndKind::Empty) => true,
        _ => false,
    }
}

proof fn lemma_read_skips_ignored(s: ReaderState, a: Seq<ItemView>, t: TokenView, b: Seq<ItemView>)
    requires
        !may_change_reader(t),
    ensures
        read_items(s, a + seq![Ok(t)] + b) == read_items(s, a + b),
    decreases a.len(),
{
    let x = a + seq![Ok(t)] + b;
    let y = a + b;
    if a.len() == 0 {
        assert(x[0] == Ok::<TokenView, Seq<char>>(t));
        assert(x.drop_first() =~= y);
        assert(step(s, t) == s);
    } else {
        assert(x[0] == a[0]);
        assert(y[0] == a[0]);
        if let Ok(t0) = a[0] {
            assert(x.drop_first() =~= a.drop_first() + seq![Ok(t)] + b);
            assert(y.drop_first() =~= a.drop_first() + b);
            lemma_read_skips_ignored(step(s, t0), a.drop_first(), t, b);
        }
    }
}

/// A token that cannot change the reader changes nothing, wherever it
/// stands: declarations, comments, text, `>` and `</name>` (so only `/>`
/// closes a circle or rectangle), elements other than `circle` and `rect`,
/// attributes other than the eight the map uses, and any element or
/// attribute with a plain XML name.
pub proof fn law_ignored_tokens_change_nothing(a: Seq<ItemView>, t: TokenView, b: Seq<ItemView>)
    requires
        !may_change_reader(t),
    ensures
        scan_items(a + seq![Ok(t)] + b) == scan_items(a + b),
{
    lemma_read_skips_ignored(initial_state(), a, t, b);
}

/// `a` is a prefix of `b`.
pub open spec fn is_prefix<T>(a: Seq<T>, b: Seq<T>) -> bool {
    a.len() <= b.len() && b.subrange(0, a.len() as int) == a
}

proof fn lemma_step_extends(s: ReaderState, t: TokenView)
    ensures
        is_prefix(s.bodies, step(s, t).bodies),
        is_prefix(s.events, step(s, t).events),
{
    let s2 = step(s, t);
    assert(s2.bodies.subrange(0, s.bodies.len() as int) =~= s.bodies);
    assert(s2.events.subrange(0, s.events.len() as int) =~= s.events);
}

proof fn lemma_read_extends(s: ReaderState, a: Seq<ItemView>, b: Seq<ItemView>)
    ensures
        is_prefix(read_items(s, a).0.bodies, read_items(s, a + b).0.bodies),
        is_prefix(read_items(s, a).0.events, read_items(s, a + b).0.events),
        is_prefix(s.bodies, read_items(s, a).0.bodies),
        is_prefix(s.events, read_items(s, a).0.events),
    decreases a.len() + b.len(),
{
    let x = a + b;
    if a.len() == 0 {
        assert(x =~= b);
        if b.len() > 0 {
            if let Ok(t) = b[0] {
                lemma_step_extends(s, t);
                lemma_read_extends(step(s, t), b.drop_first(), Seq::empty());
                assert(b.drop_first() + Seq::<ItemView>::empty() =~= b.drop_first());
                let r = read_items(step(s, t), b.drop_first()).0;
                assert(r.bodies.subrange(0, s.bodies.len() as int) =~= s.bodies);
                assert(r.events.subrange(0, s.events.len() as int) =~= s.events);
            }
        }
        assert(read_items(s, a).0.bodies.subrange(0, s.bodies.len() as int) =~= s.bodies);
        assert(read_items(s, a).0.events.subrange(0, s.events.len() as int) =~= s.events);
    } else {
        assert(x[0] == a[0]);
        if let Ok(t) = a[0] {
            assert(x.drop_first() =~= a.drop_first() + b);
            lemma_step_extends(s, t);
            lemma_read_extends(step(s, t), a.drop_first(), b);
            let r = read_items(step(s, t), a.drop_first()).0;
            assert(r.bodies.subrange(0, s.bodies.len() as int) =~= s.bodies);
            assert(r.events.subrange(0, s.events.len() as int) =~= s.events);
        } else {
            assert(read_items(s, a).0.bodies.subrange(0, s.bodies.len() as int) =~= s.bodies);
            assert(read_items(s, a).0.events.subrange(0, s.events.len() as int) =~= s.events);
        }
    }
}

/// Reading more of a map never takes back what was read: the bodies of a
/// prefix of a token stream are a prefix of the bodies of the whole stream.
pub proof fn law_bodies_grow_with_the_stream(a: Seq<ItemView>, b: Seq<ItemView>)
    ensures
        is_prefix(scan_items(a).bodies, scan_items(a + b).bodies),
{
    lemma_read_extends(initial_state(), a, b);
}

/// An attribute named `name` gives a number: it is `cx`, `cy` or `r` and a
/// circle is pending, or `x`, `y`, `width` or `height` and a rectangle is.
pub open spec fn gives_number(s: ReaderState, name: Seq<char>) -> bool {
    ||| s.circle is Some && (name == "cx"@ || name == "cy"@ || name == "r"@)
    ||| s.rect is Some && (name == "x"@ || name == "y"@ || name == "width"@ || name == "height"@)
}

/// The numbers a map asks for are exactly the values of the coordinate
/// attributes of pending circles and rectangles: such an attribute adds one
/// `Number` event with its value, negated for `cy` and `y`; every other
/// attribute (an `id`, any attribute of another element, one that the
/// pending element does not use) adds none. Where neither a circle nor a
/// rectangle is pending, an attribute changes nothing at all.
pub proof fn law_attribute_numbers(s: ReaderState, name: Seq<char>, value: Seq<char>)
    ensures
        gives_number(s, name) ==> attribute_step(s, name, value).events == s.events.push(
            ScanEvent::Number { text: value, negated: name == "cy"@ || name == "y"@ },
        ),
        gives_number(s, name) ==> attribute_step(s, name, value).numbers == s.numbers + 1,
        !gives_number(s, name) ==> attribute_step(s, name, value).events == s.events,
        !gives_number(s, name) ==> attribute_step(s, name, value).numbers == s.numbers,
        attribute_step(s, name, value).bodies == s.bodies,
        attribute_step(s, name, value).start == s.start,
        s.circle is None && s.rect is None ==> attribute_step(s, name, value) == s,
{
    reveal_strlit("id");
    reveal_strlit("cx");
    reveal_strlit("cy");
    reveal_strlit("r");
    reveal_strlit("x");
    reveal_strlit("y");
    reveal_strlit("width");
    reveal_strlit("height");
    assert("cx"@[1] != "cy"@[1]);
    assert("x"@[0] != "y"@[0]);
    assert("cx"@[0] != "id"@[0]);
    assert("cy"@[0] != "id"@[0]);
    assert("r"@[0] != "x"@[0]);
    assert("r"@[0] != "y"@[0]);
    assert("cx"@.len() != "y"@.len());
    assert("cy"@.len() != "y"@.len());
    assert("cy"@.len() != "x"@.len());
    assert("cy"@.len() != "width"@.len());
    assert("cy"@.len() != "height"@.len());
}

/// An `id` attribute never asks for a number: it only tells whether the
/// pending circle is the start (its value is `start`), and with no circle
/// pending it changes nothing.
pub proof fn law_id_only_marks_the_start(s: ReaderState, value: Seq<char>)
    ensures
        attribute_step(s, "id"@, value).events == s.events,
        attribute_step(s, "id"@, value).numbers == s.numbers,
        s.circle is None ==> attribute_step(s, "id"@, value) == s,
        s.circle matches Some(c) ==> attribute_step(s, "id"@, value) == (ReaderState {
            circle: Some(PendingCircle { is_start: value == "start"@, ..c }),
            ..s
        }),
{
}

/// A stream that opens no SVG `circle` and no SVG `rect` asks for no number
/// and gives no body and no start, whatever attributes its other elements
/// carry (the `x`, `y` and `id` of the root `svg`, the ids of groups).
pub proof fn law_no_shapes_no_numbers(items: Seq<ItemView>)
    requires
        forall|i: int|
            0 <= i < items.len() ==> !(#[trigger] items[i] matches Ok(
                MapToken::ElementStart(SvgName::Svg(n)),
            ) && (n == "circle"@ || n == "rect"@)),
    ensures
        number_count(scan_items(items).events) == 0,
        scan_items(items).bodies.len() == 0,
        scan_items(items).start is None,
{
    lemma_read_nothing_pending(initial_state(), items);
    let (s, e) = read_items(initial_state(), items);
    let ev = scan_items(items).events;
    assert(s == initial_state());
    assert(number_count(Seq::<ScanEvent<Seq<char>>>::empty()) == 0);
    if e is None {
        assert(ev =~= seq![ScanEvent::<Seq<char>>::Warning(MapWarning::NoStart)]);
        assert(ev.drop_last() =~= Seq::<ScanEvent<Seq<char>>>::empty());
        assert(ev.last() == ScanEvent::<Seq<char>>::Warning(MapWarning::NoStart));
    } else {
        assert(ev =~= Seq::<ScanEvent<Seq<char>>>::empty());
    }
}

proof fn lemma_read_nothing_pending(s: ReaderState, items: Seq<ItemView>)
    requires
        s.circle is None,
        s.rect is None,
        forall|i: int|
            0 <= i < items.len() ==> !(#[trigger] items[i] matches Ok(
                MapToken::ElementStart(SvgName::Svg(n)),
            ) && (n == "circle"@ || n == "rect"@)),
    ensures
        read_items(s, items).0 == s,
    decreases items.len(),
{
    if items.len() > 0 {
        if let Ok(t) = items[0] {
            law_attribute_numbers(s, "id"@, Seq::empty());
            match t {
                MapToken::Attribute(SvgName::Svg(name), value) => {
                    law_attribute_numbers(s, name, value);
                },
                _ => {},
            }
            assert(step(s, t) == s);
            assert forall|i: int| 0 <= i < items.drop_first().len() implies !(
            #[trigger] items.drop_first()[i] matches Ok(MapToken::ElementStart(SvgName::Svg(n)))
                && (n == "circle"@ || n == "rect"@)) by {
                assert(items.drop_first()[i] == items[i + 1]);
            }
            lemma_read_nothing_pending(s, items.drop_first());
        }
    }
}

/// The warnings among `events`, in order.
pub open spec fn warnings_in(events: Seq<ScanEvent<Seq<char>>>) -> Seq<MapWarning>
    decreases events.len(),
{
    if events.len() == 0 {
        Seq::empty()
    } else {
        let rest = warnings_in(events.drop_first());
        match events[0] {
            ScanEvent::Warning(w) => seq![w] + rest,
            ScanEvent::Number { .. } => rest,
        }
    }
}

proof fn lemma_settle_from(
    events: Seq<ScanEvent<Seq<char>>>,
    errs: Seq<Option<Seq<char>>>,
    i: int,
    k: int,
)
    requires
        0 <= i <= events.len(),
        k == number_count(events.take(i)),
        errs.len() == number_count(events),
    ensures
        ({
            let r = settle_events(events, errs, i, k);
            &&& (r.1 is None <==> forall|l: int| k <= l < errs.len() ==> #[trigger] errs[l] is None)
            &&& (r.1 is None ==> r.0 == warnings_in(events.skip(i)))
            &&& (r.1 matches Some(m) ==> exists|p: int|
                #![trigger events[p]]
                i <= p < events.len() && events[p] is Number && number_count(events.take(p))
                    < errs.len() && errs[number_count(events.take(p)) as int] == Some(m) && (forall|
                    l: int,
                | k <= l < number_count(events.take(p)) ==> #[trigger] errs[l] is None) && r.0
                    == warnings_in(events.subrange(i, p)))
        }),
    decreases events.len() - i,
{
    let r = settle_events(events, errs, i, k);
    if i == events.len() {
        assert(events.take(i) =~= events);
        assert(events.skip(i) =~= Seq::<ScanEvent<Seq<char>>>::empty());
    } else {
        lemma_number_count_prefix(events, i);
        assert(events.skip(i)[0] == events[i]);
        assert(events.skip(i).drop_first() =~= events.skip(i + 1));
        match events[i] {
            ScanEvent::Warning(w) => {
                lemma_settle_from(events, errs, i + 1, k);
                let rest = settle_events(events, errs, i + 1, k);
                if let Some(m) = rest.1 {
                    let p = choose|p: int|
                        #![trigger events[p]]
                        i + 1 <= p < events.len() && events[p] is Number && number_count(
                            events.take(p),
                        ) < errs.len() && errs[number_count(events.take(p)) as int] == Some(m)
                            && (forall|l: int|
                            k <= l < number_count(events.take(p)) ==> #[trigger] errs[l] is None)
                            && rest.0 == warnings_in(events.subrange(i + 1, p));
                    assert(events.subrange(i, p)[0] == events[i]);
                    assert(events.subrange(i, p).drop_first() =~= events.subrange(i + 1, p));
                    assert(r.0 == warnings_in(events.subrange(i, p)));
                }
            },
            ScanEvent::Number { .. } => {
                match errs[k] {
                    Some(m) => {
                        assert(events.subrange(i, i) =~= Seq::<ScanEvent<Seq<char>>>::empty());
                        assert(errs[k] is Some);
                    },
                    None => {
                        lemma_settle_from(events, errs, i + 1, k + 1);
                        let rest = settle_events(events, errs, i + 1, k + 1);
                        if let Some(m) = rest.1 {
                            let p = choose|p: int|
                                #![trigger events[p]]
                                i + 1 <= p < events.len() && events[p] is Number && number_count(
                                    events.take(p),
                                ) < errs.len() && errs[number_count(events.take(p)) as int] == Some(
                                    m,
                                ) && (forall|l: int|
                                    k + 1 <= l < number_count(events.take(p))
                                        ==> #[trigger] errs[l] is None) && rest.0 == warnings_in(
                                    events.subrange(i + 1, p),
                                );
                            assert(events.subrange(i, p)[0] == events[i]);
                            assert(events.subrange(i, p).drop_first() =~= events.subrange(i + 1, p));
                            assert(r.0 == warnings_in(events.subrange(i, p)));
                        }
                    },
                }
            },
        }
    }
}

/// Settling a scan parses its numbers in order and stops at the first one
/// that does not parse, whatever its sign: the outcome is `None` exactly
/// when every number parses, and otherwise the message of the first number
/// that does not. The warnings printed are those that come before that
/// number among the events, in order, or all of them when every number
/// parses.
pub proof fn law_settle_stops_at_first_failure(
    events: Seq<ScanEvent<Seq<char>>>,
    errs: Seq<Option<Seq<char>>>,
)
    requires
        errs.len() == number_count(events),
    ensures
        ({
            let r = settle_events(events, errs, 0, 0);
            &&& (r.1 is None <==> forall|l: int| 0 <= l < errs.len() ==> #[trigger] errs[l] is None)
            &&& (r.1 is None ==> r.0 == warnings_in(events))
            &&& (r.1 matches Some(m) ==> exists|j: int|
                0 <= j < errs.len() && #[trigger] errs[j] == Some(m) && forall|l: int|
                    0 <= l < j ==> #[trigger] errs[l] is None)
            &&& (r.1 matches Some(m) ==> exists|p: int|
                #![trigger events[p]]
                0 <= p < events.len() && events[p] is Number && errs[number_count(events.take(p)) as int]
                    == Some(m) && r.0 == warnings_in(events.take(p)))
        }),
{
    assert(events.take(0) =~= Seq::<ScanEvent<Seq<char>>>::empty());
    assert(events.skip(0) =~= events);
    lemma_settle_from(events, errs, 0, 0);
    let r = settle_events(events, errs, 0, 0);
    if let Some(m) = r.1 {
        let p = choose|p: int|
            #![trigger events[p]]
            0 <= p < events.len() && events[p] is Number && number_count(events.take(p)) < errs.len()
                && errs[number_count(events.take(p)) as int] == Some(m) && (forall|l: int|
                0 <= l < number_count(events.take(p)) ==> #[trigger] errs[l] is None) && r.0
                == warnings_in(events.subrange(0, p));
        let j = number_count(events.take(p)) as int;
        assert(errs[j] == Some(m));
        assert(events.subrange(0, p) =~= events.take(p));
    }
}

} // verus!
