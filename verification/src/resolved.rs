use vstd::prelude::*;

use crate::map::{
    initial_state, read_items, scan_items, step, BodyDef, PendingCircle, PendingRect, ReaderState,
    ScanEvent, ScanView,
};
use crate::map_laws::{
    lemma_signs_push_number, lemma_signs_push_warning, lemma_step_keeps_refs, number_signs,
    state_refs_ok,
};
use crate::svg::{ElementEndKind, ItemView, MapToken, SvgName, TokenView};

verus! {

/// A number of the map: its text and whether it is negated.
pub type NumberText = (Seq<char>, bool);

/// The `Number` events, in order, as the numbers they ask for.
pub open spec fn number_texts(events: Seq<ScanEvent<Seq<char>>>) -> Seq<NumberText>
    decreases events.len(),
{
    if events.len() == 0 {
        Seq::empty()
    } else {
        let rest = number_texts(events.drop_last());
        match events.last() {
            ScanEvent::Number { text, negated } => rest.push((text, negated)),
            ScanEvent::Warning(_) => rest,
        }
    }
}

/// A circle being read, with its numbers in place of their indices.
pub struct ResolvedCircle {
    pub is_start: bool,
    pub cx: Option<NumberText>,
    pub cy: Option<NumberText>,
    pub r: Option<NumberText>,
}

/// A rectangle being read, with its numbers in place of their indices.
pub struct ResolvedRect {
    pub x: Option<NumberText>,
    pub y: Option<NumberText>,
    pub width: Option<NumberText>,
    pub height: Option<NumberText>,
}

/// A body with its numbers in place of their indices.
pub enum ResolvedBody {
    Circle { x: NumberText, y: NumberText, r: NumberText },
    Rect { x: NumberText, y: NumberText, width: NumberText, height: NumberText },
}

/// A reader state with its numbers in place of their indices; the warnings
/// and the numbering are left out.
pub struct Resolved {
    pub circle: Option<ResolvedCircle>,
    pub rect: Option<ResolvedRect>,
    pub start: Option<(NumberText, NumberText)>,
    pub bodies: Seq<ResolvedBody>,
}

/// What a map resolves to: its bodies and start with their numbers in place
/// of their indices, and the tokenizer error, if any.
pub struct ResolvedMap {
    pub bodies: Seq<ResolvedBody>,
    pub start: Option<(NumberText, NumberText)>,
    pub error: Option<Seq<char>>,
}

pub open spec fn resolve_index(ns: Seq<NumberText>, i: Option<usize>) -> Option<NumberText> {
    match i {
        Some(k) => Some(ns[k as int]),
        None => None,
    }
}

pub open spec fn resolve_body(ns: Seq<NumberText>, b: BodyDef) -> ResolvedBody {
    match b {
        BodyDef::Circle { x, y, r } => ResolvedBody::Circle {
            x: ns[x as int],
            y: ns[y as int],
            r: ns[r as int],
        },
        BodyDef::Rect { x, y, width, height } => ResolvedBody::Rect {
            x: ns[x as int],
            y: ns[y as int],
            width: ns[width as int],
            height: ns[height as int],
        },
    }
}

pub open spec fn resolve_start(ns: Seq<NumberText>, start: Option<(usize, usize)>) -> Option<(NumberText, NumberText)> {
    match start {
        Some((x, y)) => Some((ns[x as int], ns[y as int])),
        None => None,
    }
}

pub open spec fn resolve_bodies(ns: Seq<NumberText>, bodies: Seq<BodyDef>) -> Seq<ResolvedBody> {
    bodies.map_values(|b: BodyDef| resolve_body(ns, b))
}

/// A reader state resolved against the numbers `ns`.
pub open spec fn resolve_with(ns: Seq<NumberText>, s: ReaderState) -> Resolved {
    Resolved {
        circle: match s.circle {
            Some(c) => Some(ResolvedCircle {
                is_start: c.is_start,
                cx: resolve_index(ns, c.cx),
                cy: resolve_index(ns, c.cy),
                r: resolve_index(ns, c.r),
            }),
            None => None,
        },
        rect: match s.rect {
            Some(r) => Some(ResolvedRect {
                x: resolve_index(ns, r.x),
                y: resolve_index(ns, r.y),
                width: resolve_index(ns, r.width),
                height: resolve_index(ns, r.height),
            }),
            None => None,
        },
        start: resolve_start(ns, s.start),
        bodies: resolve_bodies(ns, s.bodies),
    }
}

/// A reader state with its numbers in place of their indices.
pub open spec fn resolve(s: ReaderState) -> Resolved {
    resolve_with(number_texts(s.events), s)
}

/// What a scan resolves to.
pub open spec fn resolve_scan(scan: ScanView) -> ResolvedMap {
    let ns = number_texts(scan.events);
    ResolvedMap {
        bodies: resolve_bodies(ns, scan.bodies),
        start: resolve_start(ns, scan.start),
        error: scan.error,
    }
}

// The reader's step on resolved states.

pub open spec fn r_attribute(r: Resolved, name: Seq<char>, value: Seq<char>) -> Resolved {
    if name == "id"@ {
        match r.circle {
            Some(c) => Resolved { circle: Some(ResolvedCircle { is_start: value == "start"@, ..c }), ..r },
            None => r,
        }
    } else if name == "cx"@ || name == "cy"@ || name == "r"@ {
        match r.circle {
            Some(c) => {
                let v = Some((value, name == "cy"@));
                let c2 = if name == "cx"@ {
                    ResolvedCircle { cx: v, ..c }
                } else if name == "cy"@ {
                    ResolvedCircle { cy: v, ..c }
                } else {
                    ResolvedCircle { r: v, ..c }
                };
                Resolved { circle: Some(c2), ..r }
            },
            None => r,
        }
    } else if name == "x"@ || name == "y"@ || name == "width"@ || name == "height"@ {
        match r.rect {
            Some(q) => {
                let v = Some((value, name == "y"@));
                let q2 = if name == "x"@ {
                    ResolvedRect { x: v, ..q }
                } else if name == "y"@ {
                    ResolvedRect { y: v, ..q }
                } else if name == "width"@ {
                    ResolvedRect { width: v, ..q }
                } else {
                    ResolvedRect { height: v, ..q }
                };
                Resolved { rect: Some(q2), ..r }
            },
            None => r,
        }
    } else {
        r
    }
}

pub open spec fn r_close_circle(r: Resolved, c: ResolvedCircle) -> Resolved {
    if c.is_start && c.cx is Some && c.cy is Some {
        Resolved { start: Some((c.cx->Some_0, c.cy->Some_0)), ..r }
    } else if !c.is_start && c.cx is Some && c.cy is Some && c.r is Some {
        Resolved {
            bodies: r.bodies.push(ResolvedBody::Circle { x: c.cx->Some_0, y: c.cy->Some_0, r: c.r->Some_0 }),
            ..r
        }
    } else {
        r
    }
}

pub open spec fn r_close_rect(r: Resolved, q: ResolvedRect) -> Resolved {
    if q.x is Some && q.y is Some && q.width is Some && q.height is Some {
        Resolved {
            bodies: r.bodies.push(
                ResolvedBody::Rect { x: q.x->Some_0, y: q.y->Some_0, width: q.width->Some_0, height: q.height->Some_0 },
            ),
            ..r
        }
    } else {
        r
    }
}

pub open spec fn r_empty_circle() -> ResolvedCircle {
    ResolvedCircle { is_start: false, cx: None, cy: None, r: None }
}

pub open spec fn r_empty_rect() -> ResolvedRect {
    ResolvedRect { x: None, y: None, width: None, height: None }
}

pub open spec fn r_step(r: Resolved, t: TokenView) -> Resolved {
    match t {
        MapToken::ElementStart(SvgName::Svg(name)) => {
            if name == "circle"@ {
                Resolved { circle: Some(r_empty_circle()), ..r }
            } else if name == "rect"@ {
                Resolved { rect: Some(r_empty_rect()), ..r }
            } else {
                r
            }
        },
        MapToken::Attribute(SvgName::Svg(name), value) => r_attribute(r, name, value),
        MapToken::ElementEnd(ElementEndKind::Empty) => match r.circle {
            Some(c) => r_close_circle(Resolved { circle: None, ..r }, c),
            None => match r.rect {
                Some(q) => r_close_rect(Resolved { rect: None, ..r }, q),
                None => r,
            },
        },
        _ => r,
    }
}

pub open spec fn r_read(r: Resolved, items: Seq<ItemView>) -> (Resolved, Option<Seq<char>>)
    decreases items.len(),
{
    if items.len() == 0 {
        (r, None)
    } else {
        match items[0] {
            Ok(t) => r_read(r_step(r, t), items.drop_first()),
            Err(m) => (r, Some(m)),
        }
    }
}

// Numbers and their signs.

proof fn lemma_texts_signs(events: Seq<ScanEvent<Seq<char>>>)
    ensures
        number_texts(events).len() == number_signs(events).len(),
        forall|i: int| 0 <= i < number_signs(events).len() ==> #[trigger] number_texts(events)[i].1 == number_signs(events)[i],
    decreases events.len(),
{
    if events.len() > 0 {
        lemma_texts_signs(events.drop_last());
    }
}

proof fn lemma_texts_push_number(events: Seq<ScanEvent<Seq<char>>>, text: Seq<char>, negated: bool)
    ensures
        number_texts(events.push(ScanEvent::Number { text, negated })) == number_texts(events).push((text, negated)),
{
    assert(events.push(ScanEvent::Number { text, negated }).drop_last() =~= events);
}

proof fn lemma_texts_push_warning(events: Seq<ScanEvent<Seq<char>>>, w: crate::map::MapWarning)
    ensures
        number_texts(events.push(ScanEvent::Warning(w))) == number_texts(events),
{
    assert(events.push(ScanEvent::Warning(w)).drop_last() =~= events);
}

proof fn lemma_names_differ()
    ensures
        "cx"@ != "cy"@,
        "cx"@ != "id"@,
        "cy"@ != "id"@,
        "r"@ != "x"@,
        "r"@ != "y"@,
        "x"@ != "y"@,
        "width"@ != "height"@,
        "circle"@ != "rect"@,
        "id"@.len() == 2,
        "cx"@.len() == 2,
        "cy"@.len() == 2,
        "r"@.len() == 1,
        "x"@.len() == 1,
        "y"@.len() == 1,
        "width"@.len() == 5,
        "height"@.len() == 6,
        "circle"@.len() == 6,
        "rect"@.len() == 4,
{
    reveal_strlit("cx");
    reveal_strlit("cy");
    reveal_strlit("id");
    reveal_strlit("r");
    reveal_strlit("x");
    reveal_strlit("y");
    reveal_strlit("width");
    reveal_strlit("height");
    reveal_strlit("circle");
    reveal_strlit("rect");
    assert("cx"@[1] != "cy"@[1]);
    assert("cx"@[0] != "id"@[0]);
    assert("cy"@[0] != "id"@[0]);
    assert("r"@[0] != "x"@[0]);
    assert("r"@[0] != "y"@[0]);
    assert("x"@[0] != "y"@[0]);
    assert("width"@.len() != "height"@.len());
    assert("circle"@.len() != "rect"@.len());
}

/// Resolving against more numbers, of which those of the state come first,
/// changes nothing.
proof fn lemma_resolve_extended(s: ReaderState, ns2: Seq<NumberText>)
    requires
        state_refs_ok(s),
        ns2.len() >= number_texts(s.events).len(),
        forall|i: int| 0 <= i < number_texts(s.events).len() ==> ns2[i] == number_texts(s.events)[i],
    ensures
        resolve_with(ns2, s) == resolve(s),
{
    let ns = number_texts(s.events);
    lemma_texts_signs(s.events);
    assert(resolve_bodies(ns2, s.bodies) =~= resolve_bodies(ns, s.bodies)) by {
        assert forall|i: int| 0 <= i < s.bodies.len() implies resolve_body(ns2, s.bodies[i])
            == resolve_body(ns, s.bodies[i]) by {
            assert(crate::map_laws::body_refs_ok(number_signs(s.events), s.bodies[i]));
        }
    }
}

proof fn lemma_resolve_attribute(s: ReaderState, name: Seq<char>, value: Seq<char>)
    requires
        state_refs_ok(s),
        s.numbers <= usize::MAX,
    ensures
        resolve(crate::map::attribute_step(s, name, value)) == r_attribute(resolve(s), name, value),
{
    lemma_names_differ();
    let ns = number_texts(s.events);
    lemma_texts_signs(s.events);
    if name == "cx"@ || name == "cy"@ || name == "r"@ || name == "x"@ || name == "y"@
        || name == "width"@ || name == "height"@ {
        let neg = if name == "cx"@ || name == "cy"@ || name == "r"@ { name == "cy"@ } else { name == "y"@ };
        lemma_texts_push_number(s.events, value, neg);
        let ns2 = ns.push((value, neg));
        lemma_resolve_extended(s, ns2);
        assert(ns2[s.numbers as int] == (value, neg));
    }
}

proof fn lemma_resolve_step(s: ReaderState, t: TokenView)
    requires
        state_refs_ok(s),
        s.numbers <= usize::MAX,
    ensures
        resolve(step(s, t)) == r_step(resolve(s), t),
{
    lemma_names_differ();
    let ns = number_texts(s.events);
    match t {
        MapToken::Attribute(SvgName::Svg(name), value) => {
            lemma_resolve_attribute(s, name, value);
        },
        MapToken::ElementEnd(ElementEndKind::Empty) => {
            lemma_texts_signs(s.events);
            lemma_texts_push_warning(s.events, crate::map::MapWarning::StartRedefined);
            lemma_texts_push_warning(s.events, crate::map::MapWarning::IncompleteCircle);
            lemma_texts_push_warning(s.events, crate::map::MapWarning::IncompleteRect);
            let rs = resolve(s);
            match s.circle {
                Some(c) => {
                    let s2 = step(s, t);
                    assert(resolve_bodies(ns, s2.bodies) =~= r_step(rs, t).bodies);
                },
                None => match s.rect {
                    Some(q) => {
                        let s2 = step(s, t);
                        assert(resolve_bodies(ns, s2.bodies) =~= r_step(rs, t).bodies);
                    },
                    None => {},
                },
            }
        },
        _ => {},
    }
}

proof fn lemma_resolve_read(s: ReaderState, items: Seq<ItemView>)
    requires
        state_refs_ok(s),
        s.numbers + items.len() <= usize::MAX,
    ensures
        resolve(read_items(s, items).0) == r_read(resolve(s), items).0,
        read_items(s, items).1 == r_read(resolve(s), items).1,
    decreases items.len(),
{
    if items.len() > 0 {
        if let Ok(t) = items[0] {
            lemma_resolve_step(s, t);
            lemma_step_keeps_refs(s, t);
            lemma_resolve_read(step(s, t), items.drop_first());
        }
    }
}

/// The resolved state of a reader that has read nothing.
pub open spec fn r_initial() -> Resolved {
    Resolved { circle: None, rect: None, start: None, bodies: Seq::empty() }
}

/// What a token stream resolves to, read on resolved states.
pub open spec fn r_map(items: Seq<ItemView>) -> ResolvedMap {
    let (r, e) = r_read(r_initial(), items);
    ResolvedMap { bodies: r.bodies, start: r.start, error: e }
}

/// What a scan resolves to is what reading its tokens on resolved states
/// gives: the resolved reader (`r_step`, `r_read`) is an exact account of
/// the bodies and start of a map, without indices. Streams of more than
/// `usize::MAX` items are left out.
pub proof fn law_scan_resolves_as_read(items: Seq<ItemView>)
    requires
        items.len() <= usize::MAX,
    ensures
        resolve_scan(scan_items(items)) == r_map(items),
{
    let s0 = initial_state();
    assert(number_signs(s0.events) =~= Seq::<bool>::empty());
    assert(number_texts(s0.events) =~= Seq::<NumberText>::empty());
    assert(resolve_bodies(number_texts(s0.events), s0.bodies) =~= Seq::<ResolvedBody>::empty());
    assert(resolve(s0) == r_initial());
    lemma_resolve_read(s0, items);
    let (s, e) = read_items(s0, items);
    lemma_texts_push_warning(s.events, crate::map::MapWarning::NoStart);
}

/// `n` is one of the eight SVG attribute names the reader uses: `id`, `cx`,
/// `cy` and `r` of a circle, `x`, `y`, `width` and `height` of a rectangle.
pub open spec fn map_attribute_name(n: SvgName<Seq<char>>) -> bool {
    match n {
        SvgName::Svg(m) => {
            ||| m == "id"@
            ||| m == "cx"@
            ||| m == "cy"@
            ||| m == "r"@
            ||| m == "x"@
            ||| m == "y"@
            ||| m == "width"@
            ||| m == "height"@
        },
        SvgName::Xml(_) => false,
    }
}

/// Two attribute tokens can change places: their names differ, or the name
/// is not one the reader uses.
pub open spec fn attributes_commute(x: TokenView, y: TokenView) -> bool {
    x->Attribute_0 != y->Attribute_0 || !map_attribute_name(x->Attribute_0)
}

/// No name the reader uses is given twice among these attributes.
pub open spec fn no_repeated_map_name(attrs: Seq<ItemView>) -> bool {
    forall|i: int, j: int|
        #![trigger attrs[i], attrs[j]]
        0 <= i < attrs.len() && 0 <= j < attrs.len() && i != j ==> attributes_commute(
            attrs[i]->Ok_0,
            attrs[j]->Ok_0,
        )
}

proof fn lemma_r_attributes_commute(r: Resolved, x: TokenView, y: TokenView)
    requires
        x is Attribute,
        y is Attribute,
        attributes_commute(x, y),
    ensures
        r_step(r_step(r, x), y) == r_step(r_step(r, y), x),
{
    lemma_names_differ();
    if x->Attribute_0 == y->Attribute_0 {
        assert(r_step(r, x) == r);
        assert(r_step(r, y) == r);
    }
}

proof fn lemma_r_swap(r: Resolved, a: Seq<ItemView>, x: TokenView, y: TokenView, b: Seq<ItemView>)
    requires
        x is Attribute,
        y is Attribute,
        attributes_commute(x, y),
    ensures
        r_read(r, a + seq![Ok(x), Ok(y)] + b) == r_read(r, a + seq![Ok(y), Ok(x)] + b),
    decreases a.len(),
{
    let p = a + seq![Ok(x), Ok(y)] + b;
    let q = a + seq![Ok(y), Ok(x)] + b;
    if a.len() == 0 {
        assert(p[0] == Ok::<TokenView, Seq<char>>(x));
        assert(q[0] == Ok::<TokenView, Seq<char>>(y));
        assert(p.drop_first()[0] == Ok::<TokenView, Seq<char>>(y));
        assert(q.drop_first()[0] == Ok::<TokenView, Seq<char>>(x));
        assert(p.drop_first().drop_first() =~= b);
        assert(q.drop_first().drop_first() =~= b);
        lemma_r_attributes_commute(r, x, y);
        assert(r_read(r, p) == r_read(r_step(r, x), p.drop_first()));
        assert(r_read(r_step(r, x), p.drop_first()) == r_read(r_step(r_step(r, x), y), b));
        assert(r_read(r, q) == r_read(r_step(r, y), q.drop_first()));
        assert(r_read(r_step(r, y), q.drop_first()) == r_read(r_step(r_step(r, y), x), b));
    } else {
        assert(p[0] == a[0]);
        assert(q[0] == a[0]);
        if let Ok(t) = a[0] {
            assert(p.drop_first() =~= a.drop_first() + seq![Ok(x), Ok(y)] + b);
            assert(q.drop_first() =~= a.drop_first() + seq![Ok(y), Ok(x)] + b);
            lemma_r_swap(r_step(r, t), a.drop_first(), x, y, b);
        }
    }
}

/// An attribute `x` that commutes with every attribute of `p` can move
/// in front of them.
proof fn lemma_r_bubble(r: Resolved, a: Seq<ItemView>, p: Seq<ItemView>, x: TokenView, q: Seq<ItemView>)
    requires
        x is Attribute,
        all_attributes(p),
        forall|i: int| 0 <= i < p.len() ==> attributes_commute(#[trigger] p[i]->Ok_0, x),
    ensures
        r_read(r, a + p + seq![Ok(x)] + q) == r_read(r, a + seq![Ok(x)] + p + q),
    decreases p.len(),
{
    if p.len() == 0 {
        assert(a + p + seq![Ok(x)] + q =~= a + seq![Ok(x)] + p + q);
    } else {
        let p1 = p.drop_last();
        let last = p[p.len() - 1];
        assert(last is Ok && last->Ok_0 is Attribute);
        let y = last->Ok_0;
        assert(attributes_commute(y, x));
        assert(a + p + seq![Ok(x)] + q =~= (a + p1) + seq![Ok(y), Ok(x)] + q);
        lemma_r_swap(r, a + p1, y, x, q);
        assert((a + p1) + seq![Ok(x), Ok(y)] + q =~= a + p1 + seq![Ok(x)] + (seq![Ok(y)] + q));
        assert forall|i: int| 0 <= i < p1.len() implies #[trigger] p1[i] is Ok && p1[i]->Ok_0 is Attribute by {
            assert(p1[i] == p[i]);
        }
        assert forall|i: int| 0 <= i < p1.len() implies attributes_commute(#[trigger] p1[i]->Ok_0, x) by {
            assert(p1[i] == p[i]);
        }
        lemma_r_bubble(r, a, p1, x, seq![Ok(y)] + q);
        assert(a + seq![Ok(x)] + p1 + (seq![Ok(y)] + q) =~= a + seq![Ok(x)] + p + q);
    }
}

/// Reading a run of attributes in another order, with no name the reader
/// uses given twice, reads to the same resolved state.
proof fn lemma_r_permuted(r: Resolved, a: Seq<ItemView>, attrs: Seq<ItemView>, attrs2: Seq<ItemView>, b: Seq<ItemView>)
    requires
        all_attributes(attrs),
        no_repeated_map_name(attrs),
        attrs2.to_multiset() == attrs.to_multiset(),
    ensures
        r_read(r, a + attrs + b) == r_read(r, a + attrs2 + b),
    decreases attrs.len(),
{
    broadcast use vstd::seq_lib::group_to_multiset_ensures;

    if attrs.len() == 0 {
        assert(attrs.to_multiset().len() == attrs.len());
        assert(attrs2.to_multiset().len() == attrs2.len());
        assert(attrs2.len() == 0);
        assert(a + attrs + b =~= a + attrs2 + b);
    } else {
        assert(attrs2.to_multiset().len() == attrs2.len());
        let x = attrs2[0];
        assert(attrs2.contains(x));
        assert(attrs2.to_multiset().count(x) > 0);
        assert(attrs.contains(x));
        let k = choose|k: int| 0 <= k < attrs.len() && attrs[k] == x;
        assert(attrs[k] is Ok && attrs[k]->Ok_0 is Attribute);
        let p = attrs.subrange(0, k);
        let q = attrs.subrange(k + 1, attrs.len() as int);
        assert(attrs =~= p + seq![x] + q);
        assert forall|i: int| 0 <= i < p.len() implies #[trigger] p[i] is Ok && p[i]->Ok_0 is Attribute by {
            assert(p[i] == attrs[i]);
        }
        assert forall|i: int| 0 <= i < p.len() implies attributes_commute(#[trigger] p[i]->Ok_0, x->Ok_0) by {
            assert(p[i] == attrs[i]);
            assert(attributes_commute(attrs[i]->Ok_0, attrs[k]->Ok_0));
        }
        lemma_r_bubble(r, a, p, x->Ok_0, q + b);
        assert(a + attrs + b =~= a + p + seq![x] + (q + b));
        let rest = attrs.remove(k);
        assert(rest =~= p + q);
        assert(rest.to_multiset() == attrs.to_multiset().remove(x));
        assert(attrs2.remove(0).to_multiset() == attrs2.to_multiset().remove(x));
        assert(attrs2.remove(0) =~= attrs2.drop_first());
        assert forall|i: int| 0 <= i < rest.len() implies #[trigger] rest[i] is Ok && rest[i]->Ok_0 is Attribute by {
            if i < k {
                assert(rest[i] == attrs[i]);
            } else {
                assert(rest[i] == attrs[i + 1]);
            }
        }
        assert forall|i: int, j: int|
            #![trigger rest[i], rest[j]]
            0 <= i < rest.len() && 0 <= j < rest.len() && i != j implies attributes_commute(
                rest[i]->Ok_0,
                rest[j]->Ok_0,
            ) by {
            let i2 = if i < k { i } else { i + 1 };
            let j2 = if j < k { j } else { j + 1 };
            assert(rest[i] == attrs[i2]);
            assert(rest[j] == attrs[j2]);
            assert(attributes_commute(attrs[i2]->Ok_0, attrs[j2]->Ok_0));
        }
        lemma_r_permuted(r, a + seq![x], rest, attrs2.drop_first(), b);
        assert(a + seq![x] + rest + b =~= a + seq![x] + p + (q + b));
        assert(a + seq![x] + attrs2.drop_first() + b =~= a + attrs2 + b);
    }
}

/// The attributes of an element can be written in any order: a run of
/// attribute tokens, such as the attributes of one circle or rectangle, read
/// in another order (`attrs2` holds the same items as `attrs`) gives the
/// same bodies and start, and the same error. Only the numbering of the
/// numbers, and so the order in which they are parsed, changes. Left out: a
/// name the reader uses given twice, where the last value wins (`cx="0"
/// cx="3"` and `cx="3" cx="0"` differ), and streams of more than
/// `usize::MAX` items.
pub proof fn law_attributes_in_any_order(
    a: Seq<ItemView>,
    attrs: Seq<ItemView>,
    attrs2: Seq<ItemView>,
    b: Seq<ItemView>,
)
    requires
        all_attributes(attrs),
        no_repeated_map_name(attrs),
        attrs2.to_multiset() == attrs.to_multiset(),
        (a + attrs + b).len() <= usize::MAX,
    ensures
        resolve_scan(scan_items(a + attrs + b)) == resolve_scan(scan_items(a + attrs2 + b)),
{
    broadcast use vstd::seq_lib::group_to_multiset_ensures;

    assert(attrs2.to_multiset().len() == attrs2.len());
    assert((a + attrs2 + b).len() == (a + attrs + b).len());
    law_scan_resolves_as_read(a + attrs + b);
    law_scan_resolves_as_read(a + attrs2 + b);
    lemma_r_permuted(r_initial(), a, attrs, attrs2, b);
}

/// Every item is a token.
pub open spec fn all_tokens(items: Seq<ItemView>) -> bool {
    forall|i: int| 0 <= i < items.len() ==> #[trigger] items[i] is Ok
}

/// Every item is an attribute token.
pub open spec fn all_attributes(items: Seq<ItemView>) -> bool {
    forall|i: int| 0 <= i < items.len() ==> #[trigger] items[i] is Ok && items[i]->Ok_0 is Attribute
}

/// The attributes hold one with the SVG name `name`.
pub open spec fn has_attribute(attrs: Seq<ItemView>, name: Seq<char>) -> bool
    decreases attrs.len(),
{
    if attrs.len() == 0 {
        false
    } else {
        ||| (attrs[0] matches Ok(MapToken::Attribute(SvgName::Svg(n), _)) && n == name)
        ||| has_attribute(attrs.drop_first(), name)
    }
}

/// The value of the last attribute with the SVG name `name`.
pub open spec fn last_value(attrs: Seq<ItemView>, name: Seq<char>) -> Seq<char>
    decreases attrs.len(),
{
    if attrs.len() == 0 {
        Seq::empty()
    } else if has_attribute(attrs.drop_first(), name) {
        last_value(attrs.drop_first(), name)
    } else {
        match attrs[0] {
            Ok(MapToken::Attribute(_, v)) => v,
            _ => Seq::empty(),
        }
    }
}

/// A field of a circle or rectangle after these attributes: the last value
/// given to `name`, with the sign `negated`, or `before` if none is.
pub open spec fn field_after(
    before: Option<NumberText>,
    attrs: Seq<ItemView>,
    name: Seq<char>,
    negated: bool,
) -> Option<NumberText> {
    if has_attribute(attrs, name) {
        Some((last_value(attrs, name), negated))
    } else {
        before
    }
}

/// Whether a circle is the start after these attributes, `was` telling
/// whether it was before them: the last SVG `id` attribute decides.
pub open spec fn start_after(was: bool, attrs: Seq<ItemView>) -> bool
    decreases attrs.len(),
{
    if attrs.len() == 0 {
        was
    } else {
        match attrs[0] {
            Ok(MapToken::Attribute(SvgName::Svg(n), v)) => if n == "id"@ {
                start_after(v == "start"@, attrs.drop_first())
            } else {
                start_after(was, attrs.drop_first())
            },
            _ => start_after(was, attrs.drop_first()),
        }
    }
}

/// The tokens of an element `<name attrs/>`.
pub open spec fn empty_element(name: Seq<char>, attrs: Seq<ItemView>) -> Seq<ItemView> {
    seq![Ok(MapToken::ElementStart(SvgName::Svg(name)))] + attrs + seq![
        Ok(MapToken::ElementEnd(ElementEndKind::Empty)),
    ]
}

/// `<name attrs/>` is a circle or rectangle that lacks what it needs: a
/// start circle without `cx` or `cy`, another circle without `cx`, `cy` or
/// `r`, a rectangle without `x`, `y`, `width` or `height`.
pub open spec fn incomplete_element(name: Seq<char>, attrs: Seq<ItemView>) -> bool {
    if name == "circle"@ {
        if start_after(false, attrs) {
            !has_attribute(attrs, "cx"@) || !has_attribute(attrs, "cy"@)
        } else {
            !has_attribute(attrs, "cx"@) || !has_attribute(attrs, "cy"@) || !has_attribute(attrs, "r"@)
        }
    } else if name == "rect"@ {
        ||| !has_attribute(attrs, "x"@)
        ||| !has_attribute(attrs, "y"@)
        ||| !has_attribute(attrs, "width"@)
        ||| !has_attribute(attrs, "height"@)
    } else {
        false
    }
}

/// After reading `items`, a circle or a rectangle is still open.
pub open spec fn open_after(items: Seq<ItemView>) -> bool {
    let s = read_items(initial_state(), items).0;
    s.circle is Some || s.rect is Some
}

proof fn lemma_r_prefix(r: Resolved, a: Seq<ItemView>, rest: Seq<ItemView>)
    requires
        all_tokens(a),
    ensures
        r_read(r, a + rest) == r_read(r_read(r, a).0, rest),
        r_read(r, a).1 is None,
    decreases a.len(),
{
    if a.len() > 0 {
        assert(a[0] is Ok);
        assert((a + rest)[0] == a[0]);
        assert((a + rest).drop_first() =~= a.drop_first() + rest);
        assert forall|i: int| 0 <= i < a.drop_first().len() implies #[trigger] a.drop_first()[i] is Ok by {
            assert(a.drop_first()[i] == a[i + 1]);
        }
        lemma_r_prefix(r_step(r, a[0]->Ok_0), a.drop_first(), rest);
    } else {
        assert(a + rest =~= rest);
    }
}

proof fn lemma_attributes_rest(attrs: Seq<ItemView>)
    requires
        all_attributes(attrs),
        attrs.len() > 0,
    ensures
        all_attributes(attrs.drop_first()),
        attrs[0] is Ok && attrs[0]->Ok_0 is Attribute,
{
    assert(attrs[0] is Ok && attrs[0]->Ok_0 is Attribute);
    assert forall|i: int| 0 <= i < attrs.drop_first().len() implies #[trigger] attrs.drop_first()[i] is Ok
        && attrs.drop_first()[i]->Ok_0 is Attribute by {
        assert(attrs.drop_first()[i] == attrs[i + 1]);
    }
}

proof fn lemma_r_circle_attributes(r: Resolved, attrs: Seq<ItemView>)
    requires
        r.circle is Some,
        r.rect is None,
        all_attributes(attrs),
    ensures
        ({
            let r2 = r_read(r, attrs).0;
            let c = r.circle->Some_0;
            &&& r_read(r, attrs).1 is None
            &&& r2.rect is None
            &&& r2.start == r.start
            &&& r2.bodies == r.bodies
            &&& r2.circle is Some
            &&& r2.circle->Some_0.cx == field_after(c.cx, attrs, "cx"@, false)
            &&& r2.circle->Some_0.cy == field_after(c.cy, attrs, "cy"@, true)
            &&& r2.circle->Some_0.r == field_after(c.r, attrs, "r"@, false)
            &&& r2.circle->Some_0.is_start == start_after(c.is_start, attrs)
        }),
    decreases attrs.len(),
{
    lemma_names_differ();
    if attrs.len() > 0 {
        lemma_attributes_rest(attrs);
        let t = attrs[0]->Ok_0;
        assert(r_read(r, attrs) == r_read(r_step(r, t), attrs.drop_first()));
        lemma_r_circle_attributes(r_step(r, t), attrs.drop_first());
    }
}

proof fn lemma_r_rect_attributes(r: Resolved, attrs: Seq<ItemView>)
    requires
        r.circle is None,
        r.rect is Some,
        all_attributes(attrs),
    ensures
        ({
            let r2 = r_read(r, attrs).0;
            let q = r.rect->Some_0;
            &&& r_read(r, attrs).1 is None
            &&& r2.circle is None
            &&& r2.start == r.start
            &&& r2.bodies == r.bodies
            &&& r2.rect is Some
            &&& r2.rect->Some_0.x == field_after(q.x, attrs, "x"@, false)
            &&& r2.rect->Some_0.y == field_after(q.y, attrs, "y"@, true)
            &&& r2.rect->Some_0.width == field_after(q.width, attrs, "width"@, false)
            &&& r2.rect->Some_0.height == field_after(q.height, attrs, "height"@, false)
        }),
    decreases attrs.len(),
{
    lemma_names_differ();
    if attrs.len() > 0 {
        lemma_attributes_rest(attrs);
        let t = attrs[0]->Ok_0;
        assert(r_read(r, attrs) == r_read(r_step(r, t), attrs.drop_first()));
        lemma_r_rect_attributes(r_step(r, t), attrs.drop_first());
    }
}

/// What an element `<name attrs/>` does to the map it resolves to, where no
/// element is open: a complete start circle sets the start to its centre,
/// a complete circle or rectangle adds its body, anything else adds nothing.
/// Each field is the last value given to it, a `y` coordinate negated.
pub open spec fn element_effect(r: Resolved, name: Seq<char>, attrs: Seq<ItemView>) -> Resolved {
    if name == "circle"@ {
        let cx = field_after(None, attrs, "cx"@, false);
        let cy = field_after(None, attrs, "cy"@, true);
        let rad = field_after(None, attrs, "r"@, false);
        if start_after(false, attrs) {
            if cx is Some && cy is Some {
                Resolved { start: Some((cx->Some_0, cy->Some_0)), ..r }
            } else {
                r
            }
        } else if cx is Some && cy is Some && rad is Some {
            Resolved {
                bodies: r.bodies.push(ResolvedBody::Circle { x: cx->Some_0, y: cy->Some_0, r: rad->Some_0 }),
                ..r
            }
        } else {
            r
        }
    } else if name == "rect"@ {
        let x = field_after(None, attrs, "x"@, false);
        let y = field_after(None, attrs, "y"@, true);
        let w = field_after(None, attrs, "width"@, false);
        let h = field_after(None, attrs, "height"@, false);
        if x is Some && y is Some && w is Some && h is Some {
            Resolved {
                bodies: r.bodies.push(
                    ResolvedBody::Rect { x: x->Some_0, y: y->Some_0, width: w->Some_0, height: h->Some_0 },
                ),
                ..r
            }
        } else {
            r
        }
    } else {
        r
    }
}

proof fn lemma_r_attributes_nothing_open(r: Resolved, attrs: Seq<ItemView>)
    requires
        r.circle is None,
        r.rect is None,
        all_attributes(attrs),
    ensures
        r_read(r, attrs) == (r, None::<Seq<char>>),
    decreases attrs.len(),
{
    if attrs.len() > 0 {
        lemma_attributes_rest(attrs);
        let t = attrs[0]->Ok_0;
        assert(r_step(r, t) == r);
        lemma_r_attributes_nothing_open(r, attrs.drop_first());
    }
}

/// An element `<name attrs/>` read where no element is open does to the
/// map what `element_effect` says, whatever follows it: so the bodies are
/// the complete circles and rectangles in the order they close, and the
/// start is the centre of the last complete start circle.
pub proof fn law_element_effect(r: Resolved, name: Seq<char>, attrs: Seq<ItemView>, b: Seq<ItemView>)
    requires
        r.circle is None,
        r.rect is None,
        all_attributes(attrs),
    ensures
        r_read(r, empty_element(name, attrs) + b) == r_read(element_effect(r, name, attrs), b),
{
    lemma_names_differ();
    let start_tok = MapToken::ElementStart(SvgName::Svg(name));
    let end_tok = MapToken::<Seq<char>>::ElementEnd(ElementEndKind::Empty);
    let items = empty_element(name, attrs) + b;
    assert(items[0] == Ok::<TokenView, Seq<char>>(start_tok));
    assert(items.drop_first() =~= attrs + (seq![Ok(end_tok)] + b));
    let r1 = r_step(r, start_tok);
    assert(r_read(r, items) == r_read(r1, attrs + (seq![Ok(end_tok)] + b)));
    assert forall|i: int| 0 <= i < attrs.len() implies #[trigger] attrs[i] is Ok by {
        assert(attrs[i] is Ok && attrs[i]->Ok_0 is Attribute);
    }
    lemma_r_prefix(r1, attrs, seq![Ok(end_tok)] + b);
    let r2 = r_read(r1, attrs).0;
    let tail = seq![Ok(end_tok)] + b;
    assert(tail[0] == Ok::<TokenView, Seq<char>>(end_tok));
    assert(tail.drop_first() =~= b);
    assert(r_read(r2, tail) == r_read(r_step(r2, end_tok), b));
    if name == "circle"@ {
        lemma_r_circle_attributes(r1, attrs);
        let c = r2.circle->Some_0;
        assert(r_step(r2, end_tok) == r_close_circle(Resolved { circle: None, ..r2 }, c));
        assert(r_step(r2, end_tok) == element_effect(r, name, attrs));
    } else if name == "rect"@ {
        lemma_r_rect_attributes(r1, attrs);
        let q = r2.rect->Some_0;
        assert(r_step(r2, end_tok) == r_close_rect(Resolved { rect: None, ..r2 }, q));
        assert(r_step(r2, end_tok) == element_effect(r, name, attrs));
    } else {
        assert(r1 == r);
        lemma_r_attributes_nothing_open(r, attrs);
        assert(r_step(r2, end_tok) == r);
    }
}

proof fn lemma_r_incomplete_element(r: Resolved, name: Seq<char>, attrs: Seq<ItemView>, b: Seq<ItemView>)
    requires
        r.circle is None,
        r.rect is None,
        all_attributes(attrs),
        incomplete_element(name, attrs),
    ensures
        r_read(r, empty_element(name, attrs) + b) == r_read(r, b),
{
    law_element_effect(r, name, attrs, b);
    assert(element_effect(r, name, attrs) == r);
}

/// An incomplete circle or rectangle, `<name attrs/>`, put into a map where
/// no element is open, only adds warnings (and numbers to parse): the
/// bodies and the start the map resolves to, and its error, stay as they
/// were. Streams of more than `usize::MAX` items are left out.
pub proof fn law_incomplete_element_changes_nothing(
    a: Seq<ItemView>,
    name: Seq<char>,
    attrs: Seq<ItemView>,
    b: Seq<ItemView>,
)
    requires
        all_tokens(a),
        !open_after(a),
        all_attributes(attrs),
        incomplete_element(name, attrs),
        (a + empty_element(name, attrs) + b).len() <= usize::MAX,
    ensures
        resolve_scan(scan_items(a + empty_element(name, attrs) + b)) == resolve_scan(
            scan_items(a + b),
        ),
{
    let e = empty_element(name, attrs);
    law_scan_resolves_as_read(a + e + b);
    law_scan_resolves_as_read(a + b);
    let s0 = initial_state();
    assert(number_signs(s0.events) =~= Seq::<bool>::empty());
    assert(number_texts(s0.events) =~= Seq::<NumberText>::empty());
    assert(resolve_bodies(number_texts(s0.events), s0.bodies) =~= Seq::<ResolvedBody>::empty());
    assert(resolve(s0) == r_initial());
    lemma_resolve_read(s0, a);
    let ra = r_read(r_initial(), a).0;
    assert(ra.circle is None && ra.rect is None);
    assert(a + e + b =~= a + (e + b));
    lemma_r_prefix(r_initial(), a, e + b);
    lemma_r_prefix(r_initial(), a, b);
    lemma_r_incomplete_element(ra, name, attrs, b);
}

/// The attribute token `name="value"` with an SVG name.
pub open spec fn svg_attribute(name: Seq<char>, value: Seq<char>) -> ItemView {
    Ok(MapToken::Attribute(SvgName::Svg(name), value))
}

/// `<circle cx="x" cy="y" r="rad"/>`, read where no element is open, adds
/// the circle body with centre `(x, -y)` and radius `rad`, for every `x`,
/// `y` and `rad`.
pub proof fn law_circle_becomes_body(r: Resolved, x: Seq<char>, y: Seq<char>, rad: Seq<char>, b: Seq<ItemView>)
    requires
        r.circle is None,
        r.rect is None,
    ensures
        r_read(
            r,
            empty_element("circle"@, seq![svg_attribute("cx"@, x), svg_attribute("cy"@, y), svg_attribute("r"@, rad)])
                + b,
        ) == r_read(
            Resolved {
                bodies: r.bodies.push(ResolvedBody::Circle { x: (x, false), y: (y, true), r: (rad, false) }),
                ..r
            },
            b,
        ),
{
    lemma_names_differ();
    let attrs = seq![svg_attribute("cx"@, x), svg_attribute("cy"@, y), svg_attribute("r"@, rad)];
    assert forall|i: int| 0 <= i < attrs.len() implies #[trigger] attrs[i] is Ok && attrs[i]->Ok_0 is Attribute by {}
    law_element_effect(r, "circle"@, attrs, b);
    reveal_with_fuel(has_attribute, 4);
    reveal_with_fuel(last_value, 4);
    reveal_with_fuel(start_after, 4);
    assert(attrs.drop_first() =~= seq![svg_attribute("cy"@, y), svg_attribute("r"@, rad)]);
    assert(attrs.drop_first().drop_first() =~= seq![svg_attribute("r"@, rad)]);
    assert(attrs.drop_first().drop_first().drop_first() =~= Seq::<ItemView>::empty());
}

/// `<circle id="start" cx="x" cy="y"/>`, read where no element is open,
/// sets the start to `(x, -y)`, for every `x` and `y`.
pub proof fn law_start_circle_sets_start(r: Resolved, x: Seq<char>, y: Seq<char>, b: Seq<ItemView>)
    requires
        r.circle is None,
        r.rect is None,
    ensures
        r_read(
            r,
            empty_element("circle"@, seq![svg_attribute("id"@, "start"@), svg_attribute("cx"@, x), svg_attribute("cy"@, y)])
                + b,
        ) == r_read(Resolved { start: Some(((x, false), (y, true))), ..r }, b),
{
    lemma_names_differ();
    let attrs = seq![svg_attribute("id"@, "start"@), svg_attribute("cx"@, x), svg_attribute("cy"@, y)];
    assert forall|i: int| 0 <= i < attrs.len() implies #[trigger] attrs[i] is Ok && attrs[i]->Ok_0 is Attribute by {}
    law_element_effect(r, "circle"@, attrs, b);
    reveal_with_fuel(has_attribute, 4);
    reveal_with_fuel(last_value, 4);
    reveal_with_fuel(start_after, 4);
    assert(attrs.drop_first() =~= seq![svg_attribute("cx"@, x), svg_attribute("cy"@, y)]);
    assert(attrs.drop_first().drop_first() =~= seq![svg_attribute("cy"@, y)]);
    assert(attrs.drop_first().drop_first().drop_first() =~= Seq::<ItemView>::empty());
}

/// `<rect x="x" y="y" width="w" height="h"/>`, read where no element is
/// open, adds the rectangle body with corner `(x, -y)`, width `w` and height
/// `h`, for every `x`, `y`, `w` and `h`.
pub proof fn law_rect_becomes_body(
    r: Resolved,
    x: Seq<char>,
    y: Seq<char>,
    w: Seq<char>,
    h: Seq<char>,
    b: Seq<ItemView>,
)
    requires
        r.circle is None,
        r.rect is None,
    ensures
        r_read(
            r,
            empty_element(
                "rect"@,
                seq![svg_attribute("x"@, x), svg_attribute("y"@, y), svg_attribute("width"@, w), svg_attribute("height"@, h)],
            ) + b,
        ) == r_read(
            Resolved {
                bodies: r.bodies.push(
                    ResolvedBody::Rect { x: (x, false), y: (y, true), width: (w, false), height: (h, false) },
                ),
                ..r
            },
            b,
        ),
{
    lemma_names_differ();
    let attrs = seq![svg_attribute("x"@, x), svg_attribute("y"@, y), svg_attribute("width"@, w), svg_attribute("height"@, h)];
    assert forall|i: int| 0 <= i < attrs.len() implies #[trigger] attrs[i] is Ok && attrs[i]->Ok_0 is Attribute by {}
    law_element_effect(r, "rect"@, attrs, b);
    reveal_with_fuel(has_attribute, 5);
    reveal_with_fuel(last_value, 5);
    assert(attrs.drop_first() =~= seq![svg_attribute("y"@, y), svg_attribute("width"@, w), svg_attribute("height"@, h)]);
    assert(attrs.drop_first().drop_first() =~= seq![svg_attribute("width"@, w), svg_attribute("height"@, h)]);
    assert(attrs.drop_first().drop_first().drop_first() =~= seq![svg_attribute("height"@, h)]);
    assert(attrs.drop_first().drop_first().drop_first().drop_first() =~= Seq::<ItemView>::empty());
}

} // verus!
