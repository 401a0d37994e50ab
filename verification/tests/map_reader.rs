use airjump::map::{
    read_map_file, scan_map, scan_tokens, settle_scan, BodyDef, MapError, MapReader, MapScan, MapWarning, ScanEvent,
    MAP_FILE,
};
use airjump::svg::{ElementEndKind, MapToken, SvgError, SvgItem, SvgName};

fn num(text: &str, negated: bool) -> ScanEvent<String> {
    ScanEvent::Number { text: text.to_string(), negated }
}

fn svg(name: &str) -> SvgName<String> {
    SvgName::Svg(name.to_string())
}

fn start(name: &str) -> SvgItem {
    Ok(MapToken::ElementStart(svg(name)))
}

fn attr(name: &str, value: &str) -> SvgItem {
    Ok(MapToken::Attribute(svg(name), value.to_string()))
}

fn end() -> SvgItem {
    Ok(MapToken::ElementEnd(ElementEndKind::Empty))
}

fn open() -> SvgItem {
    Ok(MapToken::ElementEnd(ElementEndKind::Open))
}

fn close(name: &str) -> SvgItem {
    Ok(MapToken::ElementEnd(ElementEndKind::Close(svg(name))))
}

const MAP: &str = r#"<?xml version="1.0" encoding="UTF-8"?>
<svg xmlns="http://www.w3.org/2000/svg" width="100" height="100">
  <!-- the player starts here -->
  <circle id="start" cx="10" cy="20" r="5"/>
  <circle cx="1.5" cy="2" r="3"/>
  <rect x="0" y="100" width="50" height="10"/>
</svg>
"#;

#[test]
fn reads_circles_rects_and_start() {
    let scan = scan_map(MAP);
    assert_eq!(
        scan.events,
        vec![
            num("10", false),
            num("20", true),
            num("5", false),
            num("1.5", false),
            num("2", true),
            num("3", false),
            num("0", false),
            num("100", true),
            num("50", false),
            num("10", false),
        ]
    );
    assert_eq!(
        scan.bodies,
        vec![
            BodyDef::Circle { x: 3, y: 4, r: 5 },
            BodyDef::Rect { x: 6, y: 7, width: 8, height: 9 },
        ]
    );
    assert_eq!(scan.start, Some((0, 1)));
    assert_eq!(scan.error, None);
}

#[test]
fn scan_map_agrees_with_scan_tokens() {
    let tokens = vec![
        Ok(MapToken::Declaration),
        Ok(MapToken::Whitespaces),
        start("svg"),
        attr("width", "100"),
        attr("height", "100"),
        open(),
        Ok(MapToken::Whitespaces),
        Ok(MapToken::Comment),
        Ok(MapToken::Whitespaces),
        start("circle"),
        attr("id", "start"),
        attr("cx", "10"),
        attr("cy", "20"),
        attr("r", "5"),
        end(),
        start("circle"),
        attr("cx", "1.5"),
        attr("cy", "2"),
        attr("r", "3"),
        end(),
        start("rect"),
        attr("x", "0"),
        attr("y", "100"),
        attr("width", "50"),
        attr("height", "10"),
        end(),
        Ok(MapToken::Whitespaces),
        close("svg"),
        Ok(MapToken::Whitespaces),
    ];
    assert_eq!(scan_tokens(&tokens), scan_map(MAP));
}

#[test]
fn map_without_start_warns_last() {
    let scan = scan_map(r#"<svg><circle cx="1" cy="2" r="3"/></svg>"#);
    assert_eq!(scan.bodies, vec![BodyDef::Circle { x: 0, y: 1, r: 2 }]);
    assert_eq!(scan.start, None);
    assert_eq!(scan.events.last(), Some(&ScanEvent::Warning(MapWarning::NoStart)));
    assert_eq!(scan.events.len(), 4);
}

#[test]
fn second_start_replaces_first_with_warning() {
    let scan = scan_map(
        r#"<svg><circle id="start" cx="1" cy="2"/><circle id="start" cx="3" cy="4"/></svg>"#,
    );
    assert_eq!(
        scan.events,
        vec![
            num("1", false),
            num("2", true),
            num("3", false),
            num("4", true),
            ScanEvent::Warning(MapWarning::StartRedefined),
        ]
    );
    assert_eq!(scan.start, Some((2, 3)));
    assert!(scan.bodies.is_empty());
}

#[test]
fn incomplete_elements_warn() {
    let scan = scan_map(r#"<svg><circle cx="1" cy="2"/><rect x="1" y="2" width="3"/><circle id="start" cx="0"/></svg>"#);
    assert!(scan.bodies.is_empty());
    assert_eq!(
        scan.events,
        vec![
            num("1", false),
            num("2", true),
            ScanEvent::Warning(MapWarning::IncompleteCircle),
            num("1", false),
            num("2", true),
            num("3", false),
            ScanEvent::Warning(MapWarning::IncompleteRect),
            num("0", false),
            ScanEvent::Warning(MapWarning::IncompleteCircle),
            ScanEvent::Warning(MapWarning::NoStart),
        ]
    );
}

#[test]
fn id_other_than_start_makes_a_body() {
    let scan = scan_map(r#"<svg><circle id="ball" cx="1" cy="2" r="3"/><circle id="start" cx="0" cy="0"/></svg>"#);
    assert_eq!(scan.bodies, vec![BodyDef::Circle { x: 0, y: 1, r: 2 }]);
    assert_eq!(scan.start, Some((3, 4)));
}

#[test]
fn attributes_of_other_elements_are_not_numbers() {
    let scan = scan_map(r#"<svg x="5" cx="6"><rect cx="1" x="2" y="3" width="4" height="5"/><circle x="9" cx="1" cy="1" r="1"/></svg>"#);
    assert_eq!(
        scan.bodies,
        vec![
            BodyDef::Rect { x: 0, y: 1, width: 2, height: 3 },
            BodyDef::Circle { x: 4, y: 5, r: 6 },
        ]
    );
    assert_eq!(scan.events.len(), 8);
}

#[test]
fn only_empty_element_end_closes() {
    // `</circle>` does not close a circle; the next `/>` does.
    let scan = scan_map(r#"<svg><circle cx="1" cy="2" r="3"></circle><g/></svg>"#);
    assert_eq!(scan.bodies, vec![BodyDef::Circle { x: 0, y: 1, r: 2 }]);
    let scan = scan_map(r#"<svg><circle cx="1" cy="2" r="3"></circle></svg>"#);
    assert!(scan.bodies.is_empty());
}

#[test]
fn pending_rect_closes_after_circle() {
    let scan = scan_map(r#"<svg><rect x="1" y="2" width="3" height="4"><circle cx="5" cy="6" r="7"/></rect><g/></svg>"#);
    assert_eq!(
        scan.bodies,
        vec![
            BodyDef::Circle { x: 4, y: 5, r: 6 },
            BodyDef::Rect { x: 0, y: 1, width: 2, height: 3 },
        ]
    );
}

#[test]
fn tokenizer_error_ends_the_scan() {
    let scan = scan_map(r#"<svg><circle cx="1" cy="2" r="3"/><rect x=1/></svg>"#);
    assert_eq!(scan.bodies, vec![BodyDef::Circle { x: 0, y: 1, r: 2 }]);
    assert!(scan.error.is_some());
    assert_eq!(scan.events, vec![num("1", false), num("2", true), num("3", false)]);
}

#[test]
fn error_ends_scan_law_on_tokens() {
    let err: SvgItem = Err(SvgError { message: "broken".to_string() });
    let head = vec![start("circle"), attr("cx", "1"), attr("cy", "2"), attr("r", "3")];
    let mut with_rest = head.clone();
    with_rest.push(err.clone());
    with_rest.push(end());
    let mut without_rest = head.clone();
    without_rest.push(err);
    let scan = scan_tokens(&with_rest);
    assert_eq!(scan, scan_tokens(&without_rest));
    assert!(scan.bodies.is_empty());
    assert_eq!(scan.error, Some(SvgError { message: "broken".to_string() }));
}

#[test]
fn ignored_tokens_change_nothing_on_tokens() {
    let plain = vec![start("rect"), attr("x", "1"), attr("y", "2"), attr("width", "3"), attr("height", "4"), end()];
    let mut noisy = Vec::new();
    for t in &plain {
        noisy.push(Ok(MapToken::Comment));
        noisy.push(open());
        noisy.push(close("rect"));
        noisy.push(Ok(MapToken::Attribute(SvgName::Xml("x".to_string()), "9".to_string())));
        noisy.push(Ok(MapToken::ElementStart(SvgName::Xml("circle".to_string()))));
        noisy.push(t.clone());
    }
    assert_eq!(scan_tokens(&plain), scan_tokens(&noisy));
}

#[test]
fn bodies_grow_with_the_stream_on_tokens() {
    let a = vec![start("circle"), attr("cx", "1"), attr("cy", "2"), attr("r", "3"), end()];
    let mut ab = a.clone();
    ab.extend(vec![start("rect"), attr("x", "1"), attr("y", "2"), attr("width", "3"), attr("height", "4"), end()]);
    let sa = scan_tokens(&a);
    let sab = scan_tokens(&ab);
    assert_eq!(&sab.bodies[..sa.bodies.len()], &sa.bodies[..]);
    assert_eq!(sab.bodies.len(), 2);
}

#[test]
fn bodies_refer_to_numbers_with_the_right_sign() {
    let scan = scan_map(MAP);
    let signs: Vec<bool> = scan
        .events
        .iter()
        .filter_map(|e| match e {
            ScanEvent::Number { negated, .. } => Some(*negated),
            ScanEvent::Warning(_) => None,
        })
        .collect();
    for b in &scan.bodies {
        match *b {
            BodyDef::Circle { x, y, r } => {
                assert!(!signs[x] && signs[y] && !signs[r]);
            }
            BodyDef::Rect { x, y, width, height } => {
                assert!(!signs[x] && signs[y] && !signs[width] && !signs[height]);
            }
        }
    }
    let (x, y) = scan.start.unwrap();
    assert!(!signs[x] && signs[y]);
}

#[test]
fn reader_fed_by_hand() {
    let mut reader = MapReader::new();
    for t in [start("circle"), attr("cx", "4"), attr("cy", "5"), attr("r", "6"), end()] {
        reader.feed(&t.unwrap());
    }
    let scan: MapScan = reader.finish(Some(SvgError { message: "late".to_string() }));
    assert_eq!(scan.bodies, vec![BodyDef::Circle { x: 0, y: 1, r: 2 }]);
    // With an error there is no warning about a missing start.
    assert_eq!(scan.events.len(), 3);
}

#[test]
fn empty_text_has_no_start() {
    let scan = scan_map("");
    assert_eq!(scan.events, vec![ScanEvent::Warning(MapWarning::NoStart)]);
    assert!(scan.bodies.is_empty());
    assert_eq!(scan.error, None);
}

#[test]
fn warning_lines() {
    assert_eq!(MapWarning::StartRedefined.message(), "WARGNING: svg map redefinition of start");
    assert_eq!(MapWarning::IncompleteCircle.message(), "WARGNING: svg map incomplete circle definition");
    assert_eq!(MapWarning::IncompleteRect.message(), "WARGNING: svg map incomplete rect definition");
    assert_eq!(MapWarning::NoStart.message(), "WARGNING: svg map no start definition");
}

#[test]
fn map_error_messages() {
    assert_eq!(MapError::Io("gone".to_string()).message(), "file `map.svg`: io error: gone");
    assert_eq!(
        MapError::Svg(SvgError { message: "bad".to_string() }).message(),
        "file `map.svg`: svg parser error: bad"
    );
    assert_eq!(
        MapError::ParseFloat("invalid float literal".to_string()).message(),
        "file `map.svg`: svg parser float error: invalid float literal"
    );
}

#[test]
fn read_map_file_reads_map_svg() {
    let r = read_map_file(|path: &str| {
        assert_eq!(path, MAP_FILE);
        Ok("<svg/>".to_string())
    });
    assert_eq!(r, Ok("<svg/>".to_string()));
    let r = read_map_file(|_: &str| Err("no such file".to_string()));
    assert_eq!(r, Err(MapError::Io("no such file".to_string())));
}

#[test]
fn plain_xml_names_count_for_nothing() {
    let scan = scan_map(r#"<svg><circles cx="1" cy="2" r="3"/><rect x="1" y="2" width="3" height="4" depth="5"/></svg>"#);
    assert_eq!(scan.bodies, vec![BodyDef::Rect { x: 0, y: 1, width: 2, height: 3 }]);
    assert_eq!(scan.events.len(), 5);
}

#[test]
fn settle_all_numbers_parse() {
    let scan = scan_map(r#"<svg><circle cx="1" cy="2"/><circle cx="1" cy="2" r="3"/></svg>"#);
    let (warnings, outcome) = settle_scan(&scan, &vec![None; 5]);
    assert_eq!(warnings, vec![MapWarning::IncompleteCircle, MapWarning::NoStart]);
    assert_eq!(outcome, Ok(()));
}

#[test]
fn settle_first_bad_number_wins() {
    let scan = scan_map(r#"<svg><circle cx="1" cy="2"/><circle cx="a" cy="b" r="3"/><rect x=1/></svg>"#);
    assert!(scan.error.is_some());
    let errs = vec![None, None, Some("first".to_string()), Some("second".to_string()), None];
    let (warnings, outcome) = settle_scan(&scan, &errs);
    // The warning of the first circle comes before the bad number; nothing after it.
    assert_eq!(warnings, vec![MapWarning::IncompleteCircle]);
    assert_eq!(outcome, Err(MapError::ParseFloat("first".to_string())));
}

#[test]
fn settle_tokenizer_error_after_good_numbers() {
    let scan = scan_map(r#"<svg><circle cx="1" cy="2"/><rect x=1/></svg>"#);
    let (warnings, outcome) = settle_scan(&scan, &vec![None, None]);
    assert_eq!(warnings, vec![MapWarning::IncompleteCircle]);
    assert_eq!(outcome, Err(MapError::Svg(scan.error.clone().unwrap())));
}

/// The bodies and start of a scan with each number index replaced by its
/// text and sign.
fn resolved(scan: &MapScan) -> (Vec<Vec<(String, bool)>>, Option<((String, bool), (String, bool))>) {
    let numbers: Vec<(String, bool)> = scan
        .events
        .iter()
        .filter_map(|e| match e {
            ScanEvent::Number { text, negated } => Some((text.clone(), *negated)),
            ScanEvent::Warning(_) => None,
        })
        .collect();
    let bodies = scan
        .bodies
        .iter()
        .map(|b| match *b {
            BodyDef::Circle { x, y, r } => vec![numbers[x].clone(), numbers[y].clone(), numbers[r].clone()],
            BodyDef::Rect { x, y, width, height } => {
                vec![numbers[x].clone(), numbers[y].clone(), numbers[width].clone(), numbers[height].clone()]
            }
        })
        .collect();
    let start = scan.start.map(|(x, y)| (numbers[x].clone(), numbers[y].clone()));
    (bodies, start)
}

#[test]
fn attribute_order_does_not_matter() {
    let a = scan_map(r#"<svg><circle id="start" cx="1" cy="2"/><rect x="3" y="4" width="5" height="6"/></svg>"#);
    let b = scan_map(r#"<svg><circle cy="2" cx="1" id="start"/><rect height="6" width="5" y="4" x="3"/></svg>"#);
    assert_ne!(a.events, b.events);
    assert_eq!(resolved(&a), resolved(&b));
    assert_eq!(resolved(&a).1, Some((("1".to_string(), false), ("2".to_string(), true))));
}

#[test]
fn incomplete_element_changes_nothing() {
    let base = r#"<svg><circle id="start" cx="1" cy="2"/><circle cx="3" cy="4" r="5"/></svg>"#;
    let more = r#"<svg><circle id="start" cx="1" cy="2"/><rect x="9" y="9"/><circle id="start" cx="7"/><circle cx="3" cy="4" r="5"/></svg>"#;
    let a = scan_map(base);
    let b = scan_map(more);
    assert_eq!(resolved(&a), resolved(&b));
    assert_eq!(
        b.events.iter().filter(|e| matches!(e, ScanEvent::Warning(_))).count(),
        2
    );
}

#[test]
fn last_value_and_last_start_win() {
    let scan = scan_map(
        r#"<svg><circle id="start" cx="1" cy="2"/><circle cx="0" cx="3" cy="4" r="5"/><circle id="x" id="start" cx="6" cy="7"/></svg>"#,
    );
    let (bodies, start) = resolved(&scan);
    assert_eq!(bodies, vec![vec![("3".to_string(), false), ("4".to_string(), true), ("5".to_string(), false)]]);
    assert_eq!(start, Some((("6".to_string(), false), ("7".to_string(), true))));
}

#[test]
fn attributes_in_any_order_with_other_names() {
    let a = scan_map(
        r#"<svg><rect fill="a" x="3" style="s" y="4" fill="b" width="5" height="6"/><circle id="start" r="9" cx="1" cy="2"/></svg>"#,
    );
    let b = scan_map(
        r#"<svg><rect height="6" fill="b" width="5" y="4" style="s" fill="a" x="3"/><circle cy="2" r="9" cx="1" id="start"/></svg>"#,
    );
    assert_eq!(resolved(&a), resolved(&b));
    assert_eq!(
        resolved(&a).0,
        vec![vec![("3".to_string(), false), ("4".to_string(), true), ("5".to_string(), false), ("6".to_string(), false)]]
    );
}

#[test]
fn attributes_in_any_order_inside_an_open_circle() {
    // A circle closed by `>` stays open, so the rectangle's `id` reaches it.
    let head = vec![start("svg"), open(), start("circle"), attr("cx", "1"), attr("cy", "2"), open(), start("rect")];
    let one = vec![attr("id", "start"), attr("x", "3"), attr("y", "4"), attr("width", "5"), attr("height", "6")];
    let two = vec![attr("height", "6"), attr("y", "4"), attr("id", "start"), attr("width", "5"), attr("x", "3")];
    let tail = vec![end(), end(), close("svg")];
    let a = scan_tokens(&[head.clone(), one, tail.clone()].concat());
    let b = scan_tokens(&[head, two, tail].concat());
    assert_eq!(resolved(&a), resolved(&b));
    assert_eq!(resolved(&a).1, Some((("1".to_string(), false), ("2".to_string(), true))));
}

#[test]
fn repeated_map_name_makes_order_matter() {
    let a = scan_map(r#"<svg><circle cx="0" cx="3" cy="4" r="5"/></svg>"#);
    let b = scan_map(r#"<svg><circle cx="3" cx="0" cy="4" r="5"/></svg>"#);
    assert_ne!(resolved(&a).0, resolved(&b).0);
}
