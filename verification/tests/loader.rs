use wave_framework::load_tileset;
use wave_framework::loader::valid_weight;
use wave_framework::loader::extract_neighbour;
use wave_framework::loader::NeighKind;
use wave_framework::loader::ParseError;
use wave_framework::loader::TileEvent;
use wave_framework::loader::Warning;
use wave_framework::loader::XmlParser;
use wave_framework::text::parse_usize;
use wave_framework::Direction;
use wave_framework::SymmetryClass;

fn start(name: &str, attrs: &[(&str, &str)]) -> TileEvent {
    TileEvent::ElementStart(
        name.to_string(),
        attrs.iter().map(|(k, v)| (k.to_string(), v.to_string())).collect(),
    )
}

fn end(name: &str) -> TileEvent {
    TileEvent::ElementEnd(name.to_string())
}

fn doc(body: Vec<TileEvent>) -> Vec<TileEvent> {
    let mut events = vec![start("set", &[])];
    events.extend(body);
    events.push(end("set"));
    events.push(TileEvent::DocumentEnd);
    events
}

#[test]
fn single_tile_full_symmetry() {
    let events = doc(vec![
        start("tiles", &[]),
        start("tile", &[("name", "A"), ("symmetry", "X")]),
        end("tile"),
        end("tiles"),
    ]);
    let (ts, warnings) = XmlParser::new().parse(events).unwrap();
    assert!(warnings.is_empty());
    assert_eq!(1, ts.tiles.len());
    assert_eq!("A", ts.tiles[0].name);
    assert_eq!(SymmetryClass::X, ts.tiles[0].symmetry);
    assert_eq!("1.0", ts.tiles[0].weight);
    assert_eq!(1, ts.offsets.len());
    assert_eq!(0, ts.offsets[0].offset);
    assert_eq!(1, ts.offsets[0].cardinality);
    assert_eq!(1, ts.action.len());
    assert_eq!([0usize; 8], ts.action[0]);
    assert!(ts.edges.is_empty());
}

#[test]
fn second_tile_contiguous_block() {
    let events = doc(vec![
        start("tiles", &[]),
        start("tile", &[("name", "A"), ("symmetry", "X")]),
        end("tile"),
        start("tile", &[("name", "B"), ("symmetry", "I")]),
        end("tile"),
        end("tiles"),
    ]);
    let (ts, warnings) = XmlParser::new().parse(events).unwrap();
    assert!(warnings.is_empty());
    assert_eq!(2, ts.tiles.len());
    assert_eq!(1, ts.offsets[1].offset);
    assert_eq!(2, ts.offsets[1].cardinality);
    assert_eq!(3, ts.action.len());
    assert_eq!([1, 2, 1, 2, 1, 2, 1, 2], ts.action[1]);
    assert_eq!([2, 1, 2, 1, 2, 1, 2, 1], ts.action[2]);
    // every row entry stays within the owning block, and column zero is the
    // identity
    for (row_index, row) in ts.action.iter().enumerate() {
        assert_eq!(row_index, row[0]);
    }
    for entry in &ts.action[0] {
        assert!(*entry < 1);
    }
    for row in &ts.action[1..3] {
        for entry in row {
            assert!((1..3).contains(entry));
        }
    }
}

#[test]
fn neighbour_expansion_four_directions() {
    let events = doc(vec![
        start("tiles", &[]),
        start("tile", &[("name", "A"), ("symmetry", "X")]),
        end("tile"),
        start("tile", &[("name", "B"), ("symmetry", "I")]),
        end("tile"),
        end("tiles"),
        start("neighbors", &[]),
        start("neighbor", &[("left", "A"), ("right", "B 1")]),
        end("neighbor"),
        end("neighbors"),
    ]);
    let (ts, warnings) = XmlParser::new().parse(events).unwrap();
    assert!(warnings.is_empty());
    assert_eq!(4, ts.edges.len());
    // the reference edge carries exactly the resolved pair: left "A" is
    // global index 0, right "B 1" is 1 + 1 = 2
    assert_eq!(Direction::East, ts.edges[0].direction);
    assert_eq!(0, ts.edges[0].left);
    assert_eq!(2, ts.edges[0].right);
    // steps 1..4 rotate both sides through the action table
    assert_eq!(Direction::North, ts.edges[1].direction);
    assert_eq!(0, ts.edges[1].left);
    assert_eq!(1, ts.edges[1].right);
    assert_eq!(Direction::West, ts.edges[2].direction);
    assert_eq!(0, ts.edges[2].left);
    assert_eq!(2, ts.edges[2].right);
    assert_eq!(Direction::South, ts.edges[3].direction);
    assert_eq!(0, ts.edges[3].left);
    assert_eq!(1, ts.edges[3].right);
}

#[test]
fn implicit_and_explicit_case_numbers() {
    match extract_neighbour("Name").unwrap() {
        NeighKind::Tile(tile) => {
            assert_eq!("Name", tile);
        },
        NeighKind::Complex { .. } => panic!("expected a bare tile name"),
    }
    assert_eq!(Some(0), extract_neighbour("Name").unwrap().num());
    match extract_neighbour("Name 3").unwrap() {
        NeighKind::Complex { ref tile, ref num } => {
            assert_eq!("Name", tile.as_str());
            assert_eq!("3", num.as_str());
        },
        NeighKind::Tile(_) => panic!("expected a tile name with a case number"),
    }
    assert_eq!(Some(3), extract_neighbour("Name 3").unwrap().num());
    assert_eq!(Some(7), extract_neighbour("  Name \t 7  extra ").unwrap().num());
    assert!(extract_neighbour("").is_none());
    assert!(extract_neighbour("   ").is_none());
    // the splitter treats any Unicode white space as a separator
    match extract_neighbour("Name\u{A0}3").unwrap() {
        NeighKind::Complex { ref tile, ref num } => {
            assert_eq!("Name", tile.as_str());
            assert_eq!("3", num.as_str());
        },
        NeighKind::Tile(_) => panic!("expected a tile name with a case number"),
    }
    // a case number may carry a leading plus, as the standard parser reads
    assert_eq!(Some(3), extract_neighbour("Name +3").unwrap().num());
    assert_eq!(None, extract_neighbour("Name +").unwrap().num());
}

#[test]
fn plus_case_number_resolves() {
    let events = doc(vec![
        start("tiles", &[]),
        start("tile", &[("name", "B"), ("symmetry", "I")]),
        end("tile"),
        end("tiles"),
        start("neighbors", &[]),
        start("neighbor", &[("left", "B"), ("right", "B +1")]),
        end("neighbor"),
        end("neighbors"),
    ]);
    let (ts, warnings) = XmlParser::new().parse(events).unwrap();
    assert!(warnings.is_empty());
    assert_eq!(4, ts.edges.len());
    assert_eq!(0, ts.edges[0].left);
    assert_eq!(1, ts.edges[0].right);
}

#[test]
fn unknown_tile_reference_yields_no_edges() {
    let events = doc(vec![
        start("tiles", &[]),
        start("tile", &[("name", "A"), ("symmetry", "X")]),
        end("tile"),
        end("tiles"),
        start("neighbors", &[]),
        start("neighbor", &[("left", "Z"), ("right", "A")]),
        end("neighbor"),
        start("neighbor", &[("left", "A"), ("right", "A")]),
        end("neighbor"),
        end("neighbors"),
    ]);
    let (ts, warnings) = XmlParser::new().parse(events).unwrap();
    // the bad declaration adds nothing, the load proceeds and the good one
    // still expands
    assert_eq!(vec![Warning::UnknownTileReference("Z".to_string())], warnings);
    assert_eq!(4, ts.edges.len());
}

#[test]
fn case_number_out_of_range() {
    let events = doc(vec![
        start("tiles", &[]),
        start("tile", &[("name", "B"), ("symmetry", "I")]),
        end("tile"),
        end("tiles"),
        start("neighbors", &[]),
        start("neighbor", &[("left", "B 2"), ("right", "B")]),
        end("neighbor"),
        end("neighbors"),
    ]);
    let (ts, warnings) = XmlParser::new().parse(events).unwrap();
    assert_eq!(vec![Warning::CaseOutOfRange("B".to_string())], warnings);
    assert!(ts.edges.is_empty());
}

#[test]
fn unreadable_case_number() {
    let events = doc(vec![
        start("tiles", &[]),
        start("tile", &[("name", "B"), ("symmetry", "I")]),
        end("tile"),
        end("tiles"),
        start("neighbors", &[]),
        start("neighbor", &[("left", "B x"), ("right", "B")]),
        end("neighbor"),
        end("neighbors"),
    ]);
    let (ts, warnings) = XmlParser::new().parse(events).unwrap();
    assert_eq!(vec![Warning::InvalidCaseNumber("x".to_string())], warnings);
    assert!(ts.edges.is_empty());
}

#[test]
fn missing_neighbour_side() {
    let events = doc(vec![
        start("tiles", &[]),
        start("tile", &[("name", "A"), ("symmetry", "X")]),
        end("tile"),
        end("tiles"),
        start("neighbors", &[]),
        start("neighbor", &[("left", "A")]),
        end("neighbor"),
        start("neighbor", &[("left", "  "), ("right", "A")]),
        end("neighbor"),
        end("neighbors"),
    ]);
    let (ts, warnings) = XmlParser::new().parse(events).unwrap();
    assert_eq!(
        vec![Warning::NeighbourSideMissing, Warning::NeighbourSideMissing],
        warnings
    );
    assert!(ts.edges.is_empty());
}

#[test]
fn duplicate_tile_name_is_skipped() {
    let events = doc(vec![
        start("tiles", &[]),
        start("tile", &[("name", "A"), ("symmetry", "X")]),
        end("tile"),
        start("tile", &[("name", "A"), ("symmetry", "I")]),
        end("tile"),
        end("tiles"),
    ]);
    let (ts, warnings) = XmlParser::new().parse(events).unwrap();
    assert_eq!(vec![Warning::DuplicateTile("A".to_string())], warnings);
    assert_eq!(1, ts.tiles.len());
    assert_eq!(1, ts.action.len());
}

#[test]
fn unknown_symmetry_falls_back_to_full() {
    let events = doc(vec![
        start("tiles", &[]),
        start("tile", &[("name", "A"), ("symmetry", "Q")]),
        end("tile"),
        end("tiles"),
    ]);
    let (ts, warnings) = XmlParser::new().parse(events).unwrap();
    assert_eq!(vec![Warning::UnknownSymmetry("Q".to_string())], warnings);
    assert_eq!(1, ts.tiles.len());
    assert_eq!(SymmetryClass::X, ts.tiles[0].symmetry);
    assert_eq!(1, ts.offsets[0].cardinality);
}

#[test]
fn invalid_weight_skips_tile() {
    let events = doc(vec![
        start("tiles", &[]),
        start("tile", &[("name", "A"), ("symmetry", "X"), ("weight", "abc")]),
        end("tile"),
        start("tile", &[("name", "B"), ("symmetry", "X"), ("weight", "0.0")]),
        end("tile"),
        start("tile", &[("name", "C"), ("symmetry", "X"), ("weight", "2.5")]),
        end("tile"),
        end("tiles"),
    ]);
    let (ts, warnings) = XmlParser::new().parse(events).unwrap();
    assert_eq!(
        vec![
            Warning::InvalidWeight("abc".to_string()),
            Warning::InvalidWeight("0.0".to_string())
        ],
        warnings
    );
    assert_eq!(1, ts.tiles.len());
    assert_eq!("C", ts.tiles[0].name);
    assert_eq!("2.5", ts.tiles[0].weight);
}

#[test]
fn incomplete_tile_node() {
    let events = doc(vec![
        start("tiles", &[]),
        start("tile", &[("name", "A")]),
        end("tile"),
        start("tile", &[("symmetry", "X")]),
        end("tile"),
        end("tiles"),
    ]);
    let (ts, warnings) = XmlParser::new().parse(events).unwrap();
    assert_eq!(vec![Warning::IncompleteTile, Warning::IncompleteTile], warnings);
    assert!(ts.tiles.is_empty());
}

#[test]
fn unknown_elements_and_attributes_warn() {
    let events = doc(vec![
        start("junk", &[]),
        start("tiles", &[]),
        start("frame", &[]),
        start("tile", &[("name", "A"), ("symmetry", "X"), ("color", "red")]),
        end("tile"),
        end("tiles"),
    ]);
    let (ts, warnings) = XmlParser::new().parse(events).unwrap();
    assert_eq!(
        vec![
            Warning::UnknownElement("junk".to_string()),
            Warning::UnknownElement("frame".to_string()),
            Warning::UnknownAttribute("color".to_string())
        ],
        warnings
    );
    assert_eq!(1, ts.tiles.len());
}

#[test]
fn load_tileset_from_xml_bytes() {
    let xml = "<set>\
        <tiles>\
            <tile name=\"A\" symmetry=\"X\"/>\
            <tile name=\"B\" symmetry=\"I\" weight=\"2.5\"/>\
        </tiles>\
        <neighbors>\
            <neighbor left=\"A\" right=\"B 1\"/>\
        </neighbors>\
    </set>";
    let (ts, warnings) = load_tileset(xml.as_bytes()).unwrap();
    assert!(warnings.is_empty());
    assert_eq!(2, ts.tiles.len());
    assert_eq!("B", ts.tiles[1].name);
    assert_eq!("2.5", ts.tiles[1].weight);
    assert_eq!(3, ts.action.len());
    assert_eq!([1, 2, 1, 2, 1, 2, 1, 2], ts.action[1]);
    assert_eq!(4, ts.edges.len());
    assert_eq!(Direction::East, ts.edges[0].direction);
    assert_eq!(0, ts.edges[0].left);
    assert_eq!(2, ts.edges[0].right);
}

#[test]
fn load_tileset_truncated_input() {
    let xml = "<set><tiles><tile name=\"A\" symmetry=\"X\"/>";
    let (ts, warnings) = load_tileset(xml.as_bytes()).unwrap();
    assert_eq!(1, ts.tiles.len());
    assert_eq!(Some(&Warning::TruncatedInput), warnings.last());
}

#[test]
fn load_tileset_malformed_input() {
    let xml = "<set></wrong></set>";
    assert!(matches!(load_tileset(xml.as_bytes()), Err(ParseError::Malformed)));
}

#[test]
fn parse_usize_cases() {
    assert_eq!(Some(0), parse_usize("0"));
    assert_eq!(Some(42), parse_usize("42"));
    assert_eq!(Some(7), parse_usize("007"));
    assert_eq!(Some(3), parse_usize("+3"));
    assert_eq!(None, parse_usize(""));
    assert_eq!(None, parse_usize("+"));
    assert_eq!(None, parse_usize("++3"));
    assert_eq!(None, parse_usize("4x"));
    assert_eq!(None, parse_usize("-1"));
    assert_eq!(Some(usize::MAX), parse_usize("18446744073709551615"));
    assert_eq!(None, parse_usize("18446744073709551616"));
}

#[test]
fn weight_vocabulary() {
    assert!(valid_weight("1.0"));
    assert!(valid_weight("10"));
    assert!(valid_weight(".5"));
    assert!(valid_weight("2.5"));
    assert!(valid_weight("+1.5"));
    assert!(valid_weight("1e3"));
    assert!(valid_weight("2.5E-2"));
    assert!(valid_weight("+.5e+1"));
    assert!(!valid_weight("0.0"));
    assert!(!valid_weight("0"));
    assert!(!valid_weight("0e5"));
    assert!(!valid_weight("1e"));
    assert!(!valid_weight("1e+"));
    assert!(!valid_weight("e3"));
    assert!(!valid_weight(""));
    assert!(!valid_weight("+"));
    assert!(!valid_weight("1..0"));
    assert!(!valid_weight("abc"));
    assert!(!valid_weight("-1.0"));
    assert!(!valid_weight("inf"));
    assert!(!valid_weight("nan"));
}

#[test]
fn load_tileset_unclosed_cdata_is_truncation() {
    let xml = "<set><tiles><tile name=\"A\" symmetry=\"X\"/></tiles><![CDATA[cut";
    let (ts, warnings) = load_tileset(xml.as_bytes()).unwrap();
    assert_eq!(1, ts.tiles.len());
    assert_eq!(Some(&Warning::TruncatedInput), warnings.last());
}
