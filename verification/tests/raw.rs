use kicad_netlist::error::ParseError;
use kicad_netlist::raw::{Component, Net, NetList, Node, Part, Pin};
use kicad_netlist::sexpr::SExpr;

fn kvt() -> String {
    String::from(
        r#"(export (version "E")
  (design
    (source "/home/user/kvt/kvt.kicad_sch")
    (date "2023-05-04T12:00:00+0200")
    (tool "Eeschema 7.0.2")
    (sheet (number "1") (name "/") (tstamps "/")
      (title_block
        (title "KVT")
        (company)
        (rev "1")
        (comment (number "1") (value "")))))
  (components
    (comp (ref "J1")
      (value "Conn_01x05")
      (footprint "Connector_PinHeader_2.54mm:PinHeader_1x05_P2.54mm_Vertical")
      (libsource (lib "Connector_Generic") (part "Conn_01x05") (description "Generic connector, single row, 01x05"))
      (property (name "Sheetname") (value ""))
      (property (name "Sheetfile") (value "kvt.kicad_sch"))
      (sheetpath (names "/") (tstamps "/"))
      (tstamps "0a5a2b3c-0000-4000-8000-000000000001"))
    (comp (ref "R1")
      (value "10k")
      (footprint "Resistor_SMD:R_0603_1608Metric")
      (datasheet "~")
      (libsource (lib "Device") (part "R") (description "Resistor"))
      (property (name "Sheetname") (value ""))
      (property (name "Sheetfile") (value "kvt.kicad_sch"))
      (sheetpath (names "/") (tstamps "/"))
      (tstamps "0a5a2b3c-0000-4000-8000-000000000002"))
    (comp (ref "U1")
      (value "LMV321")
      (footprint "Package_TO_SOT_SMD:SOT-23-5")
      (libsource (lib "Amplifier_Operational") (part "LMV321") (description "Single op amp"))
      (property (name "Sheetname") (value ""))
      (sheetpath (names "/") (tstamps "/"))
      (tstamps "0a5a2b3c-0000-4000-8000-000000000003"))
    (comp (ref "U2")
      (value "LMV321")
      (libsource (lib "Amplifier_Operational") (part "LMV321") (description "Single op amp"))
      (property (name "Sheetname") (value ""))
      (sheetpath (names "/") (tstamps "/"))
      (tstamps "0a5a2b3c-0000-4000-8000-000000000004")))
  (libparts
    (libpart (lib "Amplifier_Operational") (part "LMV321")
      (description "Single op amp")
      (docs "http://www.ti.com/lit/ds/symlink/lmv324.pdf")
      (footprints
        (fp "SOT?23*"))
      (fields
        (field (name "Reference") "U")
        (field (name "Value") "LMV321"))
      (pins
        (pin (num "1") (name "+") (type "input"))
        (pin (num "2") (name "V-") (type "power_in"))
        (pin (num "3") (name "-") (type "input"))
        (pin (num "4") (name "~") (type "output"))
        (pin (num "5") (name "V+") (type "power_in"))))
    (libpart (lib "Connector_Generic") (part "Conn_01x05")
      (description "Generic connector, single row, 01x05")
      (docs "~")
      (fields
        (field (name "Reference") "J")
        (field (name "Value") "Conn_01x05"))
      (pins
        (pin (num "1") (name "Pin_1") (type "passive"))
        (pin (num "2") (name "Pin_2") (type "passive"))
        (pin (num "3") (name "Pin_3") (type "passive"))
        (pin (num "4") (name "Pin_4") (type "passive"))
        (pin (num "5") (name "Pin_5") (type "passive"))))
    (libpart (lib "Device") (part "R")
      (description "Resistor")
      (docs "~")
      (footprints
        (fp "R_*"))
      (fields
        (field (name "Reference") "R")
        (field (name "Value") "R"))
      (pins
        (pin (num "1") (name "~") (type "passive"))
        (pin (num "2") (name "~") (type "passive")))))
  (libraries
    (library (logical "Amplifier_Operational")
      (uri "/usr/share/kicad/symbols/Amplifier_Operational.kicad_sym"))
    (library (logical "Connector_Generic")
      (uri "/usr/share/kicad/symbols/Connector_Generic.kicad_sym"))
    (library (logical "Device")
      (uri "/usr/share/kicad/symbols/Device.kicad_sym")))
  (nets
    (net (code "1") (name "+3V3")
      (node (ref "J1") (pin "1") (pinfunction "Pin_1") (pintype "passive"))
      (node (ref "U1") (pin "5") (pinfunction "V+") (pintype "power_in"))
      (node (ref "U2") (pin "5") (pinfunction "V+") (pintype "power_in")))
    (net (code "2") (name "GND")
      (node (ref "J1") (pin "2") (pinfunction "Pin_2") (pintype "passive"))
      (node (ref "U1") (pin "2") (pinfunction "V-") (pintype "power_in"))
      (node (ref "U2") (pin "2") (pinfunction "V-") (pintype "power_in")))
    (net (code "3") (name "/IN")
      (node (ref "J1") (pin "3") (pinfunction "Pin_3") (pintype "passive"))
      (node (ref "R1") (pin "1") (pintype "passive")))
    (net (code "4") (name "Net-(U1-+)")
      (node (ref "R1") (pin "2") (pintype "passive"))
      (node (ref "U1") (pin "1") (pinfunction "+") (pintype "input")))
    (net (code "5") (name "/OUT")
      (node (ref "J1") (pin "4") (pinfunction "Pin_4") (pintype "passive"))
      (node (ref "U1") (pin "3") (pinfunction "-") (pintype "input"))
      (node (ref "U1") (pin "4") (pintype "output"))
      (node (ref "U2") (pin "1") (pinfunction "+") (pintype "input")))
    (net (code "6") (name "/REF")
      (node (ref "J1") (pin "5") (pinfunction "Pin_5") (pintype "passive"))
      (node (ref "U2") (pin "3") (pinfunction "-") (pintype "input")))
    (net (code "7") (name "unconnected-(U2-Pad4)")
      (node (ref "U2") (pin "4") (pintype "output+no_connect")))))
"#,
    )
}

#[test]
fn can_parse_comp() {
    let i = &kvt();
    let root = SExpr::try_from(i).unwrap();

    let list = root.child("components").unwrap();
    let mut it = list.children("comp");
    let mut comps: Vec<Component> = Vec::new();
    while let Some(expr) = it.next() {
        comps.push(Component::try_from(expr).unwrap());
    }

    assert_eq!(comps.len(), 4);
}

#[test]
fn can_parse_part() {
    let i = &kvt();
    let root = SExpr::try_from(i).unwrap();

    let list = root.child("libparts").unwrap();
    let mut it = list.children("libpart");
    let mut parts: Vec<Part> = Vec::new();
    while let Some(expr) = it.next() {
        parts.push(Part::try_from(expr).unwrap());
    }

    assert_eq!(parts.len(), 3);
}

#[test]
fn can_parse_net() {
    let i = &kvt();
    let root = SExpr::try_from(i).unwrap();

    let list = root.child("nets").unwrap();
    let mut it = list.children("net");
    let mut nets: Vec<Net> = Vec::new();
    while let Some(expr) = it.next() {
        nets.push(Net::try_from(expr).unwrap());
    }

    assert_eq!(nets.len(), 7);
}

#[test]
fn can_parse_netlist() {
    let i = &kvt();
    let root = SExpr::try_from(i).unwrap();
    let netlist: NetList = NetList::try_from(&root).unwrap();

    assert_eq!(netlist.components.len(), 4);
    assert_eq!(netlist.parts.len(), 3);
    assert_eq!(netlist.nets.len(), 7);
}

#[test]
fn component_fields_are_read() {
    let root = SExpr::try_from(
        "(comp (ref \"R1\") (value \"10k\") (footprint \"R_0603\") \
         (libsource (lib \"Device\") (part \"R\") (description \"Resistor\")) \
         (property (name \"A\") (value \"1\")) (property (name \"B\") (value \"2\")))",
    )
    .unwrap();
    let comp = Component::try_from(&root).unwrap();
    assert_eq!(comp.ref_des, "R1");
    assert_eq!(comp.value, "10k");
    assert_eq!(comp.lib, "Device");
    assert_eq!(comp.part, "R");
    assert_eq!(comp.footprint, Some("R_0603"));
    assert_eq!(comp.properties, vec![("A", "1"), ("B", "2")]);
}

#[test]
fn component_footprint_is_optional() {
    let root = SExpr::try_from(
        "(comp (ref \"R1\") (value \"10k\") (libsource (lib \"Device\") (part \"R\")))",
    )
    .unwrap();
    let comp = Component::try_from(&root).unwrap();
    assert_eq!(comp.footprint, None);
    assert!(comp.properties.is_empty());
}

#[test]
fn component_missing_fields_are_errors() {
    let no_ref = SExpr::try_from("(comp (value \"10k\") (libsource (lib a) (part b)))").unwrap();
    match Component::try_from(&no_ref) {
        Err(ParseError::MissingChild(label)) => assert_eq!(label, "ref"),
        other => panic!("{:?}", other),
    }
    let no_value = SExpr::try_from("(comp (ref R1) (libsource (lib a) (part b)))").unwrap();
    match Component::try_from(&no_value) {
        Err(ParseError::MissingChild(label)) => assert_eq!(label, "value"),
        other => panic!("{:?}", other),
    }
    let no_source = SExpr::try_from("(comp (ref R1) (value v))").unwrap();
    match Component::try_from(&no_source) {
        Err(ParseError::MissingChild(label)) => assert_eq!(label, "libsource"),
        other => panic!("{:?}", other),
    }
    let no_part = SExpr::try_from("(comp (ref R1) (value v) (libsource (lib a)))").unwrap();
    match Component::try_from(&no_part) {
        Err(ParseError::MissingChild(label)) => assert_eq!(label, "part"),
        other => panic!("{:?}", other),
    }
    let bad_property =
        SExpr::try_from("(comp (ref R1) (value v) (property (name n)) (libsource (lib a) (part b)))")
            .unwrap();
    match Component::try_from(&bad_property) {
        Err(ParseError::MissingChild(label)) => assert_eq!(label, "value"),
        other => panic!("{:?}", other),
    }
    let empty_ref = SExpr::try_from("(comp (ref) (value v) (libsource (lib a) (part b)))").unwrap();
    assert!(matches!(Component::try_from(&empty_ref), Err(ParseError::MissingValue())));
}

#[test]
fn pin_fields_are_read() {
    let root = SExpr::try_from("(pin (num \"1\") (name \"~\") (type \"passive\"))").unwrap();
    let pin = Pin::try_from(&root).unwrap();
    assert_eq!((pin.num, pin.name, pin.typ), ("1", "~", "passive"));
    let bad = SExpr::try_from("(pin (num \"1\") (name \"~\"))").unwrap();
    match Pin::try_from(&bad) {
        Err(ParseError::MissingChild(label)) => assert_eq!(label, "type"),
        other => panic!("{:?}", other),
    }
}

#[test]
fn part_description_is_required() {
    let root = SExpr::try_from("(libpart (lib \"D\") (part \"R\"))").unwrap();
    match Part::try_from(&root) {
        Err(ParseError::MissingChild(label)) => assert_eq!(label, "description"),
        other => panic!("{:?}", other),
    }
    let root = SExpr::try_from(
        "(libpart (lib \"D\") (part \"R\") (pins (pin (num 1) (name a) (type passive))))",
    )
    .unwrap();
    match Part::try_from(&root) {
        Err(ParseError::MissingChild(label)) => assert_eq!(label, "description"),
        other => panic!("{:?}", other),
    }
    let root = SExpr::try_from("(libpart (lib \"D\") (part \"R\") (description))").unwrap();
    assert!(matches!(Part::try_from(&root), Err(ParseError::MissingValue())));
    let root =
        SExpr::try_from("(libpart (lib \"D\") (part \"R\") (description (text \"x\")))").unwrap();
    assert!(matches!(Part::try_from(&root), Err(ParseError::MissingValue())));
    let root = SExpr::try_from("(libpart (lib \"D\") (description \"Resistor\"))").unwrap();
    match Part::try_from(&root) {
        Err(ParseError::MissingChild(label)) => assert_eq!(label, "part"),
        other => panic!("{:?}", other),
    }
    let root = SExpr::try_from("(libpart (part \"R\") (description \"Resistor\"))").unwrap();
    match Part::try_from(&root) {
        Err(ParseError::MissingChild(label)) => assert_eq!(label, "lib"),
        other => panic!("{:?}", other),
    }
    match NetList::parse(
        "(export (version \"E\") (components) (libparts (libpart (lib \"D\") (part \"R\"))) (nets))",
    ) {
        Err(ParseError::MissingChild(label)) => assert_eq!(label, "description"),
        other => panic!("{:?}", other),
    }
}

#[test]
fn part_pins_are_optional() {
    let root =
        SExpr::try_from("(libpart (lib \"power\") (part \"GND\") (description \"\"))").unwrap();
    let part = Part::try_from(&root).unwrap();
    assert_eq!(part.lib, "power");
    assert_eq!(part.part, "GND");
    assert_eq!(part.description, "");
    assert!(part.pins.is_empty());

    let root = SExpr::try_from(
        "(libpart (lib \"Device\") (part \"R\") (description \"Resistor\") \
         (pins (pin (num 1) (name a) (type passive)) (pin (num 2) (name b) (type passive))))",
    )
    .unwrap();
    let part = Part::try_from(&root).unwrap();
    assert_eq!(part.description, "Resistor");
    assert_eq!(part.pins.len(), 2);
    assert_eq!(part.pins[1].num, "2");

    let bad = SExpr::try_from(
        "(libpart (lib l) (part p) (description d) (pins (pin (num 1) (name a))))",
    )
    .unwrap();
    match Part::try_from(&bad) {
        Err(ParseError::MissingChild(label)) => assert_eq!(label, "type"),
        other => panic!("{:?}", other),
    }
}

#[test]
fn node_and_net_fields_are_read() {
    let root = SExpr::try_from(
        "(net (code \"3\") (name \"/IN\") \
         (node (ref \"J1\") (pin \"3\") (pinfunction \"Pin_3\") (pintype \"passive\")) \
         (node (ref \"R1\") (pin \"1\") (pintype \"passive\")))",
    )
    .unwrap();
    let net = Net::try_from(&root).unwrap();
    assert_eq!(net.code, "3");
    assert_eq!(net.name, "/IN");
    assert_eq!(net.nodes.len(), 2);
    assert_eq!(net.nodes[0].function, Some("Pin_3"));
    assert_eq!(net.nodes[1].function, None);
    assert_eq!(net.nodes[1].ref_des, "R1");
    assert_eq!(net.nodes[1].num, "1");
    assert_eq!(net.nodes[1].typ, "passive");

    let node = SExpr::try_from("(node (ref \"J1\") (pin \"3\"))").unwrap();
    match Node::try_from(&node) {
        Err(ParseError::MissingChild(label)) => assert_eq!(label, "pintype"),
        other => panic!("{:?}", other),
    }
}

#[test]
fn root_has_to_be_an_export() {
    let root = SExpr::try_from("(import (version \"E\") (components) (libparts) (nets))").unwrap();
    match NetList::try_from(&root) {
        Err(ParseError::UnexpectedRootLabel(label)) => assert_eq!(label, "import"),
        other => panic!("{:?}", other),
    }
    match NetList::parse("(components (comp))") {
        Err(ParseError::UnexpectedRootLabel(label)) => assert_eq!(label, "components"),
        other => panic!("{:?}", other),
    }
    match NetList::try_from(&SExpr::String("export")) {
        Err(ParseError::UnexpectedRootLabel(label)) => assert_eq!(label, "export"),
        other => panic!("{:?}", other),
    }
}

#[test]
fn version_has_to_be_the_supported_one() {
    match NetList::parse("(export (version \"D\") (components) (libparts) (nets))") {
        Err(ParseError::UnknownVersion(version)) => assert_eq!(version, "D"),
        other => panic!("{:?}", other),
    }
    match NetList::parse("(export (version \"E2\") (components) (libparts) (nets))") {
        Err(ParseError::UnknownVersion(version)) => assert_eq!(version, "E2"),
        other => panic!("{:?}", other),
    }
    match NetList::parse("(export (components) (libparts) (nets))") {
        Err(ParseError::MissingChild(label)) => assert_eq!(label, "version"),
        other => panic!("{:?}", other),
    }
}

#[test]
fn sections_have_to_be_there() {
    match NetList::parse("(export (version \"E\") (libparts) (nets))") {
        Err(ParseError::MissingChild(label)) => assert_eq!(label, "components"),
        other => panic!("{:?}", other),
    }
    match NetList::parse("(export (version \"E\") (components) (nets))") {
        Err(ParseError::MissingChild(label)) => assert_eq!(label, "libparts"),
        other => panic!("{:?}", other),
    }
    match NetList::parse("(export (version \"E\") (components) (libparts))") {
        Err(ParseError::MissingChild(label)) => assert_eq!(label, "nets"),
        other => panic!("{:?}", other),
    }
    let empty = NetList::parse("(export (version \"E\") (components) (libparts) (nets))").unwrap();
    assert!(empty.components.is_empty() && empty.parts.is_empty() && empty.nets.is_empty());
}

#[test]
fn syntax_errors_come_through() {
    assert!(matches!(
        NetList::parse("(export (version \"E\")"),
        Err(ParseError::UnexpectedEof { .. })
    ));
}
