use kicad_netlist::{NetList, ParseError, PartId, PinNum, PinType, RefDes};

fn kvt() -> String {
    String::from(
        r#"(export (version "E")
  (design
    (source "/home/user/kvt/kvt.kicad_sch")
    (date "2023-05-04T12:00:00+0200")
    (tool "Eeschema 7.0.2")
    (sheet (number "1") (name "/") (tstamps "/")
      (title_block
        (title "KVT")
        (company)
        (rev "1")
        (comment (number "1") (value "")))))
  (components
    (comp (ref "J1")
      (value "Conn_01x05")
      (footprint "Connector_PinHeader_2.54mm:PinHeader_1x05_P2.54mm_Vertical")
      (libsource (lib "Connector_Generic") (part "Conn_01x05") (description "Generic connector, single row, 01x05"))
      (property (name "Sheetname") (value ""))
      (property (name "Sheetfile") (value "kvt.kicad_sch"))
      (sheetpath (names "/") (tstamps "/"))
      (tstamps "0a5a2b3c-0000-4000-8000-000000000001"))
    (comp (ref "R1")
      (value "10k")
      (footprint "Resistor_SMD:R_0603_1608Metric")
      (datasheet "~")
      (libsource (lib "Device") (part "R") (description "Resistor"))
      (property (name "Sheetname") (value ""))
      (property (name "Sheetfile") (value "kvt.kicad_sch"))
      (sheetpath (names "/") (tstamps "/"))
      (tstamps "0a5a2b3c-0000-4000-8000-000000000002"))
    (comp (ref "U1")
      (value "LMV321")
      (footprint "Package_TO_SOT_SMD:SOT-23-5")
      (libsource (lib "Amplifier_Operational") (part "LMV321") (description "Single op amp"))
      (property (name "Sheetname") (value ""))
      (sheetpath (names "/") (tstamps "/"))
      (tstamps "0a5a2b3c-0000-4000-8000-000000000003"))
    (comp (ref "U2")
      (value "LMV321")
      (libsource (lib "Amplifier_Operational") (part "LMV321") (description "Single op amp"))
      (property (name "Sheetname") (value ""))
      (sheetpath (names "/") (tstamps "/"))
      (tstamps "0a5a2b3c-0000-4000-8000-000000000004")))
  (libparts
    (libpart (lib "Amplifier_Operational") (part "LMV321")
      (description "Single op amp")
      (docs "http://www.ti.com/lit/ds/symlink/lmv324.pdf")
      (footprints
        (fp "SOT?23*"))
      (fields
        (field (name "Reference") "U")
        (field (name "Value") "LMV321"))
      (pins
        (pin (num "1") (name "+") (type "input"))
        (pin (num "2") (name "V-") (type "power_in"))
        (pin (num "3") (name "-") (type "input"))
        (pin (num "4") (name "~") (type "output"))
        (pin (num "5") (name "V+") (type "power_in"))))
    (libpart (lib "Connector_Generic") (part "Conn_01x05")
      (description "Generic connector, single row, 01x05")
      (docs "~")
      (fields
        (field (name "Reference") "J")
        (field (name "Value") "Conn_01x05"))
      (pins
        (pin (num "1") (name "Pin_1") (type "passive"))
        (pin (num "2") (name "Pin_2") (type "passive"))
        (pin (num "3") (name "Pin_3") (type "passive"))
        (pin (num "4") (name "Pin_4") (type "passive"))
        (pin (num "5") (name "Pin_5") (type "passive"))))
    (libpart (lib "Device") (part "R")
      (description "Resistor")
      (docs "~")
      (footprints
        (fp "R_*"))
      (fields
        (field (name "Reference") "R")
        (field (name "Value") "R"))
      (pins
        (pin (num "1") (name "~") (type "passive"))
        (pin (num "2") (name "~") (type "passive")))))
  (libraries
    (library (logical "Amplifier_Operational")
      (uri "/usr/share/kicad/symbols/Amplifier_Operational.kicad_sym"))
    (library (logical "Connector_Generic")
      (uri "/usr/share/kicad/symbols/Connector_Generic.kicad_sym"))
    (library (logical "Device")
      (uri "/usr/share/kicad/symbols/Device.kicad_sym")))
  (nets
    (net (code "1") (name "+3V3")
      (node (ref "J1") (pin "1") (pinfunction "Pin_1") (pintype "passive"))
      (node (ref "U1") (pin "5") (pinfunction "V+") (pintype "power_in"))
      (node (ref "U2") (pin "5") (pinfunction "V+") (pintype "power_in")))
    (net (code "2") (name "GND")
      (node (ref "J1") (pin "2") (pinfunction "Pin_2") (pintype "passive"))
      (node (ref "U1") (pin "2") (pinfunction "V-") (pintype "power_in"))
      (node (ref "U2") (pin "2") (pinfunction "V-") (pintype "power_in")))
    (net (code "3") (name "/IN")
      (node (ref "J1") (pin "3") (pinfunction "Pin_3") (pintype "passive"))
      (node (ref "R1") (pin "1") (pintype "passive")))
    (net (code "4") (name "Net-(U1-+)")
      (node (ref "R1") (pin "2") (pintype "passive"))
      (node (ref "U1") (pin "1") (pinfunction "+") (pintype "input")))
    (net (code "5") (name "/OUT")
      (node (ref "J1") (pin "4") (pinfunction "Pin_4") (pintype "passive"))
      (node (ref "U1") (pin "3") (pinfunction "-") (pintype "input"))
      (node (ref "U1") (pin "4") (pintype "output"))
      (node (ref "U2") (pin "1") (pinfunction "+") (pintype "input")))
    (net (code "6") (name "/REF")
      (node (ref "J1") (pin "5") (pinfunction "Pin_5") (pintype "passive"))
      (node (ref "U2") (pin "3") (pinfunction "-") (pintype "input")))
    (net (code "7") (name "unconnected-(U2-Pad4)")
      (node (ref "U2") (pin "4") (pintype "output+no_connect")))))
"#,
    )
}

fn old_v_d() -> String {
    String::from(
        "(export (version D)\n  (design\n    (source /home/user/old/old.sch)\n    (tool \"Eeschema 4.0.7\"))\n  \
         (components\n    (comp (ref R1)\n      (value 10k)\n      (libsource (lib device) (part R))))\n  \
         (libparts\n    (libpart (lib device) (part R)\n      (pins\n        (pin (num 1) (name ~) (type passive))\n        \
         (pin (num 2) (name ~) (type passive)))))\n  \
         (nets\n    (net (code 1) (name GND)\n      (node (ref R1) (pin 1)))\n    (net (code 2) (name VCC)\n      (node (ref R1) (pin 2)))))\n",
    )
}

/// Two op amps of one part, one resistor, five nets; three nets do not touch U1.
fn shared_part() -> &'static str {
    "(export (version \"E\")
      (components
        (comp (ref \"U1\") (value \"OPA\") (libsource (lib \"Amp\") (part \"OPA\")))
        (comp (ref \"U2\") (value \"OPA\") (libsource (lib \"Amp\") (part \"OPA\"))))
      (libparts
        (libpart (lib \"Amp\") (part \"OPA\") (description \"Op amp\")
          (pins (pin (num \"1\") (name \"IN\") (type \"input\"))
                (pin (num \"2\") (name \"OUT\") (type \"output\"))
                (pin (num \"3\") (name \"V\") (type \"power_in\")))))
      (nets
        (net (code \"1\") (name \"A\") (node (ref \"U1\") (pin \"1\") (pintype \"input\")))
        (net (code \"2\") (name \"B\") (node (ref \"U1\") (pin \"2\") (pintype \"output\"))
                                   (node (ref \"U2\") (pin \"1\") (pintype \"input\")))
        (net (code \"3\") (name \"C\") (node (ref \"U2\") (pin \"2\") (pintype \"output\")))
        (net (code \"4\") (name \"V\") (node (ref \"U2\") (pin \"3\") (pintype \"power_in\"))
                                   (node (ref \"U1\") (pin \"3\") (pintype \"power_in\")))
        (net (code \"5\") (name \"X\") (node (ref \"TP1\") (pin \"1\") (pintype \"passive\")))))"
}

fn names(netlist: &NetList) -> (Vec<String>, Vec<String>, Vec<String>) {
    (
        netlist.components.iter().map(|c| c.ref_des.to_string()).collect(),
        netlist.parts.iter().map(|p| format!("{}/{}", p.part_id.lib, p.part_id.part)).collect(),
        netlist.nets.iter().map(|n| n.name.to_string()).collect(),
    )
}

fn same_content(a: &NetList, b: &NetList) -> bool {
    format!("{:?}", a) == format!("{:?}", b)
}

#[test]
fn remove_component_works() {
    let input = kvt();
    let mut netlist: NetList = NetList::parse(&input).unwrap();

    assert_eq!(netlist.components.len(), 4);
    assert_eq!(netlist.parts.len(), 3);
    assert_eq!(netlist.nets.len(), 7);

    netlist.remove_component(RefDes::from("R1"));

    assert_eq!(netlist.components.len(), 3);
    assert_eq!(netlist.parts.len(), 2);
    assert_eq!(netlist.nets.len(), 7);

    netlist.remove_component(RefDes::from("U2"));

    assert_eq!(netlist.components.len(), 2);
    assert_eq!(netlist.parts.len(), 2);
    assert_eq!(netlist.nets.len(), 6);
}

#[test]
fn remove_components_works() {
    let input = kvt();
    let mut netlist: NetList = NetList::parse(&input).unwrap();

    assert_eq!(netlist.components.len(), 4);
    assert_eq!(netlist.parts.len(), 3);
    assert_eq!(netlist.nets.len(), 7);

    netlist.remove_components(&vec![RefDes::from("R1"), RefDes::from("U2")]);

    assert_eq!(netlist.components.len(), 2);
    assert_eq!(netlist.parts.len(), 2);
    assert_eq!(netlist.nets.len(), 6);
}

#[test]
fn test_load_old_netlist() -> Result<(), ParseError> {
    let input = old_v_d();
    let result: Result<NetList, _> = NetList::parse(&input);
    match result {
        Err(ParseError::UnknownVersion(version)) if version == "D" => Ok(()),
        Err(err) => Err(err),
        Ok(_) => panic!("Expected an error"),
    }
}

#[test]
fn parse_links_components_parts_and_nets() {
    let input = kvt();
    let netlist = NetList::parse(&input).unwrap();
    let (components, parts, nets) = names(&netlist);
    assert_eq!(components, vec!["J1", "R1", "U1", "U2"]);
    assert_eq!(
        parts,
        vec!["Amplifier_Operational/LMV321", "Connector_Generic/Conn_01x05", "Device/R"]
    );
    assert_eq!(
        nets,
        vec!["+3V3", "GND", "/IN", "Net-(U1-+)", "/OUT", "/REF", "unconnected-(U2-Pad4)"]
    );

    let r1 = &netlist.components[1];
    assert_eq!(r1.value.as_str(), "10k");
    assert_eq!(r1.part_id, PartId { lib: "Device", part: "R" });
    assert_eq!(r1.footprint.unwrap().as_str(), "Resistor_SMD:R_0603_1608Metric");
    assert_eq!(r1.properties.len(), 2);
    assert_eq!((r1.properties[1].name, r1.properties[1].value), ("Sheetfile", "kvt.kicad_sch"));
    let pins: Vec<(&str, &str, PinType, &str)> =
        r1.pins.iter().map(|p| (p.num.as_str(), p.name.as_str(), p.typ, p.net.as_str())).collect();
    assert_eq!(
        pins,
        vec![("1", "~", PinType::Passive, "/IN"), ("2", "~", PinType::Passive, "Net-(U1-+)")]
    );

    let u2 = &netlist.components[3];
    assert!(u2.footprint.is_none());
    let nets: Vec<&str> = u2.pins.iter().map(|p| p.net.as_str()).collect();
    assert_eq!(nets, vec!["/OUT", "GND", "/REF", "unconnected-(U2-Pad4)", "+3V3"]);
    assert_eq!(u2.pins[3].typ, PinType::Output);

    let amp = &netlist.parts[0];
    assert_eq!(amp.description.as_str(), "Single op amp");
    assert_eq!(amp.pins.len(), 5);
    assert_eq!(amp.pins[1].typ, PinType::PowerInput);
    assert_eq!(amp.components, vec![RefDes::from("U1"), RefDes::from("U2")]);
    assert_eq!(netlist.parts[2].components, vec![RefDes::from("R1")]);

    let nc = &netlist.nets[6];
    assert_eq!(nc.code.as_str(), "7");
    assert_eq!(nc.nodes.len(), 1);
    assert_eq!(nc.nodes[0].typ, PinType::Unconnected);
    assert_eq!(nc.nodes[0].ref_des, RefDes::from("U2"));
    assert_eq!(nc.nodes[0].num.as_str(), "4");
    assert!(nc.nodes[0].function.is_none());
    assert_eq!(netlist.nets[0].nodes[1].function.unwrap().as_str(), "V+");
}

#[test]
fn parse_keeps_the_counts_of_the_source() {
    let netlist = NetList::parse(shared_part()).unwrap();
    assert_eq!(
        (netlist.components.len(), netlist.parts.len(), netlist.nets.len()),
        (2, 1, 5)
    );
    let empty = NetList::parse("(export (version E) (components) (libparts) (nets))").unwrap();
    assert_eq!((empty.components.len(), empty.parts.len(), empty.nets.len()), (0, 0, 0));
}

#[test]
fn pin_types_have_one_name_each() {
    let cases = vec![
        ("input", PinType::Input),
        ("output", PinType::Output),
        ("bidirectional", PinType::Bidirectional),
        ("tri_state", PinType::TriState),
        ("passive", PinType::Passive),
        ("free", PinType::Free),
        ("power_in", PinType::PowerInput),
        ("power_out", PinType::PowerOutput),
        ("open_collector", PinType::OpenCollector),
        ("open_emitter", PinType::OpenEmitter),
    ];
    for (name, typ) in cases {
        assert_eq!(PinType::try_from(name).unwrap(), typ);
    }
}

#[test]
fn no_connect_is_told_by_its_suffix() {
    assert_eq!(PinType::try_from("no_connect").unwrap(), PinType::Unconnected);
    assert_eq!(PinType::try_from("output+no_connect").unwrap(), PinType::Unconnected);
    assert_eq!(PinType::try_from("passive+no_connect").unwrap(), PinType::Unconnected);
    assert_eq!(PinType::try_from("µ_no_connect").unwrap(), PinType::Unconnected);
    assert!(PinType::try_from("no_connect+input").is_err());
    assert!(PinType::try_from("o_connect").is_err());
}

#[test]
fn unknown_pin_type_names_the_string() {
    match PinType::try_from("Input") {
        Err(ParseError::UnknownPinType(s)) => assert_eq!(s, "Input"),
        other => panic!("{:?}", other),
    }
    match PinType::try_from("") {
        Err(ParseError::UnknownPinType(s)) => assert_eq!(s, ""),
        other => panic!("{:?}", other),
    }
    let input = shared_part().replace("(type \"output\")", "(type \"out\")");
    match NetList::parse(&input) {
        Err(ParseError::UnknownPinType(s)) => assert_eq!(s, "out"),
        other => panic!("{:?}", other.map(|_| ())),
    }
    let input = shared_part().replace("(pintype \"passive\")", "(pintype \"pasive\")");
    match NetList::parse(&input) {
        Err(ParseError::UnknownPinType(s)) => assert_eq!(s, "pasive"),
        other => panic!("{:?}", other.map(|_| ())),
    }
}

#[test]
fn missing_part_names_the_pair() {
    let input = shared_part().replace(
        "(comp (ref \"U2\") (value \"OPA\") (libsource (lib \"Amp\") (part \"OPA\")))",
        "(comp (ref \"U2\") (value \"OPA\") (libsource (lib \"Amp\") (part \"OPB\")))",
    );
    match NetList::parse(&input) {
        Err(ParseError::MissingPart(s)) => assert_eq!(s, "Amp/OPB"),
        other => panic!("{:?}", other.map(|_| ())),
    }
}

#[test]
fn missing_net_names_component_and_pin() {
    let input = shared_part().replace("(node (ref \"U2\") (pin \"2\") (pintype \"output\"))", "");
    match NetList::parse(&input) {
        Err(ParseError::MissingNet(r, p)) => assert_eq!((r.as_str(), p.as_str()), ("U2", "2")),
        other => panic!("{:?}", other.map(|_| ())),
    }
}

#[test]
fn unused_part_names_the_pair() {
    let input = shared_part().replace(
        "(libparts",
        "(libparts (libpart (lib \"Device\") (part \"C\") (description \"Capacitor\"))",
    );
    match NetList::parse(&input) {
        Err(ParseError::UnusedPart(s)) => assert_eq!(s, "Device/C"),
        other => panic!("{:?}", other.map(|_| ())),
    }
}

#[test]
fn unexpected_root_label_is_its_own_error() {
    let input = kvt().replacen("(export", "(exported", 1);
    match NetList::parse(&input) {
        Err(ParseError::UnexpectedRootLabel(s)) => assert_eq!(s, "exported"),
        other => panic!("{:?}", other.map(|_| ())),
    }
}

#[test]
fn unsupported_version_names_the_string() {
    let input = kvt().replacen("(version \"E\")", "(version \"20231120\")", 1);
    match NetList::parse(&input) {
        Err(ParseError::UnknownVersion(s)) => assert_eq!(s, "20231120"),
        other => panic!("{:?}", other.map(|_| ())),
    }
}

#[test]
fn removing_the_sole_user_removes_the_part() {
    let input = kvt();
    let mut netlist = NetList::parse(&input).unwrap();
    netlist.remove_component(RefDes::from("J1"));
    let (components, parts, nets) = names(&netlist);
    assert_eq!(components, vec!["R1", "U1", "U2"]);
    assert_eq!(parts, vec!["Amplifier_Operational/LMV321", "Device/R"]);
    assert_eq!(nets.len(), 7);
    assert_eq!(netlist.nets[0].nodes.len(), 2);
    assert_eq!(netlist.nets[2].nodes[0].ref_des, RefDes::from("R1"));
}

#[test]
fn removing_one_of_several_users_keeps_the_part() {
    let input = kvt();
    let mut netlist = NetList::parse(&input).unwrap();
    netlist.remove_component(RefDes::from("U1"));
    let (components, parts, _) = names(&netlist);
    assert_eq!(components, vec!["J1", "R1", "U2"]);
    assert_eq!(parts.len(), 3);
    assert_eq!(netlist.parts[0].components, vec![RefDes::from("U2")]);
    assert_eq!(netlist.parts[0].pins.len(), 5);
}

#[test]
fn emptied_net_is_pruned_and_others_keep_their_nodes() {
    let input = kvt();
    let mut netlist = NetList::parse(&input).unwrap();
    netlist.remove_component(RefDes::from("U2"));
    let (_, _, nets) = names(&netlist);
    assert_eq!(nets, vec!["+3V3", "GND", "/IN", "Net-(U1-+)", "/OUT", "/REF"]);
    let left: Vec<(&str, &str)> =
        netlist.nets[4].nodes.iter().map(|n| (n.ref_des.as_str(), n.num.as_str())).collect();
    assert_eq!(left, vec![("J1", "4"), ("U1", "3"), ("U1", "4")]);
    assert_eq!(netlist.nets[5].nodes.len(), 1);
    assert_eq!(netlist.nets[2].nodes.len(), 2);
}

#[test]
fn removing_an_unknown_component_changes_nothing() {
    let input = kvt();
    let parsed = NetList::parse(&input).unwrap();
    let mut netlist = NetList::parse(&input).unwrap();
    netlist.remove_component(RefDes::from("R2"));
    assert!(same_content(&netlist, &parsed));
    netlist.remove_component(RefDes::from(""));
    assert!(same_content(&netlist, &parsed));
    netlist.remove_component(RefDes::from("r1"));
    assert!(same_content(&netlist, &parsed));
}

#[test]
fn removing_nothing_changes_nothing() {
    let input = kvt();
    let parsed = NetList::parse(&input).unwrap();
    let mut netlist = NetList::parse(&input).unwrap();
    netlist.remove_components(&[]);
    assert!(same_content(&netlist, &parsed));
}

#[test]
fn batch_removes_a_shared_part_once() {
    let input = kvt();
    let mut netlist = NetList::parse(&input).unwrap();
    netlist.remove_components(&[RefDes::from("U1"), RefDes::from("U2")]);
    let (components, parts, nets) = names(&netlist);
    assert_eq!(components, vec!["J1", "R1"]);
    assert_eq!(parts, vec!["Connector_Generic/Conn_01x05", "Device/R"]);
    assert_eq!(nets, vec!["+3V3", "GND", "/IN", "Net-(U1-+)", "/OUT", "/REF"]);
}

#[test]
fn batch_matches_one_by_one() {
    let input = kvt();
    let batches: Vec<Vec<&str>> = vec![
        vec!["R1", "U2"],
        vec!["U2", "R1"],
        vec!["U1", "U2"],
        vec!["J1", "R1", "U1", "U2"],
        vec!["J1"],
        vec!["U1", "U1"],
        vec!["R9", "R1"],
        vec!["R1", "R9", "R1", "U2"],
        vec!["R9"],
        vec![],
    ];
    for batch in batches {
        let mut at_once = NetList::parse(&input).unwrap();
        let list: Vec<RefDes> = batch.iter().map(|r| RefDes::from(*r)).collect();
        at_once.remove_components(&list);
        let mut in_turn = NetList::parse(&input).unwrap();
        for r in &batch {
            in_turn.remove_component(RefDes::from(*r));
        }
        assert!(same_content(&at_once, &in_turn));
    }
}

#[test]
fn removing_everything_leaves_nothing() {
    let input = kvt();
    let mut netlist = NetList::parse(&input).unwrap();
    netlist.remove_components(&[
        RefDes::from("J1"),
        RefDes::from("R1"),
        RefDes::from("U1"),
        RefDes::from("U2"),
    ]);
    assert!(netlist.components.is_empty());
    assert!(netlist.parts.is_empty());
    assert!(netlist.nets.is_empty());
}

#[test]
fn removing_one_of_two_users_of_a_part() {
    let mut netlist = NetList::parse(shared_part()).unwrap();
    assert_eq!(netlist.components.len(), 2);
    assert_eq!(netlist.nets.len(), 5);

    netlist.remove_component(RefDes::from("U1"));

    assert_eq!(netlist.components.len(), 1);
    assert_eq!(netlist.components[0].ref_des, RefDes::from("U2"));
    assert_eq!(netlist.parts.len(), 1);
    assert_eq!(netlist.parts[0].part_id, PartId { lib: "Amp", part: "OPA" });
    assert_eq!(netlist.parts[0].components, vec![RefDes::from("U2")]);
    let (_, _, nets) = names(&netlist);
    assert_eq!(nets, vec!["B", "C", "V", "X"]);
    assert_eq!(netlist.nets[0].nodes.len(), 1);
    assert_eq!(netlist.nets[2].nodes.len(), 1);
    assert_eq!(netlist.nets[2].nodes[0].ref_des, RefDes::from("U2"));
}

#[test]
fn names_convert_from_and_to_strings() {
    let r = RefDes::from("R1");
    assert_eq!(r.as_str(), "R1");
    assert_eq!(r.to_string(), "R1");
    assert_eq!(r, RefDes::from("R1"));
    assert_ne!(r, RefDes::from("R2"));
}

#[test]
fn net_of_pin_gives_the_first_net_with_the_node() {
    let input = kvt();
    let netlist = NetList::parse(&input).unwrap();
    let net = netlist.net_of_pin(&RefDes::from("U2"), &PinNum::from("3")).unwrap();
    assert_eq!(net.name.as_str(), "/REF");
    let net = netlist.net_of_pin(&RefDes::from("R1"), &PinNum::from("2")).unwrap();
    assert_eq!(net.code.as_str(), "4");
    assert!(netlist.net_of_pin(&RefDes::from("R1"), &PinNum::from("3")).is_none());
    assert!(netlist.net_of_pin(&RefDes::from("R9"), &PinNum::from("1")).is_none());
}

#[test]
fn part_of_gives_the_part_of_a_component() {
    let input = kvt();
    let netlist = NetList::parse(&input).unwrap();
    let part = netlist.part_of(&netlist.components[3]).unwrap();
    assert_eq!(part.part_id, PartId { lib: "Amplifier_Operational", part: "LMV321" });
    let mut smaller = netlist.clone();
    smaller.remove_component(RefDes::from("R1"));
    assert!(smaller.part_of(&netlist.components[1]).is_none());
    assert!(netlist.part_of(&netlist.components[1]).is_some());
}

#[test]
fn every_pin_of_every_component_has_its_net() {
    let input = kvt();
    let mut netlist = NetList::parse(&input).unwrap();
    netlist.remove_components(&[RefDes::from("U1")]);
    for c in &netlist.components {
        let part = netlist.part_of(c).unwrap();
        assert!(part.components.contains(&c.ref_des));
        assert_eq!(part.pins.len(), c.pins.len());
        for pin in &c.pins {
            let net = netlist.net_of_pin(&c.ref_des, &pin.num).unwrap();
            assert_eq!(net.name, pin.net);
        }
    }
    for net in &netlist.nets {
        assert!(!net.nodes.is_empty());
    }
}

#[test]
fn a_batch_drops_nets_without_nodes_even_when_it_is_empty() {
    let input = shared_part().replace(
        "(nets",
        "(nets (net (code \"0\") (name \"EMPTY\"))",
    );
    let mut netlist = NetList::parse(&input).unwrap();
    assert_eq!(netlist.nets.len(), 6);
    assert!(netlist.nets[0].nodes.is_empty());
    netlist.remove_component(RefDes::from("U9"));
    assert_eq!(netlist.nets.len(), 6);
    netlist.remove_components(&[]);
    let (components, parts, nets) = names(&netlist);
    assert_eq!(components, vec!["U1", "U2"]);
    assert_eq!(parts, vec!["Amp/OPA"]);
    assert_eq!(nets, vec!["A", "B", "C", "V", "X"]);
}

#[test]
fn a_batch_takes_the_nodes_of_names_that_are_no_components() {
    let mut one = NetList::parse(shared_part()).unwrap();
    one.remove_component(RefDes::from("TP1"));
    assert_eq!(one.nets.len(), 5);
    let mut batch = NetList::parse(shared_part()).unwrap();
    batch.remove_components(&[RefDes::from("TP1")]);
    let (components, parts, nets) = names(&batch);
    assert_eq!(components, vec!["U1", "U2"]);
    assert_eq!(parts, vec!["Amp/OPA"]);
    assert_eq!(nets, vec!["A", "B", "C", "V"]);
}

#[test]
fn duplicate_part_definitions_are_read_and_the_first_is_used() {
    let input = shared_part().replace(
        "(libparts",
        "(libparts (libpart (lib \"Amp\") (part \"OPA\") (description \"first\") \
         (pins (pin (num \"3\") (name \"V\") (type \"power_in\"))))",
    );
    let mut netlist = NetList::parse(&input).unwrap();
    assert_eq!(netlist.parts.len(), 2);
    assert_eq!(netlist.components[0].pins.len(), 1);
    assert_eq!(netlist.parts[0].components.len(), 2);
    assert_eq!(netlist.parts[1].components.len(), 2);
    netlist.remove_components(&[RefDes::from("U1"), RefDes::from("U2")]);
    assert_eq!(netlist.parts.len(), 1);
    assert_eq!(netlist.parts[0].description.as_str(), "Op amp");
    assert_eq!(netlist.parts[0].components.len(), 2);
}

#[test]
fn part_without_description_is_not_read() {
    let input = shared_part().replace(" (description \"Op amp\")", "");
    match NetList::parse(&input) {
        Err(ParseError::MissingChild(label)) => assert_eq!(label, "description"),
        other => panic!("{:?}", other.map(|_| ())),
    }
}
