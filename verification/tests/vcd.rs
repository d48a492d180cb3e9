use rvcd::wave::vcd_parser::{
    vcd_code_name, vcd_code_path, vcd_get_last_timestamp, vcd_header_entries, vcd_header_show,
    vcd_id_code, vcd_timescale, vcd_tree, vcd_tree_show, LoadProgress, Vcd, VcdCommand, VcdHeader,
    VcdLoader, VcdScope, VcdScopeItem, VcdVar,
};
use rvcd::wave::WireValue::{V0, V1, X};
use rvcd::wave::{
    WaveDataValue, WaveError, WavePreLoader, WaveScopeType, WaveSignalType, WaveTimescaleUnit,
    WaveTreeNode, WireValue,
};
use rvcd::wave::vcd_load::{load_commands, load_vcd, load_would_overflow};
use rvcd::wave::vcd_read::{
    read_command, read_vcd, scope_type_named, signal_type_named, timescale_unit_named,
    wire_values_of, VcdReadCommand,
};
use trees::Node;

const SAMPLE: &str = "$date today $end
$version sim 1.0 $end
$comment a sample $end
$timescale 10 ns $end
$scope module top $end
$var wire 1 ! clk $end
$scope module sub $end
$var reg 4 \" data $end
$upscope $end
$upscope $end
$scope module top $end
$var wire 1 # rst $end
$upscope $end
$enddefinitions $end
#0
0!
b0001 \"
#5
1!
#10
0!
b1x00 \"
#20
1!
";

fn sample_header() -> (VcdHeader, Vec<VcdCommand>) {
    read_vcd(SAMPLE.as_bytes()).unwrap()
}

fn var(name: &str, code: u64, size: u32) -> VcdScopeItem {
    VcdScopeItem::Var(VcdVar { var_type: WaveSignalType::Wire, size, code, reference: name.to_string() })
}

fn scope(name: &str, children: Vec<VcdScopeItem>) -> VcdScopeItem {
    VcdScopeItem::Scope(VcdScope { scope_type: WaveScopeType::Module, identifier: name.to_string(), children })
}

fn flatten(node: &Node<WaveTreeNode>, depth: usize, out: &mut Vec<(usize, String)>) {
    out.push((depth, node.data().to_string()));
    for child in node.iter() {
        flatten(child, depth + 1, out);
    }
}

#[test]
fn vcd_test_vcd_in_memory() {
    let (h, commands) = sample_header();
    let lines = vcd_header_show(&h);
    assert_eq!(lines, vec!["comment: a sample", "date: today", "version: sim 1.0", "timescale: 10 / ns"]);
    let outline = vcd_tree_show(&h);
    assert_eq!(outline, vec!["top", "\tclk width=1", "\tsub", "\t\tdata width=4", "top", "\trst width=1"]);
    let names = vcd_code_name(&h);
    assert_eq!(names.len(), 3);
    assert_eq!(names[&0].name, "clk");
    assert_eq!(names[&1].to_string(), "data[3:0]");
    assert_eq!(names[&1].typ, WaveSignalType::Reg);
    let paths = vcd_code_path(&h).unwrap();
    assert_eq!(paths[&0], vec!["top", "clk"]);
    assert_eq!(paths[&1], vec!["top", "sub", "data"]);
    // a path names the enclosing scopes only
    assert_eq!(paths[&2], vec!["top", "rst"]);
    assert_eq!(commands.len(), 10);
}

#[test]
fn vcd_header_texts() {
    let (h, _) = sample_header();
    let entries = vcd_header_entries(&h);
    assert_eq!(
        entries,
        vec![
            ("comment".to_string(), "a sample".to_string()),
            ("date".to_string(), "today".to_string()),
            ("version".to_string(), "sim 1.0".to_string())
        ]
    );
    assert_eq!(vcd_timescale(&h), (10, WaveTimescaleUnit::NS));
    let bare = VcdHeader { comment: None, date: None, version: None, timescale: None, items: vec![] };
    assert_eq!(vcd_timescale(&bare), (1, WaveTimescaleUnit::PS));
    assert!(vcd_header_show(&bare).is_empty());
    assert!(vcd_header_entries(&bare).is_empty());
}

#[test]
fn vcd_tree_merges_scopes() {
    let (h, _) = sample_header();
    let tree = vcd_tree(&h).unwrap();
    let mut nodes = vec![];
    flatten(tree.root(), 0, &mut nodes);
    let shown: Vec<(usize, &str)> = nodes.iter().map(|(d, s)| (*d, s.as_str())).collect();
    assert_eq!(shown, vec![(0, "root"), (1, "top"), (2, "sub"), (3, "data[3:0]"), (2, "clk"), (2, "rst")]);
}

#[test]
fn vcd_tree_scopes_before_vars() {
    let h = VcdHeader {
        comment: None,
        date: None,
        version: None,
        timescale: None,
        items: vec![var("a", 1, 1), scope("s", vec![var("b", 2, 2)]), var("c", 3, 1), scope("s", vec![var("d", 4, 1)])],
    };
    let tree = vcd_tree(&h).unwrap();
    let mut nodes = vec![];
    flatten(tree.root(), 0, &mut nodes);
    let shown: Vec<(usize, &str)> = nodes.iter().map(|(d, s)| (*d, s.as_str())).collect();
    assert_eq!(shown, vec![(0, "root"), (1, "s"), (2, "b[1:0]"), (2, "d"), (1, "a"), (1, "c")]);
    // ids of the same scope name differ by parent only
    let ids: Vec<u64> = tree
        .root()
        .iter()
        .filter_map(|n| match n.data() {
            WaveTreeNode::WaveScope(s) => Some(s.id),
            _ => None,
        })
        .collect();
    assert_eq!(ids.len(), 1);
}

#[test]
fn vcd_id_codes() {
    assert_eq!(vcd_id_code(&"!".to_string()), Some(0));
    assert_eq!(vcd_id_code(&"\"".to_string()), Some(1));
    assert_eq!(vcd_id_code(&"~".to_string()), Some(93));
    assert_eq!(vcd_id_code(&"!!".to_string()), Some(94));
    assert_eq!(vcd_id_code(&"".to_string()), None);
    assert_eq!(vcd_id_code(&"a b".to_string()), None);
    for n in [0u64, 1, 93, 94, 95, 12345, 1 << 40, u64::MAX - 1] {
        let text = vcd::IdCode::from(n).to_string();
        assert_eq!(vcd_id_code(&text), Some(n));
    }
    assert_eq!(vcd_id_code(&"~~~~~~~~~~~".to_string()), None);
}

#[test]
fn vcd_last_timestamp_from_end() {
    let lines: Vec<String> = vec!["1!", "#40", "0!", "#30", "b1 \""].into_iter().map(String::from).collect();
    // the lines are read from the end backwards; the first timestamp met decides
    assert_eq!(vcd_get_last_timestamp(&lines), Some(40));
    assert_eq!(Vcd::last_timestamp(&lines), Some(40));
    let lines: Vec<String> = vec!["#12", "#abc"].into_iter().map(String::from).collect();
    assert_eq!(vcd_get_last_timestamp(&lines), Some(12));
    let lines: Vec<String> = vec!["#abc", "#12"].into_iter().map(String::from).collect();
    assert_eq!(vcd_get_last_timestamp(&lines), None);
    // a file ending "$enddefinitions $end", "#10", "1!", "#20", "0!"
    let lines: Vec<String> = vec!["0!", "#20", "1!", "#10", "$enddefinitions $end"]
        .into_iter()
        .map(String::from)
        .collect();
    assert_eq!(vcd_get_last_timestamp(&lines), Some(20));
    let none: Vec<String> = vec![];
    assert_eq!(vcd_get_last_timestamp(&none), None);
    let mut far: Vec<String> = vec![];
    for _ in 0..1025 {
        far.push("0!".to_string());
    }
    far.push("#9".to_string());
    assert_eq!(vcd_get_last_timestamp(&far), None);
    let mut many: Vec<String> = vec!["#5".to_string()];
    for _ in 0..1100 {
        many.push("0!".to_string());
    }
    many.push("#7".to_string());
    assert_eq!(vcd_get_last_timestamp(&many), Some(5));
}

#[test]
fn vcd_loader_loads_sample() {
    let (h, commands) = sample_header();
    let mut loader = VcdLoader::new(None);
    for c in commands {
        assert_eq!(loader.on_command(c).unwrap(), None);
    }
    assert_eq!((loader.time_start, loader.time_stop), (0, 20));
    let wave = loader.finish(&h).unwrap();
    assert_eq!(wave.info.range, (0, 20));
    assert_eq!(wave.info.timescale, (10, WaveTimescaleUnit::NS));
    let clk = &wave.data[&0];
    assert_eq!(clk.iter().map(|i| i.timestamp).collect::<Vec<_>>(), vec![0, 5, 10, 20]);
    let data = &wave.data[&1];
    assert_eq!(data.len(), 2);
    match &data[0].value {
        WaveDataValue::Comp(b) => assert_eq!(b, &vec![8u8]),
        _ => panic!("not compressed"),
    }
    match &data[1].value {
        WaveDataValue::Raw(v) => assert_eq!(v, &vec![V1, X, V0, V0]),
        _ => panic!("compressed unknown bits"),
    }
    let v = wave.find_value(0, 7).unwrap();
    assert_eq!(v.timestamp, 5);
    assert!(wave.find_value(2, 7).is_none());
}

#[test]
fn vcd_loader_reports_progress() {
    let mut loader = VcdLoader::new(Some(10_000));
    assert_eq!(loader.timestamp_skip, 10);
    assert_eq!(loader.on_command(VcdCommand::Timestamp(100)).unwrap(), None);
    assert_eq!(
        loader.on_command(VcdCommand::Timestamp(105)).unwrap(),
        Some(LoadProgress { elapsed: 5, timestamp: 105 })
    );
    assert_eq!(loader.timestamp_notified, 105);
    assert_eq!(loader.on_command(VcdCommand::Timestamp(111)).unwrap(), None);
    assert_eq!(
        loader.on_command(VcdCommand::Timestamp(116)).unwrap(),
        Some(LoadProgress { elapsed: 16, timestamp: 116 })
    );
    assert_eq!(loader.on_command(VcdCommand::Timestamp(126)).unwrap(), None);
    assert_eq!(
        loader.on_command(VcdCommand::Timestamp(127)).unwrap(),
        Some(LoadProgress { elapsed: 27, timestamp: 127 })
    );
    let mut quiet = VcdLoader::new(None);
    assert_eq!(quiet.on_command(VcdCommand::Timestamp(1_000_000)).unwrap(), None);
    assert_eq!(quiet.time_start, 1_000_000);
}

#[test]
fn vcd_loader_refuses_empty_vector() {
    let mut loader = VcdLoader::new(None);
    loader.on_command(VcdCommand::Timestamp(3)).unwrap();
    assert_eq!(loader.on_command(VcdCommand::ChangeVector(1, vec![])), Err(WaveError::CompressInvalidData));
    assert!(loader.data.is_empty());
    assert_eq!(loader.on_command(VcdCommand::Other), Ok(None));
    loader.on_command(VcdCommand::ChangeScalar(4, V1)).unwrap();
    assert_eq!(loader.data[&4][0].timestamp, 3);
}

#[test]
fn vcd_loader_overflow_check() {
    let mut loader = VcdLoader::new(Some(u64::MAX));
    assert!(!loader.timestamp_overflows(5));
    loader.on_command(VcdCommand::Timestamp(0)).unwrap();
    loader.timestamp_notified = u64::MAX - 1;
    assert!(loader.timestamp_overflows(5));
    assert!(!loader.timestamp_overflows(0));
}

#[test]
fn vcd_load_from_bytes() {
    let wave = load_vcd(SAMPLE.as_bytes(), Some(20), &mut vec![]).unwrap();
    assert_eq!(wave.info.range, (0, 20));
    assert_eq!(wave.info.timescale, (10, WaveTimescaleUnit::NS));
    assert_eq!(wave.info.headers.len(), 3);
    assert_eq!(wave.info.code_signal_info[&1].name, "data");
    assert_eq!(wave.info.code_paths[&2], vec!["top", "rst"]);
    let clk = &wave.data[&0];
    assert_eq!(clk.iter().map(|i| i.timestamp).collect::<Vec<_>>(), vec![0, 5, 10, 20]);
    match &wave.data[&1][1].value {
        WaveDataValue::Raw(v) => assert_eq!(v, &vec![V1, X, V0, V0]),
        _ => panic!("compressed unknown bits"),
    }
    // the same as reading the commands one by one
    let (h, commands) = sample_header();
    let other = load_commands(&h, &commands, Some(20), &mut vec![]).unwrap();
    assert_eq!(other.info.range, wave.info.range);
    assert_eq!(other.data.len(), wave.data.len());
}

#[test]
fn vcd_load_errors() {
    assert_eq!(load_vcd(b"$var nonsense", None, &mut vec![]).err(), Some(WaveError::VcdParse));
    assert_eq!(load_vcd(b"", None, &mut vec![]).err(), Some(WaveError::VcdParse));
    assert!(read_vcd(b"#0\n").is_none());
    let (h, _) = sample_header();
    let commands = vec![VcdCommand::Timestamp(1), VcdCommand::ChangeVector(1, vec![]), VcdCommand::ChangeScalar(0, V1)];
    assert!(!load_would_overflow(&commands, None));
    assert_eq!(load_commands(&h, &commands, None, &mut vec![]).err(), Some(WaveError::CompressInvalidData));
    let big = "$scope module top $end\n$var wire 1 ! clk $end\n$upscope $end\n$enddefinitions $end\n#0\n#18446744073709551000\n#18446744073709551610\n";
    assert_eq!(load_vcd(big.as_bytes(), Some(u64::MAX), &mut vec![]).err(), Some(WaveError::TimestampOverflow));
    assert!(load_vcd(big.as_bytes(), None, &mut vec![]).is_ok());
    assert_eq!(WaveError::VcdParse.to_string(), "invalid vcd file!");
    assert_eq!(WaveError::VcdUnknown.to_string(), "unknown vcd item!");
    assert_eq!(WaveError::TimestampOverflow.to_string(), "timestamp overflow!");
}

#[test]
fn vcd_read_back() {
    assert_eq!(signal_type_named(&"wire".to_string()), Some(WaveSignalType::Wire));
    assert_eq!(signal_type_named(&"trireg".to_string()), Some(WaveSignalType::TriReg));
    assert_eq!(signal_type_named(&"wires".to_string()), None);
    assert_eq!(scope_type_named(&"fork".to_string()), Some(WaveScopeType::Fork));
    assert_eq!(scope_type_named(&"module ".to_string()), None);
    assert_eq!(timescale_unit_named(&"us".to_string()), Some(WaveTimescaleUnit::US));
    assert_eq!(timescale_unit_named(&"ks".to_string()), None);
    assert_eq!(wire_values_of(&"01xz".to_string()), Some(vec![V0, V1, X, WireValue::Z]));
    assert_eq!(wire_values_of(&"0X".to_string()), None);
    let c = read_command(&VcdReadCommand::ChangeScalar("\"".to_string(), "x".to_string())).unwrap();
    assert!(matches!(c, VcdCommand::ChangeScalar(1, X)));
    assert!(read_command(&VcdReadCommand::ChangeScalar("".to_string(), "1".to_string())).is_none());
    assert!(read_command(&VcdReadCommand::ChangeScalar("!".to_string(), "10".to_string())).is_none());
    let v = read_command(&VcdReadCommand::ChangeVector("!!".to_string(), "10".to_string())).unwrap();
    assert!(matches!(v, VcdCommand::ChangeVector(94, ref b) if b == &vec![V1, V0]));
    assert!(matches!(read_command(&VcdReadCommand::Other).unwrap(), VcdCommand::Other));
}

#[test]
fn vcd_load_overflow_check() {
    let near = 18446744073709551000u64;
    let commands = vec![VcdCommand::Timestamp(0), VcdCommand::Timestamp(near), VcdCommand::Timestamp(near + 10)];
    assert!(load_would_overflow(&commands, Some(u64::MAX)));
    assert!(!load_would_overflow(&commands, None));
    assert!(!load_would_overflow(&commands[..2].to_vec(), Some(u64::MAX)));
    // a failing command ends the load before the overflow is reached
    let failing = vec![VcdCommand::Timestamp(0), VcdCommand::Timestamp(near), VcdCommand::ChangeVector(0, vec![]), VcdCommand::Timestamp(near + 10)];
    assert!(!load_would_overflow(&failing, Some(u64::MAX)));
}

#[test]
fn vcd_paths_of_sibling_scopes() {
    let text = b"$scope module top $end $scope module a $end $var wire 1 ! x $end $upscope $end $scope module b $end $var wire 1 # y $end $upscope $end $upscope $end $enddefinitions $end\n";
    let (h, _) = read_vcd(&text[..]).unwrap();
    let paths = vcd_code_path(&h).unwrap();
    assert_eq!(paths[&vcd_id_code(&"!".to_string()).unwrap()], vec!["top", "a", "x"]);
    assert_eq!(paths[&vcd_id_code(&"#".to_string()).unwrap()], vec!["top", "b", "y"]);
    let h = VcdHeader {
        comment: None,
        date: None,
        version: None,
        timescale: None,
        items: vec![scope("top", vec![scope("a", vec![var("x", 0, 1)]), scope("b", vec![var("y", 1, 1)])]), var("z", 2, 1)],
    };
    let paths = vcd_code_path(&h).unwrap();
    assert_eq!(paths[&1], vec!["top", "b", "y"]);
    assert_eq!(paths[&2], vec!["z"]);
}

#[test]
fn vcd_find_value_before_first_change() {
    let text = "$scope module top $end\n$var wire 1 ! a $end\n$upscope $end\n$enddefinitions $end\n#5\n1!\n#9\n0!\n";
    let mut wave = load_vcd(text.as_bytes(), None, &mut vec![]).unwrap();
    assert!(wave.find_value(0, 3).is_none());
    assert_eq!(wave.find_value(0, 5).unwrap().timestamp, 5);
    assert_eq!(wave.find_value(0, 100).unwrap().timestamp, 9);
    wave.data.insert(0, vec![]);
    assert!(wave.find_value(0, 100).is_none());
}

#[test]
fn vcd_load_reports_progress() {
    let (h, _) = sample_header();
    let commands = vec![
        VcdCommand::Timestamp(100),
        VcdCommand::Timestamp(105),
        VcdCommand::Timestamp(111),
        VcdCommand::Timestamp(116),
    ];
    let mut progress = vec![LoadProgress { elapsed: 0, timestamp: 0 }];
    load_commands(&h, &commands, Some(10_000), &mut progress).unwrap();
    assert_eq!(
        progress,
        vec![
            LoadProgress { elapsed: 0, timestamp: 0 },
            LoadProgress { elapsed: 5, timestamp: 105 },
            LoadProgress { elapsed: 16, timestamp: 116 }
        ]
    );
    // a failing command keeps the reports made before it
    let failing = vec![VcdCommand::Timestamp(100), VcdCommand::Timestamp(105), VcdCommand::ChangeVector(0, vec![]), VcdCommand::Timestamp(200)];
    let mut progress = vec![];
    assert!(load_commands(&h, &failing, Some(10_000), &mut progress).is_err());
    assert_eq!(progress, vec![LoadProgress { elapsed: 5, timestamp: 105 }]);
    let text = "$enddefinitions $end\n#100\n#105\n#111\n#116\n";
    let mut progress = vec![];
    load_vcd(text.as_bytes(), Some(10_000), &mut progress).unwrap();
    assert_eq!(progress.len(), 2);
    assert_eq!(progress[1].timestamp, 116);
}
