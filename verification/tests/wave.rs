use std::collections::HashMap;
use rvcd::radix::Radix;
use rvcd::wave::vcd_parser::{vcd_tree, VcdHeader};
use rvcd::wave::WireValue::{V0, V1, X, Z};
use rvcd::wave::{
    Wave, WaveDataItem, WaveDataValue, WaveError, WaveInfo, WaveScopeInfo, WaveScopeType,
    WaveSignalInfo, WaveSignalType, WaveTimescaleUnit, WaveTreeNode, WireValue,
};

fn empty_info() -> WaveInfo {
    let header = VcdHeader { comment: None, date: None, version: None, timescale: None, items: vec![] };
    WaveInfo {
        timescale: (1, WaveTimescaleUnit::PS),
        range: (0, 0),
        headers: vec![],
        code_signal_info: HashMap::new(),
        code_paths: HashMap::new(),
        tree: vcd_tree(&header).unwrap(),
    }
}

fn comp(ts: u64, bytes: Vec<u8>) -> WaveDataItem {
    WaveDataItem { value: WaveDataValue::Comp(bytes), timestamp: ts }
}

#[test]
fn wire_value_text() {
    assert_eq!(V0.to_char(), '0');
    assert_eq!(V1.to_string(), "1");
    assert_eq!(X.to_string(), "x");
    assert_eq!(Z.to_char(), 'z');
    assert_eq!(WireValue::default(), V0);
}

#[test]
fn timescale_steps() {
    assert_eq!(WaveTimescaleUnit::S.smaller(), Some(WaveTimescaleUnit::MS));
    assert_eq!(WaveTimescaleUnit::FS.smaller(), None);
    assert_eq!(WaveTimescaleUnit::S.larger(), None);
    assert_eq!(WaveTimescaleUnit::PS.larger(), Some(WaveTimescaleUnit::NS));
    for u in [
        WaveTimescaleUnit::S,
        WaveTimescaleUnit::MS,
        WaveTimescaleUnit::US,
        WaveTimescaleUnit::NS,
        WaveTimescaleUnit::PS,
        WaveTimescaleUnit::FS,
    ] {
        if let Some(v) = u.smaller() {
            assert_eq!(v.larger(), Some(u));
        }
        if let Some(v) = u.larger() {
            assert_eq!(v.smaller(), Some(u));
        }
    }
    assert_eq!(WaveTimescaleUnit::US.to_string(), "us");
    assert_eq!(WaveTimescaleUnit::default(), WaveTimescaleUnit::PS);
}

#[test]
fn compress_two_state_bits() {
    let item = WaveDataItem { value: WaveDataValue::Raw(vec![V1, V0, V1]), timestamp: 7 }
        .compress()
        .unwrap();
    assert_eq!(item.timestamp, 7);
    match item.value {
        WaveDataValue::Comp(b) => assert_eq!(b, vec![5u8]),
        _ => panic!("not compressed"),
    }
    let zero = WaveDataItem { value: WaveDataValue::Raw(vec![V0; 12]), timestamp: 0 }
        .compress()
        .unwrap();
    match zero.value {
        WaveDataValue::Comp(b) => assert_eq!(b, vec![0u8]),
        _ => panic!("not compressed"),
    }
}

#[test]
fn compress_keeps_unknown_bits() {
    let item = WaveDataItem { value: WaveDataValue::Raw(vec![V1, X, Z]), timestamp: 3 }
        .compress()
        .unwrap();
    match item.value {
        WaveDataValue::Raw(v) => assert_eq!(v, vec![V1, X, Z]),
        _ => panic!("compressed unknown bits"),
    }
    let item = comp(4, vec![1, 2]).compress().unwrap();
    match item.value {
        WaveDataValue::Comp(v) => assert_eq!(v, vec![1, 2]),
        _ => panic!("changed a stored number"),
    }
}

#[test]
fn compress_refuses_empty_value() {
    let r = WaveDataItem { value: WaveDataValue::Raw(vec![]), timestamp: 0 }.compress();
    assert_eq!(r.unwrap_err(), WaveError::CompressInvalidData);
    let r = comp(0, vec![]).compress();
    assert_eq!(r.unwrap_err(), WaveError::CompressInvalidData);
    assert_eq!(WaveError::CompressInvalidData.to_string(), "compressing invalid data!");
}

#[test]
fn data_value_text() {
    assert_eq!(WaveDataValue::Comp(vec![0xff, 0x01]).as_radix(Radix::Hex), "1ff");
    assert_eq!(WaveDataValue::Comp(vec![0x0a]).as_radix(Radix::Dec), "10");
    assert_eq!(WaveDataValue::Raw(vec![V1, V0, X]).as_radix(Radix::Bin), "x01");
    assert_eq!(WaveDataValue::Raw(vec![V1, V1, V1, V1, V1]).to_string(), "1f");
    assert_eq!(comp(12, vec![0x2a]).to_string(), "#12 2a");
}

#[test]
fn signal_and_node_text() {
    let s = WaveSignalInfo { id: 1, name: "data".to_string(), width: 8, typ: WaveSignalType::Wire };
    assert_eq!(s.to_string(), "data[7:0]");
    let s1 = WaveSignalInfo { id: 2, name: "clk".to_string(), width: 1, typ: WaveSignalType::Reg };
    assert_eq!(s1.to_string(), "clk");
    let s0 = WaveSignalInfo { id: 2, name: "ev".to_string(), width: 0, typ: WaveSignalType::Event };
    assert_eq!(s0.to_string(), "ev");
    assert_eq!(WaveSignalType::Wire.to_string(), "wire");
    assert_eq!(WaveSignalType::TriAnd.to_string(), "triand");
    assert_eq!(WaveScopeType::Module.to_string(), "module");
    let scope = WaveScopeInfo { id: 9, name: "top".to_string(), typ: WaveScopeType::Module };
    assert_eq!(scope.to_string(), "top");
    assert_eq!(WaveTreeNode::WaveRoot.to_string(), "root");
    assert_eq!(WaveTreeNode::WaveScope(scope).to_string(), "top");
    assert_eq!(WaveTreeNode::WaveVar(s).to_string(), "data[7:0]");
    assert_eq!(WaveTreeNode::WaveId(42).to_string(), "42");
}

#[test]
fn find_value_nearest_before() {
    let mut data = HashMap::new();
    data.insert(1u64, vec![comp(0, vec![0]), comp(10, vec![1]), comp(20, vec![2]), comp(20, vec![3])]);
    let wave = Wave { info: empty_info(), data };
    assert_eq!(wave.find_value(1, 0).unwrap().timestamp, 0);
    let v = wave.find_value(1, 15).unwrap();
    assert_eq!(v.timestamp, 10);
    match v.value {
        WaveDataValue::Comp(b) => assert_eq!(b, vec![1]),
        _ => panic!(),
    }
    let v = wave.find_value(1, 20).unwrap();
    match v.value {
        WaveDataValue::Comp(b) => assert_eq!(b, vec![3]),
        _ => panic!(),
    }
    assert_eq!(wave.find_value(1, 1000).unwrap().timestamp, 20);
    assert!(wave.find_value(2, 5).is_none());
}

#[test]
fn data_value_shows_in() {
    assert!(WaveDataValue::Comp(vec![]).shows_in(Radix::Hex));
    assert!(!WaveDataValue::Raw(vec![]).shows_in(Radix::Hex));
    assert!(WaveDataValue::Raw(vec![]).shows_in(Radix::Dec));
    assert!(WaveDataValue::Raw(vec![X]).shows_in(Radix::Oct));
}
