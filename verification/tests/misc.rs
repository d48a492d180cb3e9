use rvcd::radix::Radix;
use rvcd::view::{apply_signal_edits, tick_kind, tick_range, TickKind};
use rvcd::view::{get_radix, SignalViewAlign, SignalViewMode};
use rvcd::view::{item_shape, WaveShape};
use rvcd::wave::WaveDataValue;
use rvcd::wave::WireValue::{V0, V1, X, Z};
use rvcd::view::truncated_label;
use rvcd::view::first_drawn;
use rvcd::wave::WaveDataItem;
use rvcd::windows::RvcdWindows;
use rvcd::windows::locale_from_lang;
use rvcd::service::{copy_chunk, finish_read, LoadFlags};
use rvcd::client::{RvcdManagedClient, RvcdManagedClientData};
use rvcd::code::{goto_offset, CodeEditor, CodeEditorState, CodeEditorType, CodeLocation};
use rvcd::manager::{RvcdManagedInfo, RvcdManager, RvcdRpcMessage, RvcdSignalPath, MANAGER_PORT};
use rvcd::rvcd::{
    file_basename, filter_signal_leaves, signal_to_add, signals_not_shown, RvcdRemote,
    RvcdSession, State,
    RpcAction, SessionAction, SessionEvent,
};
use rvcd::wave::vcd_load::load_vcd;
use rvcd::size::FileSizeUnit;
use rvcd::tree_view::{
    child_signals, recurse_child_signals, search_matches, TreeAction, TreeNodeView, TreeView,
};
use rvcd::verilog::{MyVerilogListener, VerilogModulesVisitor, VerilogPortType};
use rvcd::view::{
    available_signals, cursors_exists_id, cursors_get, next_cursor_id, pos_to_time,
    pos_to_time_fmt, signal_info_or_default, WaveCursor,
};
use rvcd::wave::vcd_parser::{vcd_tree, VcdHeader};
use rvcd::wave::{
    Wave, WaveInfo, WaveScopeInfo, WaveScopeType, WaveSignalInfo, WaveSignalType, WaveTimescaleUnit,
    WaveTreeNode,
};
use std::collections::HashMap;

fn sig(id: u64, name: &str) -> WaveSignalInfo {
    WaveSignalInfo { id, name: name.to_string(), width: 1, typ: WaveSignalType::Wire }
}

fn scope_node(id: u64, name: &str, typ: WaveScopeType) -> WaveTreeNode {
    WaveTreeNode::WaveScope(WaveScopeInfo { id, name: name.to_string(), typ })
}

#[test]
fn file_size_units() {
    assert_eq!(FileSizeUnit::from_bytes(0), "0 Byte");
    assert_eq!(FileSizeUnit::from_bytes(1023), "1023 Byte");
    assert_eq!(FileSizeUnit::from_bytes(1024), "1 KiB");
    assert_eq!(FileSizeUnit::from_bytes(5000), "4 KiB");
    assert_eq!(FileSizeUnit::from_bytes(3 * 1024 * 1024 + 7), "3 MiB");
    assert_eq!(FileSizeUnit::from_bytes(5000 * 1024 * 1024), "5000 MiB");
    assert_eq!(FileSizeUnit::MiB.smaller(), Some(FileSizeUnit::KiB));
    assert_eq!(FileSizeUnit::Byte.smaller(), None);
    assert_eq!(FileSizeUnit::KiB.larger(), Some(FileSizeUnit::MiB));
    assert_eq!(FileSizeUnit::MiB.larger(), None);
    for u in [FileSizeUnit::MiB, FileSizeUnit::KiB, FileSizeUnit::Byte] {
        if let Some(v) = u.larger() {
            assert_eq!(v.smaller(), Some(u));
        }
    }
    assert_eq!(FileSizeUnit::default(), FileSizeUnit::KiB);
    assert_eq!(FileSizeUnit::Byte.to_string(), "Byte");
}

#[test]
fn view_cursors() {
    let c = WaveCursor::new(3, 40);
    assert_eq!(c.name, "Cursor3");
    assert!(c.valid);
    let m = WaveCursor::new(-1, 0);
    assert_eq!(m.name, "Cursor-1");
    let mut t = WaveCursor::from_string(-2, "Main Cursor");
    assert!(!t.valid);
    assert_eq!(t.pos, 0);
    t.set_pos_valid(77);
    assert!(t.valid);
    assert_eq!(t.pos, 77);
    assert_eq!(t.name, "Main Cursor");
    let cursors = vec![WaveCursor::new(2, 5), WaveCursor::new(7, 9), WaveCursor::new(7, 11)];
    assert_eq!(next_cursor_id(&cursors), 8);
    assert_eq!(next_cursor_id(&vec![]), 0);
    assert!(cursors_exists_id(&cursors, 7));
    assert!(!cursors_exists_id(&cursors, 3));
    assert_eq!(cursors_get(&cursors, 7).unwrap().pos, 9);
    assert!(cursors_get(&cursors, 1).is_none());
    let fresh = next_cursor_id(&cursors);
    assert!(!cursors_exists_id(&cursors, fresh));
}

#[test]
fn view_time_labels() {
    assert_eq!(pos_to_time(&(10, WaveTimescaleUnit::NS), 12), "120ns");
    assert_eq!(pos_to_time(&(1, WaveTimescaleUnit::PS), 0), "0ps");
    assert_eq!(pos_to_time_fmt(&(1, WaveTimescaleUnit::PS), 5), "5ps");
    assert_eq!(pos_to_time_fmt(&(1, WaveTimescaleUnit::PS), 10), "10ps");
    assert_eq!(pos_to_time_fmt(&(1, WaveTimescaleUnit::PS), 1234), "1234ps");
    assert_eq!(pos_to_time_fmt(&(10, WaveTimescaleUnit::MS), 500), "5s");
    assert_eq!(pos_to_time_fmt(&(1, WaveTimescaleUnit::NS), 1000), "1us");
    assert_eq!(pos_to_time_fmt(&(1, WaveTimescaleUnit::FS), 3_000_000), "3ns");
    assert_eq!(pos_to_time_fmt(&(1, WaveTimescaleUnit::PS), 0), "0ps");
    assert_eq!(pos_to_time_fmt(&(1, WaveTimescaleUnit::S), 5000), "5000s");
}

#[test]
fn view_available_signals() {
    let header = VcdHeader { comment: None, date: None, version: None, timescale: None, items: vec![] };
    let mut code_signal_info = HashMap::new();
    code_signal_info.insert(4u64, sig(4, "a"));
    code_signal_info.insert(9u64, sig(9, "b"));
    let info = WaveInfo {
        timescale: (1, WaveTimescaleUnit::PS),
        range: (0, 0),
        headers: vec![],
        code_signal_info,
        code_paths: HashMap::new(),
        tree: vcd_tree(&header).unwrap(),
    };
    assert_eq!(available_signals(&vec![9, 1, 4, 9], &info), vec![0, 2, 3]);
    assert_eq!(signal_info_or_default(4, &info).name, "a");
    let d = signal_info_or_default(5, &info);
    assert_eq!((d.id, d.name.as_str(), d.width), (0, "", 0));
}

#[test]
fn tree_view_decisions() {
    let view = TreeView::default();
    assert!(view.show_modules_only && !view.show_leaves && !view.show_tail_leaves);
    let m = scope_node(1, "top", WaveScopeType::Module);
    let t = scope_node(2, "task", WaveScopeType::Task);
    let v = WaveTreeNode::WaveVar(sig(3, "clk"));
    assert!(view.listed(&m));
    assert!(!view.listed(&t));
    assert!(!view.listed(&v));
    assert!(!view.listed(&WaveTreeNode::WaveRoot));
    assert!(view.draw_as_leaf(&vec![v.clone()]));
    assert!(view.draw_as_leaf(&vec![m.clone()]) == false);
    let mut leaves = TreeView { show_tail_leaves: false, show_leaves: true, show_modules_only: false, highlight_scope_id: None };
    assert!(leaves.draw_as_leaf(&vec![v.clone()]));
    leaves.show_tail_leaves = true;
    assert!(!leaves.draw_as_leaf(&vec![v.clone()]));
    assert!(leaves.leaf_shown(&v, &"cl".to_string(), false));
    assert!(!leaves.leaf_shown(&v, &"x".to_string(), false));
    let children = vec![v.clone(), m.clone(), WaveTreeNode::WaveVar(sig(4, "rst"))];
    let signals = child_signals(&children);
    assert_eq!(signals.len(), 2);
    assert_eq!(signals[1].to_string(), "rst");
    match leaves.click_scope(1, true, &children) {
        TreeAction::AddSignals(s) => assert_eq!(s.len(), 2),
        _ => panic!(),
    }
    assert_eq!(leaves.highlight_scope_id, Some(1));
    match leaves.click_scope(2, false, &children) {
        TreeAction::SelectScope(s) => assert_eq!(s.len(), 2),
        _ => panic!(),
    }
}

#[test]
fn tree_view_search() {
    let text = "cpu_core".to_string();
    assert!(search_matches(&text, &"core".to_string(), false));
    assert!(!search_matches(&text, &"Core".to_string(), false));
    assert!(search_matches(&text, &"".to_string(), false));
    assert!(search_matches(&text, &"^cpu_.*e$".to_string(), true));
    assert!(!search_matches(&text, &"^core".to_string(), true));
    // a pattern that does not compile hides nothing
    assert!(search_matches(&text, &"(".to_string(), true));
}

#[test]
fn tree_view_recursive_signals() {
    let leaf = |id: u64, name: &str| TreeNodeView { data: WaveTreeNode::WaveVar(sig(id, name)), children: vec![] };
    let inner = TreeNodeView {
        data: scope_node(2, "inner", WaveScopeType::Module),
        children: vec![leaf(3, "c")],
    };
    let other = TreeNodeView {
        data: scope_node(4, "other", WaveScopeType::Task),
        children: vec![leaf(5, "e")],
    };
    let top = TreeNodeView {
        data: scope_node(1, "top", WaveScopeType::Module),
        children: vec![leaf(6, "a"), inner, leaf(7, "b"), other],
    };
    let names: Vec<String> = recurse_child_signals(&top).iter().map(|n| n.to_string()).collect();
    assert_eq!(names, vec!["a", "b", "e", "c"]);
}

#[test]
fn verilog_listener_collects() {
    let mut l = MyVerilogListener::new();
    l.exit_module_identifier("counter".to_string());
    l.exit_input_port_identifier();
    l.exit_port_identifier("clk".to_string());
    l.exit_port_declaration();
    l.exit_output_port_identifier();
    l.exit_port_identifier("q".to_string());
    l.exit_port_declaration();
    l.exit_variable_identifier("count".to_string());
    l.exit_reg_declaration();
    l.exit_inout_port_identifier();
    assert_eq!(l.port.as_ref().unwrap().typ, VerilogPortType::Inout);
    l.exit_net_identifier("carry".to_string());
    l.exit_net_declaration();
    l.exit_module_declaration();
    assert_eq!(l.source.modules.len(), 1);
    let m = &l.source.modules[0];
    assert_eq!(m.name, "counter");
    assert_eq!(m.ports.len(), 2);
    assert_eq!(m.ports[0].typ, VerilogPortType::Input);
    assert_eq!(m.ports[1].name, "q");
    assert_eq!(m.ports[1].typ, VerilogPortType::Output);
    assert_eq!(m.regs[0].name, "count");
    assert_eq!(m.wires[0].name, "carry");
    assert_eq!(l.module.as_ref().unwrap().name, "");
    let mut v = VerilogModulesVisitor(vec!["a".to_string()]);
    v.temp_result().push("b".to_string());
    assert_eq!(v.0, vec!["a", "b"]);
}

#[test]
fn code_goto_offsets() {
    let text = "line one\nline two\nthird".to_string();
    assert_eq!(goto_offset(&text, &CodeLocation { line: 1, column: 3 }), 3);
    assert_eq!(goto_offset(&text, &CodeLocation { line: 2, column: 0 }), 9);
    assert_eq!(goto_offset(&text, &CodeLocation { line: 3, column: 2 }), 20);
    assert_eq!(goto_offset(&text, &CodeLocation { line: 9, column: 2 }), 0);
    assert_eq!(goto_offset(&"".to_string(), &CodeLocation { line: 1, column: 5 }), 0);
    assert_eq!(CodeEditorType::default().to_string(), "Internal");
    assert_eq!(CodeEditorType::VsCode.to_string(), "VsCode");
}

#[test]
fn code_editor_states() {
    let mut e = CodeEditor::new("a.v", Some(CodeLocation { line: 2, column: 1 }));
    assert_eq!(e.state, CodeEditorState::FirstLoad);
    e.loaded(None, std::time::SystemTime::now());
    assert_eq!(e.state, CodeEditorState::FileOpenFailed);
    e.refresh();
    assert_eq!(e.state, CodeEditorState::FirstLoad);
    e.loaded(Some("ab\ncd".to_string()), std::time::SystemTime::now());
    assert_eq!(e.state, CodeEditorState::Idle);
    assert_eq!(e.text, "ab\ncd");
    assert_eq!(e.take_goto_offset(), Some(4));
    assert_eq!(e.take_goto_offset(), None);
    e.edited(false);
    assert_eq!(e.state, CodeEditorState::Modified);
    assert!(e.save_requested(false));
    e.edited(true);
    assert_eq!(e.state, CodeEditorState::NeedReload);
    e.edited(false);
    assert_eq!(e.state, CodeEditorState::NeedReload);
    assert!(!e.save_requested(false));
}

#[test]
fn manager_registry() {
    let mut m = RvcdManager::new();
    let r = m.open_file(&"a.vcd".to_string());
    assert!(matches!(r, Some(RvcdRpcMessage::OpenWaveFile(ref p)) if p == "a.vcd"));
    let stale = m.client_info(
        RvcdManagedInfo { client_port: 5412, paths: vec![], wave_file: "a.vcd".to_string() },
        1000,
    );
    assert!(stale.is_empty());
    assert!(m.open_file(&"a.vcd".to_string()).is_none());
    m.client_info(RvcdManagedInfo { client_port: 5413, paths: vec![], wave_file: "b.vcd".to_string() }, 2000);
    let mut t = m.goto_targets(&"b.vcd".to_string());
    assert_eq!(t, vec![5413]);
    t = m.goto_targets(&"".to_string());
    t.sort();
    assert_eq!(t, vec![5412, 5413]);
    let stale = m.client_info(
        RvcdManagedInfo { client_port: 5413, paths: vec![], wave_file: "b.vcd".to_string() },
        3500,
    );
    assert_eq!(stale, vec![5412]);
    assert!(m.managed_files.get(&5412).is_none());
    assert_eq!(m.remove_client(5412), Err("No such key".to_string()));
    assert_eq!(m.remove_client(5413), Ok(()));
    assert!(m.managed_files.is_empty());
    let msgs = RvcdManager::load_source(vec!["x.v".to_string(), "y.v".to_string()]);
    assert!(matches!(&msgs[1], RvcdRpcMessage::OpenSourceFile(f) if f == "y.v"));
}

#[test]
fn client_ports_and_report() {
    let d = RvcdManagedClientData::default();
    assert_eq!(d.port, MANAGER_PORT + 1);
    let mut c = RvcdManagedClient::default();
    c.set_paths(&["a.v".to_string(), "b.v".to_string()]);
    c.data.wave_file = "w.vcd".to_string();
    let info = c.info();
    assert_eq!(info.client_port, 5412);
    assert_eq!(info.paths, vec!["a.v", "b.v"]);
    assert_eq!(info.wave_file, "w.vcd");
    assert!(c.ping());
    assert!(c.goto_signal(RvcdSignalPath { file: String::new(), path: "top.clk".to_string() }));
    assert!(c.goto_request(RvcdSignalPath { file: String::new(), path: "top.a".to_string() }).is_none());
    let m = RvcdManagedClient::goto_message(RvcdSignalPath { file: "f".to_string(), path: "top.b".to_string() });
    assert!(matches!(m, RvcdRpcMessage::GotoPath(p) if p.path == "top.b" && p.file == "f"));
    let (tx, rx) = std::sync::mpsc::channel();
    c.set_tx(tx);
    assert!(c.goto_signal(RvcdSignalPath { file: "w.vcd".to_string(), path: "top.clk".to_string() }));
    assert!(matches!(rx.recv().unwrap(), RvcdRpcMessage::GotoPath(p) if p.path == "top.clk"));
    let r = c.goto_request(RvcdSignalPath { file: "w.vcd".to_string(), path: "top.d".to_string() });
    assert!(matches!(r, Some(RvcdRpcMessage::GotoPath(p)) if p.path == "top.d" && p.file == "w.vcd"));
    assert!(c.after_serve(false));
    assert_eq!(c.data.port, 5413);
    assert!(!c.after_serve(true));
    assert_eq!(c.data.port, 5413);
    c.data.port = MANAGER_PORT + 1023;
    assert!(!c.after_serve(false));
    assert!(c.out_of_ports());
    c.stop = true;
    assert!(!c.ping());
}

#[test]
fn session_state_and_title() {
    let mut s = RvcdSession::new(3);
    assert_eq!(s.state, State::Idle);
    assert_eq!(s.title(), "Rvcd-3");
    assert!(s.file_load_start("/tmp/data/w.vcd".to_string()));
    assert_eq!(s.state, State::Loading);
    assert_eq!(s.title(), "Rvcd-3");
    s.wave_updated(small_wave());
    assert_eq!(s.title(), "Rvcd-w.vcd");
    assert!(!s.file_load_start("/tmp/data/w.vcd".to_string()));
    assert_eq!(s.state, State::Working);
    assert!(s.goto_here(&"/tmp/data/w.vcd".to_string()));
    assert!(s.goto_here(&"".to_string()));
    assert!(!s.goto_here(&"other.vcd".to_string()));
    s.reset();
    assert_eq!(s.state, State::Idle);
    assert_eq!(s.filepath, "");
    s.file_drag();
    assert_eq!(s.state, State::Loading);
    assert_eq!(file_basename(&"a\\b\\c.vcd".to_string()), "c.vcd");
    assert_eq!(file_basename(&"dir/".to_string()), "");
    assert!(RvcdRemote {}.open_file(&"x".to_string()).is_ok());
}

#[test]
fn session_signal_choice() {
    let shown = vec![1u64, 5];
    assert!(signal_to_add(&shown, 2, false));
    assert!(!signal_to_add(&shown, 5, false));
    assert!(signal_to_add(&shown, 5, true));
    assert_eq!(signals_not_shown(&vec![5, 6, 1, 7], &shown), vec![6, 7]);
    let leaves = vec![sig(1, "clk"), sig(2, "data_in"), sig(3, "data_out")];
    let names = |v: Vec<WaveSignalInfo>| v.into_iter().map(|s| s.name).collect::<Vec<_>>();
    assert_eq!(names(filter_signal_leaves(&leaves, &"".to_string(), false, false)).len(), 3);
    assert_eq!(names(filter_signal_leaves(&leaves, &"data".to_string(), false, false)), vec!["data_in", "data_out"]);
    assert_eq!(names(filter_signal_leaves(&leaves, &"_o".to_string(), true, false)), vec!["data_out"]);
    assert!(filter_signal_leaves(&leaves, &"(".to_string(), true, false).is_empty());
    assert_eq!(filter_signal_leaves(&leaves, &"zzz".to_string(), false, true).len(), 3);
}

#[test]
fn view_wave_shapes() {
    let t = |s: &str| s.to_string();
    assert_eq!(item_shape(&WaveDataValue::Comp(vec![1]), 1, &t("1")), WaveShape::High);
    assert_eq!(item_shape(&WaveDataValue::Comp(vec![1, 0]), 1, &t("1")), WaveShape::High);
    assert_eq!(item_shape(&WaveDataValue::Comp(vec![0]), 1, &t("0")), WaveShape::Low);
    assert_eq!(item_shape(&WaveDataValue::Raw(vec![V1]), 4, &t("1")), WaveShape::High);
    assert_eq!(item_shape(&WaveDataValue::Raw(vec![V0]), 4, &t("0")), WaveShape::Low);
    assert_eq!(item_shape(&WaveDataValue::Raw(vec![X]), 1, &t("x")), WaveShape::Unknown);
    assert_eq!(item_shape(&WaveDataValue::Raw(vec![Z]), 1, &t("z")), WaveShape::HighImpedance);
    assert_eq!(item_shape(&WaveDataValue::Raw(vec![Z, X]), 2, &t("x")), WaveShape::Unknown);
    assert_eq!(item_shape(&WaveDataValue::Raw(vec![Z, V0]), 2, &t("z")), WaveShape::HighImpedance);
    assert_eq!(item_shape(&WaveDataValue::Comp(vec![0, 0]), 16, &t("00")), WaveShape::ZeroValue);
    assert_eq!(item_shape(&WaveDataValue::Comp(vec![0, 3]), 16, &t("300")), WaveShape::Value);
}

#[test]
fn view_label_truncation() {
    assert_eq!(truncated_label(&"deadbeef".to_string(), 0), "deadbe+");
    assert_eq!(truncated_label(&"deadbeef".to_string(), 3), "dea+");
    assert_eq!(truncated_label(&"deadbeef".to_string(), 7), "+");
    assert_eq!(truncated_label(&"ab".to_string(), 0), "+");
    assert_eq!(truncated_label(&"".to_string(), 0), "+");
}

#[test]
fn view_first_drawn_change() {
    let list: Vec<WaveDataItem> = [0u64, 10, 20, 30]
        .iter()
        .map(|t| WaveDataItem { value: WaveDataValue::Comp(vec![1]), timestamp: *t })
        .collect();
    assert_eq!(first_drawn(&list, 0), 0);
    assert_eq!(first_drawn(&list, 15), 1);
    assert_eq!(first_drawn(&list, 20), 1);
    assert_eq!(first_drawn(&list, 100), 3);
    assert_eq!(first_drawn(&vec![], 5), 0);
}

#[test]
fn windows_registry() {
    let mut w = RvcdWindows::new();
    w.init();
    assert_eq!(w.apps, vec![0]);
    assert_eq!(w.open_apps, vec![(0, true)]);
    assert_eq!(w.new_id(), 1);
    assert_eq!(w.new_window(false), 1);
    assert_eq!(w.new_window(true), 2);
    assert_eq!(w.app_now_id, Some(2));
    assert_eq!(w.apps, vec![0, 1, 2]);
    w.open_apps[0].1 = false;
    w.open_apps[2].1 = false;
    let exiting = w.remove_closed();
    assert_eq!(exiting, vec![0, 2]);
    assert_eq!(w.app_now_id, None);
    // positions are taken from the list before removal: the second one has moved
    assert_eq!(w.apps, vec![1, 2]);
    assert_eq!(w.open_apps, vec![(1, true), (2, false)]);
    let all = w.close_all();
    assert_eq!(all, vec![1, 2]);
    assert!(w.apps.is_empty() && w.open_apps.is_empty());
    assert_eq!(w.new_id(), 0);
}

#[test]
fn windows_locale() {
    assert_eq!(locale_from_lang(&"zh_CN.UTF-8".to_string()), "zh-CN");
    assert_eq!(locale_from_lang(&"en_US".to_string()), "en-US");
    assert_eq!(locale_from_lang(&"C".to_string()), "C");
    assert_eq!(locale_from_lang(&"a_b_c.UTF-8.UTF-8".to_string()), "a-b-c");
}

#[test]
fn service_flags_and_chunks() {
    let mut f = LoadFlags::new();
    assert!(!f.request_cancel());
    assert!(!f.cancel);
    f.start_loading();
    assert!(f.request_cancel());
    assert!(!f.request_cancel());
    assert!(f.take_cancel());
    assert!(!f.take_cancel());
    f.data_ready();
    assert!(!f.loading);
    let mut data = vec![0u8; 6];
    copy_chunk(&mut data, 2, &[7, 8, 9], 2);
    assert_eq!(data, vec![0, 0, 7, 8, 0, 0]);
    assert_eq!(finish_read(vec![1, 2], false), vec![1, 2]);
    assert!(finish_read(vec![1, 2], true).is_empty());
}

#[test]
fn view_signal_modes() {
    assert_eq!(SignalViewMode::default().to_string(), "default");
    assert_eq!(SignalViewMode::Number(Radix::Oct).to_string(), "Oct");
    assert_eq!(SignalViewMode::Analog.to_string(), "Analog");
    assert_eq!(get_radix(SignalViewMode::Default, Radix::Bin), Radix::Bin);
    assert_eq!(get_radix(SignalViewMode::Number(Radix::Dec), Radix::Bin), Radix::Dec);
    assert_eq!(get_radix(SignalViewMode::Analog, Radix::Bin), Radix::Hex);
    assert_eq!(SignalViewAlign::default(), SignalViewAlign::Left);
}

/// A wave declaring signals 0 (`!`) and 1 (`"`).
fn small_wave() -> Wave {
    let text = "$scope module top $end\n$var wire 1 ! a $end\n$var wire 1 \" b $end\n$upscope $end\n$enddefinitions $end\n#0\n1!\n";
    load_vcd(text.as_bytes(), None, &mut vec![]).unwrap()
}

#[test]
fn session_handles_messages() {
    let mut s = RvcdSession::new(7);
    assert!(matches!(s.on_message(SessionEvent::FileDrag("/d/a.vcd".to_string())), SessionAction::OpenFile(p) if p == "/d/a.vcd"));
    assert_eq!(s.state, State::Loading);
    assert!(matches!(s.on_message(SessionEvent::FileLoadStart("/d/a.vcd".to_string())), SessionAction::NoAction));
    assert_eq!(s.filepath, "/d/a.vcd");
    assert_eq!(s.wave_file, "/d/a.vcd");
    // without a wave, requested signals are highlighted but not added
    s.on_message(SessionEvent::SetGotoSignals(vec![1]));
    assert_eq!(s.highlight, vec![1]);
    assert!(s.signals.is_empty());
    assert!(matches!(s.on_message(SessionEvent::UpdateWave(small_wave())), SessionAction::NoAction));
    assert_eq!(s.state, State::Working);
    assert_eq!(s.title(), "Rvcd-a.vcd");
    s.on_message(SessionEvent::SetGotoSignals(vec![3, 1, 0, 1]));
    assert_eq!(s.signals, vec![3, 1, 0, 1]);
    assert_eq!(s.highlight, vec![3, 1, 0, 1]);
    s.on_message(SessionEvent::SetGotoSignals(vec![1, 5]));
    assert_eq!(s.signals, vec![3, 1, 0, 1, 5]);
    assert_eq!(s.highlight, vec![5]);
    s.on_message(SessionEvent::LoadingProgress(42));
    assert_eq!(s.load_size, 42);
    // the same file again: signals the wave does not declare are dropped
    s.leaves.push(WaveSignalInfo { id: 0, name: "a".to_string(), width: 1, typ: WaveSignalType::Wire });
    assert!(matches!(s.on_message(SessionEvent::FileLoadStart("/d/a.vcd".to_string())), SessionAction::NoAction));
    assert_eq!(s.signals, vec![1, 0, 1]);
    assert!(s.leaves.is_empty());
    assert_eq!(s.state, State::Working);
    assert_eq!(s.load_size, 42);
    assert!(matches!(s.on_message(SessionEvent::Reload), SessionAction::OpenFile(p) if p == "/d/a.vcd"));
    // a wave that lacks signal 1
    let mut w = small_wave();
    w.info.code_signal_info.remove(&1);
    s.on_message(SessionEvent::UpdateWave(w));
    assert_eq!(s.signals, vec![0]);
    // another file: every signal is dropped
    s.on_message(SessionEvent::FileLoadStart("/d/b.vcd".to_string()));
    assert!(s.signals.is_empty());
    assert!(matches!(s.on_message(SessionEvent::Other), SessionAction::NoAction));
    assert!(matches!(s.on_message(SessionEvent::FileOpenFailed), SessionAction::ShowOpenFailed));
    assert_eq!(s.state, State::Idle);
    assert_eq!(s.filepath, "");
    assert!(s.wave.is_none());
    assert!(s.highlight.is_empty());
    assert_eq!(s.title(), "Rvcd-7");
    let mut idle = RvcdSession::new(1);
    idle.load_size = 9;
    idle.file_load_start("x.vcd".to_string());
    assert_eq!(idle.load_size, 0);
}

#[test]
fn session_rpc_requests() {
    let mut s = RvcdSession::new(2);
    s.file_load_start("w.vcd".to_string());
    let goto = |file: &str| RvcdRpcMessage::GotoPath(RvcdSignalPath { file: file.to_string(), path: "top.a".to_string() });
    assert!(matches!(s.handle_rpc_message(goto("w.vcd")), (false, RpcAction::NoAction)));
    assert!(matches!(s.handle_rpc_message(goto("other.vcd")), (true, RpcAction::NoAction)));
    s.wave_updated(small_wave());
    assert!(matches!(s.handle_rpc_message(goto("w.vcd")), (false, RpcAction::GotoSignal(p)) if p == "top.a"));
    assert!(matches!(s.handle_rpc_message(goto("")), (false, RpcAction::GotoSignal(_))));
    assert!(matches!(s.handle_rpc_message(goto("other.vcd")), (true, RpcAction::NoAction)));
    assert!(matches!(s.handle_rpc_message(RvcdRpcMessage::OpenWaveFile("n.vcd".to_string())), (true, RpcAction::OpenWave(f)) if f == "n.vcd"));
    assert!(matches!(s.handle_rpc_message(RvcdRpcMessage::OpenSourceFile("a.v".to_string())), (false, RpcAction::OpenSource(f)) if f == "a.v"));
    assert!(matches!(s.handle_rpc_message(RvcdRpcMessage::OpenSourceDir("src".to_string())), (false, RpcAction::OpenSourceDir(f)) if f == "src"));
}

#[test]
fn view_time_bar_ticks() {
    assert_eq!(tick_kind(100, 10), TickKind::Long);
    assert_eq!(tick_kind(50, 10), TickKind::Half);
    assert_eq!(tick_kind(30, 10), TickKind::Short);
    assert_eq!(tick_kind(0, 7), TickKind::Long);
    assert_eq!(tick_range((23, 77), 10), (20, 80));
    assert_eq!(tick_range((0, 0), 1), (0, 1));
}

#[test]
fn view_signal_label_edits() {
    let signals: Vec<u64> = vec![10, 11, 12, 13];
    // replace the second, remove the third; a later edit of the same signal is ignored
    let edits = vec![(21u64, 1usize, false), (0u64, 2usize, true), (99u64, 1usize, true)];
    assert_eq!(apply_signal_edits(&signals, &edits), vec![10, 21, 13]);
    assert_eq!(apply_signal_edits(&signals, &vec![]), signals);
    assert!(apply_signal_edits(&Vec::<u64>::new(), &edits).is_empty());
}
