use curio_editor::anim_archive::{archive_member, unpack_anim_zip};
use curio_editor::capture::{align_to, clear_latest_frame, push_frame, readback_buffer_size, strip_row_padding, take_latest_frame, Frame};
use curio_editor::clock::{hms, timestamp};
use curio_editor::commands::{get_compile_status, press_pause, press_play_start, press_stop};
use curio_editor::encoding::{base64_encode, bgra_to_rgba, decode_preview_image, decode_skeleton_png, dimensions_label, encode_frame};
use curio_editor::inspector::{strip_ansi, Parser};
use curio_editor::object_tree::{
    child_index_path, count_objects, object_count_label, object_key, object_row, resolve_object, selection_after_click,
    total_object_count, InstanceTabs, ObjectNode, ObjectTab,
};
use curio_editor::project::{build_command_args, Project};
use curio_editor::runner::{is_plugin_copy, is_plugin_library, plugin_copy_name, process_message, renders, GameMessage, RedrawPlan, RunnerFlags, RunnerMessage, RunnerState, RunnerWork};
use curio_editor::state::{
    compile_badge, instance_count_label, mode_label, play_bar_label, preview_stale, tab_label, TopTab,
    classify_line, log_text, project_facet_manifest_path, severity_label, CompileStatus, EditorMode, EditorState, LogLevel, Severity,
    MAX_LOG_LINES,
};

#[test]
fn alignment_rounds_up_to_multiples() {
    assert_eq!(align_to(0, 256), 0);
    assert_eq!(align_to(1, 256), 256);
    assert_eq!(align_to(256, 256), 256);
    assert_eq!(align_to(5120, 256), 5120);
    assert_eq!(align_to(5121, 256), 5376);
    assert_eq!(align_to(7, 1), 7);
    assert_eq!(align_to(4294967040, 256), 4294967040);
    assert_eq!(readback_buffer_size(1073741760, 1), 4294967040);
}

#[test]
fn readback_rows_are_padded() {
    assert_eq!(readback_buffer_size(1280, 720), 1280 * 4 * 720);
    assert_eq!(readback_buffer_size(3, 2), 512);
    assert_eq!(readback_buffer_size(100, 1), 512);
}

#[test]
fn row_padding_is_dropped() {
    let mut padded = vec![0u8; 512];
    for (i, b) in padded.iter_mut().enumerate() {
        *b = (i % 251) as u8;
    }
    let out = strip_row_padding(&padded, 3, 2);
    assert_eq!(out.len(), 24);
    assert_eq!(&out[..12], &padded[..12]);
    assert_eq!(&out[12..], &padded[256..268]);
    let short = &padded[..268];
    assert_eq!(strip_row_padding(short, 3, 2), out);
    assert!(strip_row_padding(&[], 3, 0).is_empty());
}

#[test]
fn the_newest_frame_wins_and_is_taken_once() {
    let mut slot: Option<Frame> = None;
    assert!(take_latest_frame(&mut slot).is_none());
    push_frame(&mut slot, 1, 1, vec![1, 2, 3, 4]);
    push_frame(&mut slot, 2, 1, vec![5, 6, 7, 8, 9, 10, 11, 12]);
    let f = take_latest_frame(&mut slot).unwrap();
    assert_eq!((f.width, f.height, f.rgba.len()), (2, 1, 8));
    assert!(take_latest_frame(&mut slot).is_none());
    push_frame(&mut slot, 1, 1, vec![0; 4]);
    clear_latest_frame(&mut slot);
    assert!(take_latest_frame(&mut slot).is_none());
}

#[test]
fn bgra_pixels_are_swapped() {
    assert_eq!(bgra_to_rgba(&[1, 2, 3, 4, 5, 6, 7, 8]), vec![3, 2, 1, 4, 7, 6, 5, 8]);
    assert!(bgra_to_rgba(&[]).is_empty());
}

#[test]
fn frames_become_png_files() {
    let pixels = [10u8, 20, 30, 255, 40, 50, 60, 255];
    let png = encode_frame(&pixels, 2, 1, false).unwrap();
    assert_eq!(&png[..8], &[0x89, b'P', b'N', b'G', 0x0d, 0x0a, 0x1a, 0x0a]);
    let bgra = encode_frame(&pixels, 2, 1, true).unwrap();
    assert_ne!(png, bgra);
    let swapped = bgra_to_rgba(&pixels);
    assert_eq!(bgra, encode_frame(&swapped, 2, 1, false).unwrap());
    assert!(encode_frame(&pixels, 3, 1, false).is_none());
}

#[test]
fn base64_standard_alphabet() {
    assert_eq!(base64_encode(b""), "");
    assert_eq!(base64_encode(b"M"), "TQ==");
    assert_eq!(base64_encode(b"Ma"), "TWE=");
    assert_eq!(base64_encode(b"Man"), "TWFu");
    assert_eq!(base64_encode(&[0xfb, 0xff]), "+/8=");
}

#[test]
fn windowed_runner_captures_every_other_frame() {
    let mut f = RunnerFlags::new();
    let a = f.on_redraw();
    let b = f.on_redraw();
    assert_eq!(a, RedrawPlan { exit: false, refresh: true, capture: false });
    assert_eq!(b, RedrawPlan { exit: false, refresh: true, capture: true });
    assert_eq!(f.apply_message(GameMessage::Pause), None);
    assert!(!f.on_redraw().refresh);
    assert_eq!(f.apply_message(GameMessage::Resize(800, 600)), Some((800, 600)));
    f.apply_message(GameMessage::Resume);
    let mut wrap = RunnerFlags { paused: false, should_stop: false, frame_counter: u32::MAX };
    let w1 = wrap.on_redraw();
    let w2 = wrap.on_redraw();
    assert!(w1.capture && !w2.capture);
    f.apply_message(GameMessage::Stop);
    assert_eq!(f.on_redraw(), RedrawPlan { exit: true, refresh: false, capture: false });
    let mut c = RunnerFlags::new();
    c.close_requested();
    assert!(c.on_redraw().exit);
}

#[test]
fn headless_runner_steps() {
    assert_eq!(process_message(RunnerState::Stopped, RunnerMessage::Start), (RunnerState::Playing, RunnerWork::LoadGame));
    assert_eq!(process_message(RunnerState::Playing, RunnerMessage::Pause), (RunnerState::Paused, RunnerWork::Nothing));
    assert_eq!(process_message(RunnerState::Paused, RunnerMessage::Resume), (RunnerState::Playing, RunnerWork::Nothing));
    assert_eq!(process_message(RunnerState::Paused, RunnerMessage::Stop), (RunnerState::Stopped, RunnerWork::DropGame));
    assert_eq!(process_message(RunnerState::Paused, RunnerMessage::Resize(4, 5)), (RunnerState::Paused, RunnerWork::ResizeCapture(4, 5)));
    assert_eq!(process_message(RunnerState::Playing, RunnerMessage::Input), (RunnerState::Playing, RunnerWork::ForwardInput));
    assert!(renders(RunnerState::Playing) && !renders(RunnerState::Paused) && !renders(RunnerState::Stopped));
}

#[test]
fn plugin_libraries_by_extension() {
    assert!(is_plugin_library("libgame.so"));
    assert!(is_plugin_library("game.dll"));
    assert!(is_plugin_library("libgame.dylib"));
    assert!(!is_plugin_library("libgame.rlib"));
    assert!(!is_plugin_library(".so"));
    assert!(!is_plugin_library("so"));
    assert!(!is_plugin_library("game.so.1"));
}

#[test]
fn console_lines_are_classified() {
    assert_eq!(classify_line("[ERROR]: boom"), LogLevel::Error);
    assert_eq!(classify_line("thread 'main' PANICKED at x"), LogLevel::Error);
    assert_eq!(classify_line("Error: nope"), LogLevel::Error);
    assert_eq!(classify_line("warning: unused"), LogLevel::Warn);
    assert_eq!(classify_line("[WARN]: careful"), LogLevel::Warn);
    assert_eq!(classify_line("   Compiling game v0.1.0"), LogLevel::Info);
    assert_eq!(severity_label(Severity::Warning), "[WARN]");
    assert_eq!(log_text(Severity::Error, "bad"), "[ERROR]: bad");
}

#[test]
fn the_console_keeps_the_newest_lines() {
    let mut s = EditorState::new("/proj".to_string());
    for i in 0..(MAX_LOG_LINES + 3) {
        s.push_log(format!("line {i}"), "00:00:00".to_string());
    }
    assert_eq!(s.logs.len(), MAX_LOG_LINES);
    assert_eq!(s.logs[0].message, "line 3");
    assert_eq!(s.unread_logs, MAX_LOG_LINES + 3);
    s.toggle_console();
    assert_eq!(s.unread_logs, 0);
    s.push_log("error: x".to_string(), "00:00:01".to_string());
    assert_eq!(s.unread_logs, 0);
    assert_eq!(s.logs.back().unwrap().level, LogLevel::Error);
    s.clear_logs();
    assert!(s.logs.is_empty());
}

#[test]
fn play_pause_stop() {
    let mut s = EditorState::new("/proj".to_string());
    assert!(!s.send_input());
    assert_eq!(s.pause(), None);
    s.play();
    assert_eq!(s.compile_status, CompileStatus::Compiling);
    assert!(s.log_polling);
    assert!(!s.poll_compile(CompileStatus::Compiling));
    assert!(s.poll_compile(CompileStatus::Success));
    assert_eq!(s.mode, EditorMode::Playing);
    assert!(s.send_input());
    assert_eq!(s.pause(), Some(RunnerMessage::Pause));
    assert_eq!(s.mode, EditorMode::Paused);
    assert_eq!(s.pause(), Some(RunnerMessage::Resume));
    assert_eq!(s.mode, EditorMode::Playing);
    s.select_object_by_path(Some(vec![1, 2]));
    s.toggle_node("a".to_string());
    s.stop();
    assert_eq!(s.mode, EditorMode::Stopped);
    assert_eq!(s.compile_status, CompileStatus::Idle);
    assert!(s.selected_object_path.is_none() && s.expanded_nodes.is_empty() && !s.log_polling);
}

#[test]
fn failed_builds_are_reported() {
    let mut s = EditorState::new("/proj".to_string());
    assert!(!s.poll_compile(CompileStatus::Error));
    assert_eq!(s.compile_status, CompileStatus::Idle);
    s.play();
    assert!(!s.poll_compile(CompileStatus::Error));
    assert_eq!(s.compile_status, CompileStatus::Error);
    assert_eq!(s.build_error, "Build failed \u{2014} see console for details");
    assert_eq!(s.mode, EditorMode::Stopped);
}

fn node(name: &str, components: usize, children: Vec<ObjectNode>) -> ObjectNode {
    ObjectNode { object_name: name.to_string(), component_count: components, children }
}

fn tab(name: &str, objects: Vec<ObjectNode>) -> ObjectTab {
    ObjectTab { tab_name: name.to_string(), objects }
}

fn instance(key: &str, tabs: Vec<ObjectTab>) -> InstanceTabs {
    InstanceTabs { instance: key.to_string(), tabs }
}

fn snapshot() -> Vec<InstanceTabs> {
    vec![
        instance(
            "b",
            vec![
                tab("Scene", vec![node("player", 2, vec![node("hat", 1, vec![]), node("sword", 0, vec![])]), node("camera", 1, vec![])]),
                tab("UI", vec![node("hud", 0, vec![])]),
            ],
        ),
        instance("a", vec![tab("Scene", vec![node("light", 1, vec![])])]),
    ]
}

#[test]
fn object_counts() {
    let groups = snapshot();
    assert_eq!(count_objects(&groups[0].tabs[0].objects), 4);
    assert_eq!(count_objects(&[]), 0);
    assert_eq!(total_object_count(&groups), 6);
    assert_eq!(total_object_count(&Vec::new()), 0);
    assert_eq!(object_count_label(6), "6 objects");
}

#[test]
fn objects_by_index_path() {
    let groups = snapshot();
    assert_eq!(resolve_object(&groups, "b", 0, &[0, 1]).map(|n| n.object_name.as_str()), Some("sword"));
    assert_eq!(resolve_object(&groups, "b", 1, &[0]).map(|n| n.object_name.as_str()), Some("hud"));
    assert_eq!(resolve_object(&groups, "a", 0, &[0]).map(|n| n.object_name.as_str()), Some("light"));
    assert!(resolve_object(&groups, "b", 0, &[]).is_none());
    assert!(resolve_object(&groups, "b", 0, &[0, 2]).is_none());
    assert!(resolve_object(&groups, "b", 2, &[0]).is_none());
    assert!(resolve_object(&groups, "c", 0, &[0]).is_none());
}

#[test]
fn object_tree_rows() {
    assert_eq!(object_key("root", "player", 0), "root/player0");
    assert_eq!(object_key("root/player0", "sword", 1), "root/player0/sword1");
    let groups = snapshot();
    let player = &groups[0].tabs[0].objects[0];
    let expanded = vec!["root/player0".to_string()];
    let row = object_row(player, "root/player0", &vec![0], &Some(vec![0]), &expanded);
    assert!(row.has_children && row.is_selected && row.is_expanded);
    assert_eq!(row.badge, Some(2));
    let sword = &player.children[1];
    let row = object_row(sword, "root/player0/sword1", &vec![0, 1], &Some(vec![0]), &expanded);
    assert!(!row.has_children && !row.is_selected && !row.is_expanded);
    assert_eq!(row.badge, None);
    assert_eq!(selection_after_click(false, &vec![0, 1]), Some(vec![0, 1]));
    assert_eq!(selection_after_click(true, &vec![0, 1]), None);
    assert_eq!(child_index_path(&vec![0], 1), vec![0, 1]);
}

#[test]
fn instances_and_tabs() {
    let mut s = EditorState::new("/proj".to_string());
    s.refresh_tab_group(snapshot());
    assert_eq!(s.selected_instance, "b");
    s.select_object_by_path(Some(vec![0, 0]));
    assert_eq!(s.selected_object().map(|n| n.object_name.as_str()), Some("hat"));
    s.select_instance("a".to_string());
    assert!(s.selected_object().is_none());
    s.set_active_left_tab(2);
    s.refresh_tab_group(snapshot());
    assert_eq!(s.selected_instance, "a");
    assert_eq!(s.active_left_tab, 2);
    s.refresh_tab_group(Vec::new());
    assert_eq!(s.selected_instance, "");
    s.refresh_tab_group(snapshot());
    s.stop();
    assert!(s.tab_group_state.is_none());
    assert!(s.selected_object().is_none());
    s.toggle_node("x".to_string());
    s.toggle_node("x".to_string());
    assert!(s.expanded_nodes.is_empty());
}

#[test]
fn facet_manifest_path_joins() {
    assert_eq!(project_facet_manifest_path("/proj"), "/proj/facet.manifest");
    assert_eq!(project_facet_manifest_path("/proj/"), "/proj/facet.manifest");
    assert_eq!(project_facet_manifest_path(""), "facet.manifest");
}

#[test]
fn front_end_commands() {
    assert_eq!(press_play_start(false), Err("No project".to_string()));
    assert_eq!(press_play_start(true), Ok((EditorMode::Playing, RunnerMessage::Start)));
    assert_eq!(press_pause(EditorMode::Playing), (EditorMode::Paused, Some(RunnerMessage::Pause)));
    assert_eq!(press_pause(EditorMode::Paused), (EditorMode::Playing, Some(RunnerMessage::Resume)));
    assert_eq!(press_pause(EditorMode::Stopped), (EditorMode::Stopped, None));
    assert_eq!(press_stop(EditorMode::Playing), (EditorMode::Stopped, RunnerMessage::Stop));
    assert_eq!(get_compile_status(CompileStatus::Compiling), "compiling");
    assert_eq!(get_compile_status(CompileStatus::Idle), "idle");
}

#[test]
fn clock_format() {
    assert_eq!(hms(0), "00:00:00");
    assert_eq!(hms(3661), "01:01:01");
    assert_eq!(hms(86_399), "23:59:59");
    let t = timestamp();
    assert_eq!(t.len(), 8);
    assert_eq!(&t[2..3], ":");
}

#[test]
fn ansi_colours_are_removed() {
    assert_eq!(strip_ansi("\u{1b}[31merror\u{1b}[0m: x"), "error: x");
    assert_eq!(strip_ansi("plain [text]"), "plain [text]");
    assert_eq!(strip_ansi("cut \u{1b}[31"), "cut ");
    assert_eq!(strip_ansi("lone \u{1b} escape"), "lone \u{1b} escape");
}

#[test]
fn field_text_is_scanned() {
    let mut p = Parser::new("  Vector3 { x: 1.5e3, name: \"a\\tb\\\"c\" }, rest");
    p.skip_ws();
    assert_eq!(p.parse_ident(), "Vector3");
    p.skip_ws();
    assert_eq!(p.next_char(), Some('{'));
    p.skip_ws();
    assert_eq!(p.parse_ident(), "x");
    assert_eq!(p.next_char(), Some(':'));
    p.skip_ws();
    assert_eq!(p.scan_number(), "1.5e3");
    assert_eq!(p.next_char(), Some(','));
    p.skip_ws();
    assert_eq!(p.parse_ident(), "name");
    p.next_char();
    p.skip_ws();
    assert_eq!(p.peek(), Some('"'));
    assert_eq!(p.parse_quoted_string(), "a\tb\"c");
    p.skip_ws();
    assert_eq!(p.consume_raw(), "");
    assert_eq!(p.next_char(), Some('}'));
    assert_eq!(p.next_char(), Some(','));
    assert_eq!(p.consume_raw(), "rest");
    assert_eq!(p.next_char(), None);
}

#[test]
fn project_build_arguments() {
    let p = Project { name: "game".to_string(), project_path: "/g".to_string(), build_args: vec!["--release".to_string()] };
    assert_eq!(build_command_args(&p), vec!["build", "--release"]);
    let d = Project::default();
    assert!(d.name.is_empty() && d.build_args.is_empty());
    assert_eq!(p.clone().project_path, "/g");
}

#[test]
fn anim_archive_members() {
    let names = vec!["x/skeleton.atlas".to_string(), "x/skeleton.json".to_string()];
    assert_eq!(archive_member(&names, "skeleton.json"), Ok("x/skeleton.json".to_string()));
    assert_eq!(
        archive_member(&names, "skeleton.png"),
        Err("Missing skeleton.png in .anim. Found: x/skeleton.atlas, x/skeleton.json".to_string())
    );
    assert_eq!(archive_member(&Vec::new(), "a"), Err("Missing a in .anim. Found: ".to_string()));
}

#[test]
fn plugin_copies() {
    assert!(is_plugin_copy("app_1700000000000.so"));
    assert!(!is_plugin_copy("libgame.so"));
    assert_eq!(plugin_copy_name(1234, "libgame.so"), "app_1234.so");
    assert_eq!(plugin_copy_name(5, "game.dll"), "app_5.dll");
    assert_eq!(plugin_copy_name(7, "game"), "app_7.so");
}

#[test]
fn status_bar_and_tabs() {
    assert_eq!(mode_label(EditorMode::Playing), "Playing");
    assert_eq!(mode_label(EditorMode::Stopped), "\u{25A0} Stopped");
    assert_eq!(compile_badge(CompileStatus::Compiling), Some("Compiling\u{2026}"));
    assert_eq!(compile_badge(CompileStatus::Success), None);
    assert_eq!(instance_count_label(1), "1 instance");
    assert_eq!(instance_count_label(3), "3 instances");
    assert_eq!(tab_label(TopTab::Input), ("Input", true));
    assert_eq!(tab_label(TopTab::Play), ("\u{25B6} Play", false));
    assert!(preview_stale(None, "/a.png"));
    assert!(!preview_stale(Some("/a.png"), "/a.png"));
    assert!(preview_stale(Some("/b.png"), "/a.png"));
    let mut s = EditorState::new("/p".to_string());
    assert!(!s.needs_repaint());
    s.play();
    assert!(s.needs_repaint());
}

#[test]
fn play_bar_and_console_button() {
    let mut s = EditorState::new("/proj".to_string());
    let bar = s.play_bar();
    assert!(bar.play_enabled && !bar.pause_enabled && !bar.stop_enabled);
    assert_eq!(play_bar_label(s.mode), "\u{25A0} Stopped");
    s.mode = EditorMode::Playing;
    let bar = s.play_bar();
    assert!(!bar.play_enabled && bar.pause_enabled && bar.stop_enabled);
    assert_eq!(play_bar_label(EditorMode::Playing), "\u{25CF} Playing");
    assert_eq!(play_bar_label(EditorMode::Paused), "\u{23F8} Paused");
    assert_eq!(s.console_button_label(), "Console");
    s.unread_logs = 3;
    assert_eq!(s.console_button_label(), "Console (3)");
    s.unread_logs = 250;
    assert_eq!(s.console_button_label(), "Console (99)");
    s.toggle_console();
    assert_eq!(s.console_button_label(), "Console \u{25BC}");
}

#[test]
fn build_error_window() {
    let mut s = EditorState::new("/proj".to_string());
    assert!(!s.shows_build_error());
    s.compile_status = CompileStatus::Error;
    s.build_error = "Build failed. Check console.".to_string();
    assert!(s.shows_build_error());
    s.dismiss_build_error();
    assert!(!s.shows_build_error());
    assert_eq!(s.compile_status, CompileStatus::Error);
}

#[test]
fn status_bar_counts() {
    let mut s = EditorState::new("/proj".to_string());
    assert_eq!(s.status_counts(), (None, None));
    s.refresh_tab_group(snapshot());
    assert_eq!(s.status_counts(), (Some("6 objects".to_string()), Some("2 instances".to_string())));
    s.refresh_tab_group(vec![instance("a", vec![tab("Empty", vec![])])]);
    assert_eq!(s.status_counts(), (None, Some("1 instance".to_string())));
}

fn anim_zip(members: &[(&str, &[u8])]) -> Vec<u8> {
    let mut w = zip::ZipWriter::new(std::io::Cursor::new(Vec::new()));
    for (name, data) in members {
        w.start_file(*name, zip::write::SimpleFileOptions::default()).unwrap();
        std::io::Write::write_all(&mut w, data).unwrap();
    }
    w.finish().unwrap().into_inner()
}

#[test]
fn anim_files_unpack() {
    let bytes = anim_zip(&[
        ("hero/skeleton.atlas", b"hero.png\nsize: 4,4"),
        ("hero/skeleton.json", b"{\"bones\":[]}"),
        ("hero/skeleton.png", &[137, 80, 78, 71]),
    ]);
    let a = unpack_anim_zip(&bytes).unwrap();
    assert_eq!(a.atlas_text, "hero.png\nsize: 4,4");
    assert_eq!(a.json_text, "{\"bones\":[]}");
    assert_eq!(a.png_bytes, vec![137, 80, 78, 71]);
}

#[test]
fn anim_files_that_do_not_unpack() {
    let missing = anim_zip(&[("a/skeleton.atlas", b"x"), ("a/skeleton.json", b"{}")]);
    assert_eq!(
        unpack_anim_zip(&missing).err(),
        Some("Missing skeleton.png in .anim. Found: a/skeleton.atlas, a/skeleton.json".to_string())
    );
    assert!(unpack_anim_zip(b"not a zip").err().unwrap().starts_with("Failed to open .anim as a zip: "));
    let bad_text = anim_zip(&[("skeleton.atlas", &[0xff, 0xfe]), ("skeleton.json", b"{}"), ("skeleton.png", b"")]);
    assert!(unpack_anim_zip(&bad_text).err().unwrap().starts_with("skeleton.atlas is not valid UTF-8: "));
}

#[test]
fn png_assets_decode_for_preview() {
    let pixels = vec![255u8, 0, 0, 255, 0, 0, 255, 128];
    let png = encode_frame(&pixels, 2, 1, false).unwrap();
    let img = decode_preview_image(&png).unwrap();
    assert_eq!((img.width, img.height), (2, 1));
    assert_eq!(img.rgba, pixels);
    assert!(decode_preview_image(b"no image here").err().unwrap().starts_with("Failed to decode image: "));
    assert_eq!(dimensions_label(640, 480), "640 x 480 px");
}

#[test]
fn skeleton_pages_decode_or_say_which_file_failed() {
    let pixels = vec![1u8, 2, 3, 4];
    let png = encode_frame(&pixels, 1, 1, false).unwrap();
    let page = decode_skeleton_png(&png).unwrap();
    assert_eq!((page.width, page.height, page.rgba), (1, 1, pixels));
    assert!(decode_skeleton_png(b"garbage").err().unwrap().starts_with("Failed to decode skeleton.png: "));
}
