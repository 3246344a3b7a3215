use imagesitter::capture::{
    bind_failed, capture_start_failure, check_not_elevated, check_probe, check_read, check_window_handle,
    crop_precheck, crop_rect, crop_rgba, encode_frame, launch_outcome, needs_larger_buffer, needs_restore,
    restore_outcome, restore_warning, sample_frame_points, screen_origin, window_info_failed, SamplePoint,
    ScreenOrigin, WindowInfo,
};
use imagesitter::registry::AppState;
use imagesitter::windows::{
    enumeration_failed, first_search_failed, is_noise_class, list_window_items, title_filter_bytes,
    window_find_flags, FindFailure, WindowFindResult,
};

use base64::Engine as _;

fn info(left: i32, top: i32, right: i32, bottom: i32, cw: u32, ch: u32) -> WindowInfo {
    WindowInfo { left, top, right, bottom, client_width: cw, client_height: ch, ..Default::default() }
}

fn found(hwnd: usize, title: &str, class: &str) -> WindowFindResult {
    let mut title_utf8 = title.as_bytes().to_vec();
    title_utf8.resize(512, 0);
    let mut class_name_utf8 = class.as_bytes().to_vec();
    class_name_utf8.resize(256, 0);
    WindowFindResult {
        window_handle: hwnd,
        parent_handle: 0,
        owner_handle: 0,
        process_id: 7,
        thread_id: 8,
        state: 1,
        flags: 0,
        title_length: title.len() as u32,
        class_name_length: class.len() as u32,
        dpi: 96,
        title_utf8,
        class_name_utf8,
    }
}

#[test]
fn bind_and_capture_messages() {
    assert_eq!(check_window_handle(0).unwrap_err(), "E1101: 无效的窗口句柄");
    assert!(check_window_handle(5).is_ok());
    assert_eq!(bind_failed(-3), "E1102: 绑定窗口失败（winsitter 错误码 -3），窗口可能已关闭");
    assert!(restore_warning(-1507).contains("权限不足"));
    assert_eq!(
        restore_warning(-9),
        "窗口已最小化且自动恢复失败（winsitter 错误码 -9）；可在左侧窗口列表重新点击该窗口触发恢复"
    );
    assert!(needs_restore(2));
    assert!(!needs_restore(1));
    assert_eq!(capture_start_failure(0), None);
    assert_eq!(
        capture_start_failure(-1109).unwrap(),
        "E1103: 目标窗口已最小化，无法产生有效画面，请先恢复窗口再绑定"
    );
    assert_eq!(capture_start_failure(-1).unwrap(), "E1103: 启动捕获流失败（winsitter 错误码 -1）");
    assert!(restore_outcome(None).is_ok());
    assert_eq!(
        restore_outcome(Some(-1507)).unwrap_err(),
        "E1104: 权限不足，恢复被 Windows 拒绝（winsitter 错误码 -1507）"
    );
    assert_eq!(restore_outcome(Some(-2)).unwrap_err(), "E1104: 恢复窗口失败（winsitter 错误码 -2）");
    assert_eq!(check_not_elevated(true).unwrap_err(), "E1105: 本工具已以管理员权限运行，无需提权");
    assert!(check_not_elevated(false).is_ok());
    assert_eq!(launch_outcome(5).unwrap_err(), "E1107: 提权启动失败（ShellExecute 代码 5），可能已取消 UAC");
    assert!(launch_outcome(33).is_ok());
    assert_eq!(screen_origin(Some((3, -4))).unwrap(), ScreenOrigin { x: 3, y: -4 });
    assert_eq!(screen_origin(None).unwrap_err(), "E2201: 无法换算窗口屏幕坐标");
    assert_eq!(window_info_failed(-8), "E2202: 无法确认捕获帧坐标系（winsitter 错误码 -8）");
}

#[test]
fn frame_reads_are_checked() {
    assert_eq!(check_probe(-1008, 2, 2, 16).unwrap(), 16);
    assert_eq!(check_probe(0, 2, 2, 16).unwrap(), 16);
    assert_eq!(check_probe(-5, 2, 2, 16).unwrap_err(), "E2101: 取帧失败（winsitter 错误码 -5），窗口可能已关闭或最小化");
    assert_eq!(check_probe(0, 0, 2, 16).unwrap_err(), "E2102: 捕获流尚未产生有效帧，请确认目标窗口可见");
    assert!(needs_larger_buffer(-1008, 32, 16));
    assert!(!needs_larger_buffer(-1008, 16, 16));
    assert!(!needs_larger_buffer(0, 32, 16));
    assert_eq!(check_read(0, 2, 2, 16, 20).unwrap(), (2, 2, 16));
    assert_eq!(check_read(-7, 2, 2, 16, 16).unwrap_err(), "E2103: 读取帧像素失败（winsitter 错误码 -7）");
    assert_eq!(check_read(0, 2, 2, 12, 16).unwrap_err(), "E2104: 帧缓冲长度 12 与尺寸 2x2 RGBA 不一致");
    assert_eq!(check_read(0, -1, -1, 16, 16).unwrap_err(), "E2104: 捕获帧尺寸计算溢出");
}

#[test]
fn client_area_crop_is_checked() {
    // The frame already is the client area.
    assert_eq!(crop_precheck(&info(0, 0, 10, 10, 8, 6), 8, 6).unwrap(), false);
    assert_eq!(
        crop_precheck(&info(0, 0, 10, 10, 0, 6), 10, 10).unwrap_err(),
        "E2203: 目标窗口客户区尺寸无效，已停止取帧以避免坐标漂移"
    );
    assert_eq!(
        crop_precheck(&info(0, 0, 10, 10, 8, 6), 12, 10).unwrap_err(),
        "E2204: 捕获帧 12x10 与窗口边界 10x10、客户区 8x6 不一致，已停止取帧以避免使用错误坐标"
    );
    let window = info(100, 50, 110, 60, 8, 6);
    assert_eq!(crop_precheck(&window, 10, 10).unwrap(), true);
    assert_eq!(crop_rect(&window, Some((101, 53)), 10, 10).unwrap(), Some((1, 3, 8, 6)));
    assert_eq!(
        crop_rect(&window, None, 10, 10).unwrap_err(),
        "E2205: 无法换算客户区原点，已停止取帧以避免坐标漂移"
    );
    assert_eq!(
        crop_rect(&window, Some((99, 53)), 10, 10).unwrap_err(),
        "E2206: 客户区原点偏移异常 (-1, 3)，已停止取帧以避免坐标漂移"
    );
    assert_eq!(
        crop_rect(&window, Some((103, 53)), 10, 10).unwrap_err(),
        "E2207: 客户区裁剪范围 (3, 3, 8, 6) 超出捕获帧 10x10"
    );
    let whole = info(0, 0, 4, 4, 4, 4);
    assert_eq!(crop_rect(&whole, Some((0, 0)), 4, 4).unwrap(), None);
}

#[test]
fn crop_copies_the_rectangle_row_by_row() {
    // 3x2 frame whose pixels are numbered 0..6 in their red byte.
    let frame: Vec<u8> = (0..6u8).flat_map(|i| [i, 0, 0, 255]).collect();
    assert_eq!(crop_rgba(&frame, 3, 1, 0, 2, 2), vec![1, 0, 0, 255, 2, 0, 0, 255, 4, 0, 0, 255, 5, 0, 0, 255]);
    assert_eq!(crop_rgba(&frame, 3, 0, 1, 1, 1), vec![3, 0, 0, 255]);
    assert!(crop_rgba(&frame, 3, 0, 0, 0, 2).is_empty());
}

#[test]
fn sampling_reads_pixels_inside_the_frame() {
    let frame: Vec<u8> = vec![1, 2, 3, 4, 5, 6, 7, 8];
    let points = vec![SamplePoint { x: 1, y: 0 }, SamplePoint { x: 2, y: 0 }, SamplePoint { x: 0, y: 1 }];
    assert_eq!(sample_frame_points(&frame, 2, 1, &points), vec![Some([5, 6, 7, 8]), None, None]);
}

#[test]
fn preview_frames_round_trip_through_png() {
    let rgba = vec![10, 20, 30, 255, 40, 50, 60, 128];
    let payload = encode_frame(&rgba, 2, 1).unwrap();
    assert_eq!((payload.width, payload.height), (2, 1));
    let b64 = payload.png_data_url.strip_prefix("data:image/png;base64,").unwrap();
    let png = base64::engine::general_purpose::STANDARD.decode(b64).unwrap();
    let back = image::load_from_memory_with_format(&png, image::ImageFormat::Png).unwrap().to_rgba8();
    assert_eq!(back.into_raw(), rgba);
    assert_eq!(encode_frame(&rgba, 3, 1).unwrap_err(), "E2104: 帧缓冲尺寸不一致");
}

#[test]
fn targets_get_fresh_ids_and_are_found_until_unbound() {
    let mut state = AppState::new();
    let a = state.register(11, 100, "first".into());
    let b = state.register(12, 200, "second".into());
    assert_eq!((a, b), (1, 2));
    let found = state.lookup(a).unwrap();
    assert_eq!((found.session_id, found.hwnd, found.title.as_str()), (11, 100, "first"));
    let removed = state.unbind(a).unwrap();
    assert_eq!(removed.target_id, 1);
    assert_eq!(state.lookup(a).unwrap_err(), "E2001: 目标未绑定或已释放");
    assert_eq!(state.unbind(a).unwrap_err(), "E2001: 目标未绑定或已释放");
    let c = state.register(13, 300, "third".into());
    assert_eq!(c, 3);
    assert!(state.lookup(b).is_ok());
}

#[test]
fn window_list_filters_and_sorts_by_title() {
    let mut cloaked = found(3, "Cloaked", "App");
    cloaked.flags = 32;
    let mut owned = found(4, "Popup", "App");
    owned.owner_handle = 9;
    let results = vec![
        found(1, "  Zeta  ", "App"),
        found(2, "Taskbar", "Shell_TrayWnd"),
        cloaked,
        owned,
        found(5, "   ", "App"),
        found(6, "Alpha", "App"),
        found(7, "Zeta", "Other"),
    ];
    let items = list_window_items(&results);
    let listed: Vec<(usize, &str)> = items.iter().map(|w| (w.hwnd, w.title.as_str())).collect();
    assert_eq!(listed, vec![(6, "Alpha"), (1, "Zeta"), (7, "Zeta")]);
    assert_eq!(items[0].class_name, "App");
    assert_eq!((items[0].process_id, items[0].state, items[0].dpi), (7, 1, 96));
    assert!(is_noise_class(&"ImageSitter".to_string()));
    assert!(!is_noise_class(&"Notepad".to_string()));
}

#[test]
fn window_search_flags_and_failures() {
    assert_eq!(window_find_flags(), 8 | 1 | 4 | 64 | 128);
    match first_search_failed(window_find_flags(), -1001) {
        FindFailure::RetryWith(flags) => assert_eq!(flags, 8 | 1 | 4),
        _ => panic!("expected a retry"),
    }
    match first_search_failed(window_find_flags(), -5) {
        FindFailure::Fail(text) => assert_eq!(text, "E1001: 窗口枚举失败（winsitter 错误码 -5）"),
        _ => panic!("expected a failure"),
    }
    assert_eq!(enumeration_failed(-1), "E1001: 窗口枚举失败（winsitter 错误码 -1）");
    assert_eq!(title_filter_bytes("abc"), b"abc".to_vec());
    let long = "é".repeat(300);
    let cut = title_filter_bytes(&long);
    assert_eq!(cut.len(), 510);
    assert!(std::str::from_utf8(&cut).is_ok());
}
