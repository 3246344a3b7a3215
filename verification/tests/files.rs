use imagesitter::project::{check_opened_content, check_saved_content, check_snapshot_content, replaced_file_worth_keeping};
use imagesitter::codec::{decode_png, eq_ignore_ascii_case, hex_lower, inspect_png, load_png_bytes, png_data_url, sha256_hex};
use imagesitter::project::{
    check_opened_document, check_report_size, check_saved_document, check_snapshot_document, check_snapshot_name,
    history_entry, order_history, parse_u64, snapshot_file_name, snapshot_worth_keeping, snapshots_to_prune,
    sort_texts, ProjectHistoryEntry,
};
use imagesitter::samples::{
    audit_samples, check_managed_sample, check_sample_path, decode_png_upload, history_folder_name,
    import_sample_png, load_sample_png, require_saved_project, safe_file_name, sample_modified,
    sample_storage, samples_folder_name, slashed_path, store_sample_png_data, SampleReference, SampleStorage,
};
use imagesitter::text::decimal_string;
use imagesitter::commands::{run_match_advanced, suggest_feature_points_command};
use imagesitter::model::{AlphaMode, FeatureGroup, FeaturePoint, Region};
use imagesitter::project::{check_project_path, check_write_target, is_png_extension, png_listing, runtime_diagnostics, trimmed_target_path};

use base64::Engine as _;

fn png_bytes(width: u32, height: u32, rgba: Vec<u8>) -> Vec<u8> {
    let image = image::RgbaImage::from_raw(width, height, rgba).unwrap();
    let mut png = std::io::Cursor::new(Vec::new());
    image::DynamicImage::ImageRgba8(image).write_to(&mut png, image::ImageFormat::Png).unwrap();
    png.into_inner()
}

#[test]
fn documents_need_a_supported_version_and_objects() {
    assert!(check_saved_document(Some(4), Some(true)).is_ok());
    assert_eq!(check_saved_document(Some(5), Some(true)).unwrap_err(), "E4002: 项目 version 必须是受支持的 1～4");
    assert_eq!(check_saved_document(None, Some(true)).unwrap_err(), "E4002: 项目 version 必须是受支持的 1～4");
    assert_eq!(check_saved_document(Some(1), Some(false)).unwrap_err(), "E4002: 项目 objects 必须是数组");
    assert_eq!(check_saved_document(Some(1), None).unwrap_err(), "E4002: 项目 objects 必须是数组");
    assert_eq!(check_opened_document(Some(0), Some(true)).unwrap_err(), "E4103: 不是有效的 ImageSitter 项目文件");
    assert!(check_opened_document(Some(2), Some(true)).is_ok());
    assert_eq!(check_snapshot_document(Some(3), None).unwrap_err(), "E4454: 历史快照不是有效项目");
    assert!(snapshot_worth_keeping(true, Some(true)));
    assert!(!snapshot_worth_keeping(false, Some(true)));
    assert!(!snapshot_worth_keeping(true, Some(false)));
    assert!(check_report_size(64 * 1024 * 1024).is_ok());
    assert_eq!(check_report_size(64 * 1024 * 1024 + 1).unwrap_err(), "E4420: 报告超过 64 MiB 上限");
}

#[test]
fn snapshot_names_are_plain_json_files() {
    assert!(check_snapshot_name("1700000000000.json").is_ok());
    for bad in ["", "a/b.json", "a\\b.json", "x.txt", "json"] {
        assert_eq!(check_snapshot_name(bad).unwrap_err(), "E4452: 历史快照名无效");
    }
    assert_eq!(snapshot_file_name(1700000000123), "1700000000123.json");
    assert_eq!(decimal_string(0), "0");
}

#[test]
fn numbers_parse_like_std() {
    for text in ["0", "42", "+7", "18446744073709551615", "", "+", "-1", "4x", "18446744073709551616"] {
        assert_eq!(parse_u64(text.as_bytes()), text.parse::<u64>().ok(), "{text}");
    }
}

#[test]
fn history_lists_newest_first_and_keeps_thirty() {
    let e = history_entry("1700.json".into(), 10);
    assert_eq!((e.saved_at, e.size), (1700, 10));
    assert_eq!(history_entry("notes.json".into(), 1).saved_at, 0);
    assert_eq!(history_entry("12".into(), 1).saved_at, 0);
    let mut entries: Vec<ProjectHistoryEntry> = (0..35u64).map(|i| history_entry(format!("{}.json", i * 3 % 35), i)).collect();
    entries.push(history_entry("broken.json".into(), 99));
    let listed = order_history(&entries);
    assert_eq!(listed.len(), 30);
    assert!(listed.windows(2).all(|w| w[0].saved_at >= w[1].saved_at));
    assert_eq!(listed[0].saved_at, 34);
    let ties = vec![history_entry("a".into(), 1), history_entry("b".into(), 2)];
    let listed = order_history(&ties);
    assert_eq!((listed[0].size, listed[1].size), (1, 2));
}

#[test]
fn snapshots_beyond_thirty_are_pruned_oldest_first() {
    let names: Vec<String> = (100..133u32).rev().map(|i| format!("{i}.json")).collect();
    let mut shuffled = names.clone();
    shuffled.swap(0, 20);
    let pruned = snapshots_to_prune(&shuffled);
    assert_eq!(pruned, vec!["102.json".to_string(), "101.json".to_string(), "100.json".to_string()]);
    assert!(snapshots_to_prune(&names[..30].to_vec()).is_empty());
    let sorted = sort_texts(&vec!["b".into(), "B".into(), "a".into(), "ab".into()], false);
    assert_eq!(sorted, vec!["B", "a", "ab", "b"]);
}

#[test]
fn codec_fingerprints_and_case() {
    assert_eq!(hex_lower(&[0x00, 0xab, 0x7f]), "00ab7f");
    assert_eq!(sha256_hex(b"abc"), "ba7816bf8f01cfea414140de5dae2223b00361a396177a9cb410ff61f20015ad");
    assert!(eq_ignore_ascii_case("AbC", "aBc"));
    assert!(!eq_ignore_ascii_case("abc", "abd"));
    assert!(!eq_ignore_ascii_case("abc", "abcd"));
}

#[test]
fn png_inspection_and_decoding_limits() {
    let png = png_bytes(2, 1, vec![1, 2, 3, 4, 5, 6, 7, 8]);
    let (w, h, sha) = inspect_png(&png).unwrap();
    assert_eq!((w, h), (2, 1));
    assert_eq!(sha, sha256_hex(&png));
    assert_eq!(inspect_png(b"GIF89a").unwrap_err(), "E4402: 样本不是 PNG 格式");
    let mut truncated = png.clone();
    truncated.truncate(20);
    assert!(inspect_png(&truncated).unwrap_err().starts_with("E4404: PNG 解码失败："));
    let url = png_data_url(&png);
    assert!(url.starts_with("data:image/png;base64,"));
    assert_eq!(decode_png(&url).unwrap(), (vec![1, 2, 3, 4, 5, 6, 7, 8], 2, 1));
    let not_png = base64::engine::general_purpose::STANDARD.encode(b"hello");
    assert_eq!(decode_png(&not_png).unwrap_err(), "E3103: 回放图像不是 PNG");
    assert!(load_png_bytes(&truncated).unwrap_err().starts_with("cannot decode PNG: "));
    assert_eq!(load_png_bytes(&png).unwrap().0, vec![1, 2, 3, 4, 5, 6, 7, 8]);
}

#[test]
fn samples_are_embedded_or_managed() {
    let png = png_bytes(1, 1, vec![1, 2, 3, 255]);
    let sha = sha256_hex(&png);
    let embedded = import_sample_png(&png, "embedded", &None, &None, &None).unwrap();
    assert_eq!(embedded.sample.png_data_url, png_data_url(&png));
    assert!(embedded.managed_file.is_none());
    assert_eq!((embedded.sample.width, embedded.sample.height), (1, 1));
    assert_eq!(import_sample_png(&png, "cloud", &None, &None, &None).unwrap_err(), "E4406: storage 必须为 embedded 或 external");
    assert_eq!(
        import_sample_png(&png, "external", &Some("  ".into()), &None, &None).unwrap_err(),
        "E4407: 外部样本要求先保存项目"
    );
    let managed = import_sample_png(
        &png,
        "external",
        &Some("/p/demo.json".into()),
        &Some("demo".into()),
        &Some("my shot (1).png".into()),
    )
    .unwrap();
    let name = format!("{}-my_shot__1_.png", &sha[..12]);
    assert_eq!(managed.sample.relative_path, format!("demo.samples/{name}"));
    assert_eq!(managed.sample.png_data_url, "");
    assert_eq!(managed.managed_file, Some(("demo.samples".to_string(), name)));
    let default = import_sample_png(&png, "external", &Some("x".into()), &None, &None).unwrap();
    assert_eq!(default.sample.relative_path, format!("imagesitter-project.samples/{}-sample.png", &sha[..12]));
}

#[test]
fn captured_samples_come_as_data_urls() {
    let png = png_bytes(1, 1, vec![1, 2, 3, 255]);
    let sha = sha256_hex(&png);
    let url = png_data_url(&png);
    let (kept, bytes) = store_sample_png_data(url.clone(), "embedded", &None, &None).unwrap();
    assert_eq!(kept.sample.png_data_url, url);
    assert_eq!(bytes, png);
    let (managed, bytes) = store_sample_png_data(url.clone(), "external", &Some("p.json".into()), &Some("p".into())).unwrap();
    assert_eq!(managed.sample.relative_path, format!("p.samples/{}-capture.png", &sha[..12]));
    assert_eq!(managed.managed_file, Some(("p.samples".to_string(), format!("{}-capture.png", &sha[..12]))));
    assert_eq!(bytes, png);
    assert_eq!(
        store_sample_png_data("data:image/jpeg;base64,xx".into(), "embedded", &None, &None).unwrap_err(),
        "E4430: 捕获样本不是 PNG Data URL"
    );
    assert!(store_sample_png_data("data:image/png;base64,!!".into(), "embedded", &None, &None)
        .unwrap_err()
        .starts_with("E4430: 捕获样本 Base64 无效："));
}

#[test]
fn managed_samples_are_checked_when_loaded() {
    let png = png_bytes(1, 1, vec![5, 5, 5, 255]);
    let sha = sha256_hex(&png);
    let loaded = load_sample_png(&png, "p.samples/a.png".into(), &sha.to_uppercase()).unwrap();
    assert_eq!(loaded.png_data_url, png_data_url(&png));
    assert_eq!(loaded.relative_path, "p.samples/a.png");
    assert!(load_sample_png(&png, "x".into(), "").is_ok());
    assert_eq!(load_sample_png(&png, "x".into(), "00").unwrap_err(), "E4413: 外部样本内容已变化（SHA-256 不一致）");
    let upload = base64::engine::general_purpose::STANDARD.encode(&png);
    assert_eq!(decode_png_upload(&upload).unwrap(), png);
    assert!(decode_png_upload("%%").unwrap_err().starts_with("E4301: 图像数据不是合法 Base64："));
    assert_eq!(
        decode_png_upload(&base64::engine::general_purpose::STANDARD.encode(b"text")).unwrap_err(),
        "E4302: 图像数据不是 PNG 格式"
    );
}

#[test]
fn sample_names_and_paths() {
    assert_eq!(sample_storage("embedded").unwrap(), SampleStorage::Embedded);
    assert_eq!(sample_storage("external").unwrap(), SampleStorage::External);
    assert_eq!(require_saved_project(&Some(" a ".into())).unwrap(), " a ");
    assert!(require_saved_project(&None).is_err());
    assert_eq!(samples_folder_name(&Some("demo".into())), "demo.samples");
    assert_eq!(history_folder_name(&None), "imagesitter-project.history");
    assert_eq!(safe_file_name("a-b_c.PNG"), "a-b_c.PNG");
    assert_eq!(safe_file_name("截图 1.png"), "___1.png");
    assert_eq!(slashed_path("a\\b\\c.png"), "a/b/c.png");
    assert!(check_sample_path("p.samples/a.png").is_ok());
    assert_eq!(check_sample_path("../a.png").unwrap_err(), "E4410: 外部样本路径必须是安全的相对路径");
    assert_eq!(check_sample_path("/abs/a.png").unwrap_err(), "E4410: 外部样本路径必须是安全的相对路径");
    assert!(check_managed_sample("p.samples/a.png", "p.samples").is_ok());
    for bad in ["q.samples/a.png", "p.samples/x/a.png", "a.png", "p.samples/.."] {
        assert_eq!(check_managed_sample(bad, "p.samples").unwrap_err(), "E4471: 样本不在当前项目的受管目录中");
    }
}

#[test]
fn audit_finds_missing_modified_and_orphaned_samples() {
    let good = png_bytes(1, 1, vec![1, 1, 1, 255]);
    let changed = png_bytes(1, 1, vec![2, 2, 2, 255]);
    let references = vec![
        SampleReference { relative_path: "p.samples/z.png".into(), sha256: sha256_hex(&good) },
        SampleReference { relative_path: "p.samples\\b.png".into(), sha256: sha256_hex(&good) },
        SampleReference { relative_path: "p.samples/gone.png".into(), sha256: String::new() },
        SampleReference { relative_path: "p.samples/a.png".into(), sha256: String::new() },
    ];
    let contents = vec![Some(good.clone()), Some(changed.clone()), None, Some(changed)];
    let files = vec!["z.png".to_string(), "b.png".to_string(), "old.png".to_string(), "a.png".to_string(), "c.png".to_string()];
    let audit = audit_samples(&references, &contents, "p.samples", &files);
    assert_eq!(audit.missing, vec!["p.samples/gone.png"]);
    assert_eq!(audit.modified, vec!["p.samples\\b.png"]);
    assert_eq!(audit.orphaned, vec!["p.samples/c.png", "p.samples/old.png"]);
    assert!(sample_modified(&good, "00"));
    assert!(!sample_modified(&good, ""));
}

#[test]
fn write_targets_and_listings() {
    assert_eq!(trimmed_target_path("  /tmp/a.json ").unwrap(), "/tmp/a.json");
    assert_eq!(trimmed_target_path("   ").unwrap_err(), "E4201: 路径为空");
    assert_eq!(check_project_path("\t").unwrap_err(), "E4450: 项目路径为空");
    assert_eq!(check_project_path(" p.json").unwrap(), "p.json");
    let parent = Some("/tmp".to_string());
    assert!(check_write_target(&parent, true, true, false, true).is_ok());
    assert_eq!(check_write_target(&None, true, true, false, true).unwrap_err(), "E4202: 路径缺少父目录");
    assert_eq!(check_write_target(&Some(String::new()), true, true, false, true).unwrap_err(), "E4202: 路径缺少父目录");
    assert_eq!(check_write_target(&parent, false, false, false, true).unwrap_err(), "E4203: 目录不存在：/tmp");
    assert_eq!(check_write_target(&parent, true, false, false, true).unwrap_err(), "E4203: 父路径不是目录：/tmp");
    assert_eq!(check_write_target(&parent, true, true, true, true).unwrap_err(), "E4205: 目标路径是目录，不能作为文件写入");
    assert_eq!(check_write_target(&parent, true, true, false, false).unwrap_err(), "E4204: 请为文件指定扩展名（建议 .json）");
    assert!(is_png_extension(&Some("PnG".into())));
    assert!(!is_png_extension(&Some("jpg".into())));
    assert!(!is_png_extension(&None));
    let found: Vec<String> = (0..2005).rev().map(|i| format!("{i:05}.png")).collect();
    let listing = png_listing(&found);
    assert_eq!(listing.len(), 2000);
    assert_eq!(listing[0], "00005.png");
    assert_eq!(listing[1999], "02004.png");
    let d = runtime_diagnostics("1.0.0".into(), "linux".into(), "x86_64".into(), false, (1u128 << 64) + 5);
    assert_eq!((d.app_version.as_str(), d.generated_at, d.winsitter_dll_present), ("1.0.0", 5, false));
}

#[test]
fn oversized_inputs_are_refused() {
    let mut big = vec![0u8; 24 * 1024 * 1024 + 1];
    big[..8].copy_from_slice(b"\x89PNG\r\n\x1a\n");
    assert_eq!(inspect_png(&big).unwrap_err(), "E4403: 单张 PNG 超过 24 MiB 上限");
    assert_eq!(load_png_bytes(&big).unwrap_err(), "PNG exceeds the 24 MiB safety limit");
    let url = "A".repeat(24 * 1024 * 1024 + 1);
    assert_eq!(decode_png(&url).unwrap_err(), "E3101: 回放图像超过 24 MiB 编码上限");
}

#[test]
fn offline_requests_report_their_stage() {
    let point = FeaturePoint {
        dx: 0,
        dy: 0,
        reference: [1, 2, 3, 255],
        tolerance: [0, 0, 0],
        alpha_mode: AlphaMode::Ignore,
        alpha_tolerance: 40,
        must_not: false,
    };
    let group = FeatureGroup { id: "g".into(), name: "g".into(), enabled: true, points: vec![point], min_match: -1 };
    let frame = vec![1, 2, 3, 255];
    let report = run_match_advanced(&frame, 1, 1, Region { x: 0, y: 0, w: 1, h: 1 }, vec![group.clone()], 0, 0).unwrap();
    assert!(report.matched);
    assert_eq!(
        run_match_advanced(&frame, 1, 1, Region { x: 0, y: 0, w: 2, h: 1 }, vec![group.clone()], 0, 0).unwrap_err(),
        "E3001: 对象区域 (0, 0, 2, 1) 超出帧尺寸 1x1"
    );
    assert_eq!(
        run_match_advanced(&frame, 1, 1, Region { x: 3, y: 0, w: 1, h: 1 }, vec![], 0, 0).unwrap_err(),
        "E3001: 对象区域 (3, 0, 1, 1) 超出帧尺寸 1x1"
    );
    let many = vec![String::new(); 201];
    assert_eq!(
        suggest_feature_points_command(many, vec![], Region { x: 0, y: 0, w: 1, h: 1 }, 4, 1).unwrap_err(),
        "E3201: 正样本或负样本数量超过 200 张上限"
    );
    let png = png_data_url(&png_bytes(1, 1, vec![1, 2, 3, 255]));
    assert_eq!(
        suggest_feature_points_command(vec![png.clone()], vec![png], Region { x: 0, y: 0, w: 1, h: 1 }, 4, 1).unwrap_err(),
        "E3202: 多样本智能选点至少需要 2 张正样本"
    );
}

#[test]
fn paths_lose_unicode_white_space_at_both_ends_only() {
    assert_eq!(check_project_path("\u{3000}\u{a0} 项目 a.json\u{2029}\n").unwrap(), "项目 a.json");
    assert_eq!(trimmed_target_path("\u{85}x\u{200a}y\u{202f}").unwrap(), "x\u{200a}y");
    assert_eq!(trimmed_target_path("\u{2000}\u{205f}\r").unwrap_err(), "E4201: 路径为空");
    assert_eq!(trimmed_target_path("\u{200b}a").unwrap(), "\u{200b}a");
}

#[test]
fn data_urls_carry_padded_standard_base64() {
    assert_eq!(png_data_url(b"Man"), "data:image/png;base64,TWFu");
    assert_eq!(png_data_url(b"Ma"), "data:image/png;base64,TWE=");
    assert_eq!(png_data_url(b"M"), "data:image/png;base64,TQ==");
    assert_eq!(png_data_url(&[0xfb, 0xff, 0xbf]), "data:image/png;base64,+/+/");
    assert_eq!(png_data_url(&[]), "data:image/png;base64,");
}

#[test]
fn document_text_is_parsed_before_its_shape_is_checked() {
    assert!(check_saved_content(br#"{"version": 4, "objects": [], "target": {}}"#).is_ok());
    assert_eq!(check_saved_content(br#"{"version": 5, "objects": []}"#).unwrap_err(), "E4002: 项目 version 必须是受支持的 1～4");
    assert_eq!(check_saved_content(br#"{"version": "1", "objects": []}"#).unwrap_err(), "E4002: 项目 version 必须是受支持的 1～4");
    assert_eq!(check_saved_content(br#"{"version": -1, "objects": []}"#).unwrap_err(), "E4002: 项目 version 必须是受支持的 1～4");
    assert_eq!(check_saved_content(br#"{"version": 1, "objects": {}}"#).unwrap_err(), "E4002: 项目 objects 必须是数组");
    assert_eq!(check_saved_content(br#"{"version": 1}"#).unwrap_err(), "E4002: 项目 objects 必须是数组");
    assert!(check_saved_content(b"{version: 1}").unwrap_err().starts_with("E4001: 项目内容不是合法 JSON："));
    assert!(check_opened_content(br#"{"version": 2, "objects": [1]}"#).is_ok());
    assert_eq!(check_opened_content(br#"[1, 2]"#).unwrap_err(), "E4103: 不是有效的 ImageSitter 项目文件");
    assert!(check_opened_content(b"").unwrap_err().starts_with("E4102: 文件不是合法 JSON："));
    assert_eq!(check_snapshot_content(br#"{"version": 3}"#).unwrap_err(), "E4454: 历史快照不是有效项目");
    assert!(check_snapshot_content(b"{\"version\": 3,").unwrap_err().starts_with("E4454: 历史快照已损坏："));
    assert!(check_snapshot_content(br#"{"version": 3, "objects": []}"#).is_ok());
    assert!(replaced_file_worth_keeping(br#"{"version": 99, "objects": []}"#));
    assert!(!replaced_file_worth_keeping(br#"{"objects": null}"#));
    assert!(!replaced_file_worth_keeping(b"not json"));
}

#[test]
fn only_canonical_base64_is_decoded() {
    let png = png_bytes(1, 1, vec![5, 5, 5, 255]);
    let url = png_data_url(&png);
    let unpadded = url.trim_end_matches('=').to_string();
    if unpadded != url {
        assert!(store_sample_png_data(unpadded, "embedded", &None, &None)
            .unwrap_err()
            .starts_with("E4430: 捕获样本 Base64 无效："));
    }
    for bad in ["data:image/png;base64,TR==", "data:image/png;base64,TQ=", "data:image/png;base64,TQ==TQ==", "data:image/png;base64,TQ== "] {
        assert!(store_sample_png_data(bad.into(), "embedded", &None, &None)
            .unwrap_err()
            .starts_with("E4430: 捕获样本 Base64 无效："), "{bad}");
    }
    let (kept, bytes) = store_sample_png_data(url.clone(), "embedded", &None, &None).unwrap();
    assert_eq!((kept.sample.png_data_url, bytes), (url, png));
}
