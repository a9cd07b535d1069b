use orchd::editor::{
    build_prompt_template, check_attachment, temp_file_extension, encode_base64, format_size, is_binary_extension,
    mime_type_for_extension, resolve_editor_with_env, Attachment, AttachmentContent,
    AttachmentInfo, EditorConfig,
};

fn float_format_size(bytes: u64) -> String {
    fn unit(value: f64, unit: &str) -> String {
        if (value.fract() - 0.0).abs() < f64::EPSILON {
            format!("{value:.0} {unit}")
        } else {
            format!("{value:.1} {unit}")
        }
    }
    if bytes < 1024 {
        return format!("{bytes} B");
    }
    let kb = bytes as f64 / 1024.0;
    if kb < 1024.0 {
        return unit(kb, "KB");
    }
    let mb = kb / 1024.0;
    if mb < 1024.0 {
        return unit(mb, "MB");
    }
    unit(mb / 1024.0, "GB")
}

#[test]
fn resolve_editor_uses_config_override() {
    let cfg = EditorConfig { editor_command: Some("nano".to_string()), ..EditorConfig::default() };
    let editor = resolve_editor_with_env(&cfg, Some("vim".to_string()), Some("ed".to_string()));
    assert_eq!(editor, Some("nano".to_string()));
}

#[test]
fn resolve_editor_falls_back_to_env_values() {
    let cfg = EditorConfig::default();
    let editor = resolve_editor_with_env(&cfg, Some("vim".to_string()), Some("ed".to_string()));
    assert_eq!(editor, Some("vim".to_string()));
    let editor = resolve_editor_with_env(&cfg, None, Some("ed".to_string()));
    assert_eq!(editor, Some("ed".to_string()));
}

#[test]
fn resolve_editor_skips_blank_values_and_defaults_to_vi() {
    let cfg = EditorConfig { editor_command: Some("   ".to_string()), ..EditorConfig::default() };
    assert_eq!(resolve_editor_with_env(&cfg, Some(" ".to_string()), Some(" emacs ".to_string())), Some("emacs".to_string()));
    assert_eq!(resolve_editor_with_env(&cfg, None, None), Some("vi".to_string()));
}

#[test]
fn editor_config_default_values() {
    let cfg = EditorConfig::default();
    assert_eq!(cfg.file_extension, "md");
    assert_eq!(cfg.max_attachment_size_bytes, 10 * 1024 * 1024);
    assert!(cfg.allowed_attachment_extensions.iter().any(|v| v == "rs"));
    assert!(cfg.allowed_attachment_extensions.iter().any(|v| v == "pdf"));
}

#[test]
fn mime_type_for_known_extensions() {
    assert_eq!(mime_type_for_extension("png"), "image/png");
    assert_eq!(mime_type_for_extension("pdf"), "application/pdf");
    assert_eq!(mime_type_for_extension("rs"), "text/plain");
    assert_eq!(mime_type_for_extension("JPEG"), "image/jpeg");
    assert_eq!(mime_type_for_extension("exe"), "application/octet-stream");
}

#[test]
fn is_binary_extension_true_for_images() {
    assert!(is_binary_extension("png"));
    assert!(is_binary_extension("jpeg"));
    assert!(is_binary_extension("pdf"));
    assert!(is_binary_extension("PNG"));
}

#[test]
fn is_binary_extension_false_for_text() {
    assert!(!is_binary_extension("rs"));
    assert!(!is_binary_extension("txt"));
}

#[test]
fn format_size_outputs_human_readable_values() {
    assert_eq!(format_size(256), "256 B");
    assert_eq!(format_size(1024), "1 KB");
    assert_eq!(format_size(1536), "1.5 KB");
    assert_eq!(format_size(1024 * 1024), "1 MB");
}

#[test]
fn format_size_agrees_with_floating_point_formatting() {
    let mut samples: Vec<u64> = vec![0, 1, 1023, 1024, 1025, 1280, 1331, 1946, 2047, 2048, 10 * 1024 * 1024, u64::MAX, u64::MAX - 1];
    for k in 0..64u32 {
        let p = 1u64 << k;
        samples.push(p);
        samples.push(p.wrapping_sub(1));
        samples.push(p.wrapping_add(1));
        samples.push(p.wrapping_add(p / 2));
        samples.push(p.wrapping_add(p / 20));
    }
    let mut x: u64 = 0x9e37_79b9_7f4a_7c15;
    for _ in 0..2000 {
        x ^= x << 13;
        x ^= x >> 7;
        x ^= x << 17;
        samples.push(x >> (x % 64));
    }
    for b in samples {
        assert_eq!(format_size(b), float_format_size(b), "size {b}");
    }
}

#[test]
fn attachment_content_variants_work() {
    let text_attachment = Attachment {
        info: AttachmentInfo {
            path: "note.txt".to_string(),
            file_name: "note.txt".to_string(),
            extension: "txt".to_string(),
            size_bytes: 4,
            is_binary: false,
        },
        content: AttachmentContent::Text("test".to_string()),
    };
    assert!(text_attachment.display_summary().contains("text"));
    assert_eq!(text_attachment.display_summary(), "note.txt (txt; 4 B; text)");
    let bin_attachment = Attachment {
        info: AttachmentInfo {
            path: "image.png".to_string(),
            file_name: "image.png".to_string(),
            extension: "png".to_string(),
            size_bytes: 3,
            is_binary: true,
        },
        content: AttachmentContent::Binary { base64: "AQID".to_string(), mime_type: "image/png".to_string() },
    };
    assert!(bin_attachment.display_summary().contains("binary"));
}

#[test]
fn prompt_template_has_sections() {
    let t = build_prompt_template("Task Alpha");
    assert!(t.contains("# Task Alpha"));
    assert!(t.contains("Write your prompt below."));
    assert!(t.contains("## Requirements"));
}

#[test]
fn base64_encoding_matches_standard() {
    assert_eq!(encode_base64(&[1, 2, 3]), "AQID");
    assert_eq!(encode_base64(b""), "");
    assert_eq!(encode_base64(b"f"), "Zg==");
    assert_eq!(encode_base64(b"fo"), "Zm8=");
    assert_eq!(encode_base64(b"foo"), "Zm9v");
    assert_eq!(encode_base64(b"foobar"), "Zm9vYmFy");
    assert_eq!(encode_base64(&[0xff, 0xfe, 0xfd, 0xfc]), "//79/A==");
}

fn checked(path: &str, size: u64, cfg: &EditorConfig) -> Result<AttachmentInfo, String> {
    let name = path.rsplit('/').next().map(|n| n.to_string());
    let ext = path.rsplit_once('.').map(|(_, e)| e.to_string());
    check_attachment(path, true, true, size, name, ext, cfg)
}

#[test]
fn validate_attachment_rejects_too_large_file() {
    let cfg = EditorConfig { max_attachment_size_bytes: 5, ..EditorConfig::default() };
    let err = checked("/tmp/d/large.txt", "01234567890".len() as u64, &cfg).expect_err("expected size validation error");
    assert!(err.contains("Attachment too large"));
    assert_eq!(err, "Attachment too large: 11 B (max 5 B)");
}

#[test]
fn validate_attachment_rejects_unknown_extension() {
    let err = checked("/tmp/d/notes.xyz", 3, &EditorConfig::default()).expect_err("expected extension validation error");
    assert!(err.contains("not allowed"));
    assert_eq!(err, "Attachment extension not allowed: .xyz (/tmp/d/notes.xyz)");
}

#[test]
fn validate_attachment_accepts_valid_file() {
    let info = checked("/tmp/d/code.rs", 13, &EditorConfig::default()).expect("valid attachment");
    assert_eq!(info.file_name, "code.rs");
    assert_eq!(info.extension, "rs");
    assert!(!info.is_binary);
    assert_eq!(info.path, "/tmp/d/code.rs");
    assert_eq!(info.size_bytes, 13);
}

#[test]
fn check_attachment_reports_each_refusal() {
    let cfg = EditorConfig::default();
    let p = "/tmp/d/x.png";
    let name = || Some("x.png".to_string());
    let ext = || Some("PNG".to_string());
    assert_eq!(check_attachment(p, false, false, 1, name(), ext(), &cfg).unwrap_err(), "Attachment does not exist: /tmp/d/x.png");
    assert_eq!(check_attachment(p, true, false, 1, name(), ext(), &cfg).unwrap_err(), "Attachment is not a file: /tmp/d/x.png");
    assert_eq!(check_attachment(p, true, true, 1, None, ext(), &cfg).unwrap_err(), "Attachment has invalid file name: /tmp/d/x.png");
    assert_eq!(check_attachment(p, true, true, 1, name(), None, &cfg).unwrap_err(), "Attachment missing extension: /tmp/d/x.png");
    let big = check_attachment(p, true, true, 11 * 1024 * 1024, name(), ext(), &cfg).unwrap_err();
    assert_eq!(big, "Attachment too large: 11 MB (max 10 MB)");
    let info = check_attachment(p, true, true, 1536, name(), ext(), &cfg).unwrap();
    assert_eq!(info.extension, "png");
    assert!(info.is_binary);
}

#[test]
fn temp_file_extension_trims_dots_and_defaults() {
    let mut cfg = EditorConfig::default();
    assert_eq!(temp_file_extension(&cfg), "md");
    cfg.file_extension = " ..rs ".to_string();
    assert_eq!(temp_file_extension(&cfg), "rs");
    cfg.file_extension = " . ".to_string();
    assert_eq!(temp_file_extension(&cfg), "txt");
    cfg.file_extension = String::new();
    assert_eq!(temp_file_extension(&cfg), "txt");
}

#[test]
fn binary_extensions_are_images_and_pdf() {
    for ext in ["png", "JPG", "jpeg", "gif", "Svg", "pdf", "rs", "txt", "md", "xyz", ""] {
        let mime = mime_type_for_extension(ext);
        assert_eq!(is_binary_extension(ext), mime.starts_with("image/") || mime == "application/pdf", "{ext}");
    }
}
