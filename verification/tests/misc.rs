use evp::font::{svg_embedding_policy_from_flags, SvgFontEmbeddingPolicy};
use evp::gif::{parse_gif_frames, GifError};
use evp::pty::{command_arg0, has_utf8_locale, parse_shell_command, resolve_shell_command, ShellError};
use evp::telemetry::{clear_timings, get_timings, ScopeTimer, TimingRegistry};
use evp::units::{format_bytes, format_bytes_with_count};

#[test]
fn svg_policy_omits_bitmap_only_fonts() {
    let policy = svg_embedding_policy_from_flags("Example Font", true, true, true, "Installable");
    assert_eq!(
        policy,
        SvgFontEmbeddingPolicy::OmitFont {
            reason: "Font permissions for 'Example Font' allow only bitmap embedding; omitting embedded font data from this SVG.".to_string(),
        }
    );
}

#[test]
fn svg_policy_full_embeds_when_subsetting_disallowed() {
    let policy = svg_embedding_policy_from_flags("Example Font", true, false, false, "Installable");
    assert_eq!(
        policy,
        SvgFontEmbeddingPolicy::EmbedFullFont {
            reason: "Font permissions for 'Example Font' disallow subsetting; embedding the full font data in this SVG.".to_string(),
        }
    );
}

#[test]
fn svg_policy_other_cases() {
    assert_eq!(
        svg_embedding_policy_from_flags("F", false, false, true, "Restricted"),
        SvgFontEmbeddingPolicy::OmitFont {
            reason: "Font permissions for 'F' do not allow outline embedding (Restricted); omitting embedded font data from this SVG.".to_string(),
        }
    );
    assert_eq!(
        svg_embedding_policy_from_flags("F", true, false, true, "Installable"),
        SvgFontEmbeddingPolicy::AllowSubsetting
    );
}

#[test]
fn parse_shell_command_handles_shell_forms() {
    let ok = |s: &str| parse_shell_command(s).unwrap();
    assert_eq!(ok("bash"), vec!["bash".to_string()]);
    assert_eq!(ok("/bin/bash"), vec!["/bin/bash".to_string()]);
    assert_eq!(ok("bash --norc"), vec!["bash".to_string(), "--norc".to_string()]);
    assert_eq!(
        ok("bash --rcfile somefile.rc"),
        vec!["bash".to_string(), "--rcfile".to_string(), "somefile.rc".to_string()]
    );
    assert_eq!(ok("fish"), vec!["fish".to_string()]);
    assert_eq!(ok("sh"), vec!["sh".to_string()]);
    assert_eq!(ok("/bin/sh"), vec!["/bin/sh".to_string()]);
}

#[test]
fn test_mimic_vhs_validation() {
    match resolve_shell_command(Some("bash --norc"), true, "/bin/sh") {
        Err(e) => assert!(e.message().contains("more than one word")),
        _ => panic!("expected error"),
    }
    match resolve_shell_command(Some("unknown_shell_xyz"), true, "/bin/sh") {
        Err(e) => assert!(e.message().contains("invalid shell")),
        _ => panic!("expected error"),
    }
    let c = resolve_shell_command(Some(" bash "), true, "/bin/sh").unwrap();
    assert_eq!(c.args[0], "bash");
    assert_eq!(c.args.len(), 6);
    assert_eq!(c.env[1], ("BASH_SILENCE_DEPRECATION_WARNING".to_string(), "1".to_string()));
    let c = resolve_shell_command(None, true, "/bin/sh").unwrap();
    assert_eq!(c.args[0], "bash");
    let c = resolve_shell_command(Some("cmd"), true, "/bin/sh").unwrap();
    assert_eq!(c.args, vec!["cmd.exe", "/k", "prompt=^> "]);
}

#[test]
fn shell_command_without_mimic() {
    let c = resolve_shell_command(Some("printenv LANG"), false, "/bin/zsh").unwrap();
    assert_eq!(c.args, vec!["printenv", "LANG"]);
    assert!(c.env.is_empty());
    let c = resolve_shell_command(Some("  "), false, "/bin/zsh").unwrap();
    assert_eq!(c.args, vec!["/bin/zsh"]);
    let c = resolve_shell_command(Some("# only a comment"), false, "/bin/zsh").unwrap();
    assert_eq!(c.args, vec!["/bin/zsh"]);
    assert!(matches!(
        resolve_shell_command(Some("bash 'open"), false, "/bin/zsh"),
        Err(ShellError::Invalid { .. })
    ));
    assert_eq!(command_arg0("/usr/bin/fish"), "fish");
    assert_eq!(command_arg0("fish"), "fish");
}

#[test]
fn utf8_locale_detection() {
    let none: Option<String> = None;
    assert!(!has_utf8_locale(&vec![], &none, &none, &none));
    assert!(has_utf8_locale(&vec![], &none, &none, &Some("en_US.UTF-8".to_string())));
    assert!(!has_utf8_locale(&vec![], &Some("C".to_string()), &none, &Some("en_US.utf8".to_string())));
    assert!(has_utf8_locale(
        &vec![("LC_ALL".to_string(), "C.Utf8".to_string())],
        &Some("C".to_string()),
        &none,
        &none
    ));
}

#[test]
fn gif_frames_and_delays() {
    let mut g = b"GIF89a".to_vec();
    g.extend_from_slice(&[2, 0, 2, 0, 0x80, 0, 0]);
    g.extend_from_slice(&[0; 6]);
    for delay in [7u16, 300] {
        g.extend_from_slice(&[0x21, 0xF9, 4, 0, (delay & 0xff) as u8, (delay >> 8) as u8, 0, 0]);
        g.extend_from_slice(&[0x2C, 0, 0, 0, 0, 2, 0, 2, 0, 0, 2, 2, 0x4c, 0x01, 0]);
    }
    g.extend_from_slice(&[0x21, 0xFE, 3, b'h', b'i', b'!', 0]);
    g.extend_from_slice(&[0x2C, 0, 0, 0, 0, 2, 0, 2, 0, 0, 2, 1, 0x44, 0]);
    g.push(0x3B);
    let frames = parse_gif_frames(&g).unwrap();
    assert_eq!(frames.len(), 3);
    assert_eq!((frames[0].index, frames[0].delay_ms), (0, 70));
    assert_eq!((frames[1].index, frames[1].delay_ms), (1, 3000));
    assert_eq!((frames[2].index, frames[2].delay_ms), (2, 0));
    assert_eq!(parse_gif_frames(b"GIF89a").unwrap_err(), GifError::TooShort);
    assert_eq!(parse_gif_frames(b"PNG89a1234567").unwrap_err(), GifError::BadHeader);
    assert_eq!(parse_gif_frames(b"GIF87a1234567").unwrap().len(), 0);
}

#[test]
fn binary_byte_counts() {
    assert_eq!(format_bytes(512), "512 B");
    assert_eq!(format_bytes(1536), "1.5 KB");
    assert_eq!(format_bytes(1280), "1.2 KB");
    assert_eq!(format_bytes(3 * 1048576 / 2), "1.50 MB");
    assert_eq!(format_bytes_with_count(2048), "2.0 KB (2048 B)");
    assert_eq!(format_bytes_with_count(10), "10 B");
}

#[test]
fn timings_accumulate_per_scope() {
    let mut reg = TimingRegistry::new();
    assert!(reg.record("render", 1_500_000));
    assert!(reg.record("parse", 10));
    assert!(reg.record("render", 2_600_000));
    let t = get_timings(&reg);
    assert_eq!(t.len(), 2);
    assert_eq!(t[0].0, "render");
    assert_eq!(t[0].1.total_ms, 4);
    assert_eq!(t[0].1.count, 2);
    assert_eq!(t[1].1.total_ms, 0);
    clear_timings(&mut reg);
    assert!(get_timings(&reg).is_empty());
}

#[test]
fn scope_timer_records_its_running_time() {
    let mut reg = TimingRegistry::new();
    assert!(ScopeTimer::new("load", 1_000).finish(&mut reg, 3_001_000));
    assert!(ScopeTimer::new("load", 5_000_000).finish(&mut reg, 4_000_000));
    let t = get_timings(&reg);
    assert_eq!(t.len(), 1);
    assert_eq!(t[0].0, "load");
    assert_eq!(t[0].1.total_ms, 3);
    assert_eq!(t[0].1.count, 2);
}
