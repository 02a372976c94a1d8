use eurochef::entities::TriStrip;
use eurochef::platform::Platform;
use eurochef::viewer::render::{
    blend_settings, is_transparent_strip, sort_by_transparency, strip_draw, BlendEquation, BlendFactor, BlendFunction, BlendMode,
    BlendSettings, CameraType, GridRenderer, LinkLineRenderer, PickBufferType, StripDraw,
};
use eurochef::viewer::text::{cutoff_string, remove_stacktrace, strip_ansi_codes, try_remove_stacktrace};

#[test]
fn ansi_codes_removed() {
    assert_eq!(strip_ansi_codes("\x1b[31mred\x1b[0m plain"), "red plain");
    assert_eq!(strip_ansi_codes("a\x1b[1;2"), "a");
    assert_eq!(strip_ansi_codes("no codes"), "no codes");
    let once = strip_ansi_codes("\x1b[1m\x1b[32mok\x1b[0m");
    assert_eq!(strip_ansi_codes(&once), once);
    assert!(!once.contains('\x1b'));
}

#[test]
fn names_cut_to_width() {
    assert_eq!(cutoff_string("hello".to_string(), 10), "hello");
    assert_eq!(cutoff_string("hello".to_string(), 5), "hello");
    assert_eq!(cutoff_string("hello".to_string(), 3), "hel...");
    assert_eq!(cutoff_string("héllo".to_string(), 2), "h\u{fffd}...");
    assert_eq!(cutoff_string("héllo".to_string(), 3), "hé...");
    assert_eq!(cutoff_string("hello".to_string(), 0), "...");
    assert_eq!(cutoff_string(String::new(), 0), "");
}

#[test]
fn backtraces_removed() {
    assert_eq!(remove_stacktrace("Error: x\n\nStack backtrace:\n 0: foo"), "Error: x");
    assert_eq!(remove_stacktrace("  plain  "), "  plain  ");
    assert_eq!(remove_stacktrace("STACK BACKTRACE: all"), "");
}

#[test]
fn backtrace_offsets_that_cannot_be_cut() {
    let long: String = "İ".repeat(20) + "stack backtrace:";
    assert_eq!(try_remove_stacktrace(&long), None);
    assert_eq!(try_remove_stacktrace("ẞéstack backtrace:"), None);
    assert_eq!(try_remove_stacktrace("Error\nstack backtrace:"), Some("Error".to_string()));
}

#[test]
fn blending() {
    assert_eq!(
        blend_settings(BlendMode::Blend),
        BlendSettings {
            blend: true,
            alpha_to_coverage: false,
            function: Some(BlendFunction { equation: BlendEquation::Add, src: BlendFactor::SrcAlpha, dst: BlendFactor::OneMinusSrcAlpha }),
        }
    );
    assert_eq!(blend_settings(BlendMode::Cutout), BlendSettings { blend: false, alpha_to_coverage: true, function: None });
    assert_eq!(blend_settings(BlendMode::Disabled), BlendSettings { blend: false, alpha_to_coverage: false, function: None });
    assert_eq!(
        blend_settings(BlendMode::ReverseSubtract).function,
        Some(BlendFunction { equation: BlendEquation::ReverseSubtract, src: BlendFactor::SrcAlpha, dst: BlendFactor::One })
    );
    assert_eq!(blend_settings(BlendMode::Additive).function.map(|f| f.dst), Some(BlendFactor::One));
}

#[test]
fn viewer_parts() {
    assert_eq!(GridRenderer::new(30).line_vertex_count(), 124);
    assert_eq!(PickBufferType::Trigger.id(), 1);
    assert!(LinkLineRenderer::new().is_ok());
    assert_eq!(CameraType::Orbit.to_string(), "Orbit");
    assert_eq!(CameraType::Fly.to_string(), "Fly");
}

fn tri(transparency: u16, flags: u16, start_index: u32) -> TriStrip {
    TriStrip { start_index, index_count: 3, texture_index: 0, transparency, flags, tri_count: 1 }
}

#[test]
fn strip_drawing() {
    assert_eq!(strip_draw(&tri(0, 0x10, 0), Platform::Pc), None);
    assert_eq!(strip_draw(&tri(2, 0, 0), Platform::Pc), Some(StripDraw { blend: BlendMode::ReverseSubtract, cull_faces: true }));
    assert_eq!(strip_draw(&tri(0x101, 0, 0), Platform::Pc), Some(StripDraw { blend: BlendMode::Additive, cull_faces: true }));
    assert_eq!(strip_draw(&tri(0, 0x8, 0), Platform::Wii), Some(StripDraw { blend: BlendMode::Blend, cull_faces: false }));
    assert_eq!(strip_draw(&tri(0, 0x41, 0), Platform::Xbox), Some(StripDraw { blend: BlendMode::Blend, cull_faces: false }));
    assert_eq!(strip_draw(&tri(0, 0, 0), Platform::Ps2), Some(StripDraw { blend: BlendMode::Disabled, cull_faces: false }));
    assert!(is_transparent_strip(&tri(1, 0, 0)));
    assert!(is_transparent_strip(&tri(0, 8, 0)));
    assert!(!is_transparent_strip(&tri(0, 1, 0)));
}

#[test]
fn strips_sorted_by_transparency() {
    let mut strips = vec![tri(2, 0, 0), tri(0, 0, 1), tri(1, 0, 2), tri(0, 0, 3), tri(2, 0, 4)];
    sort_by_transparency(&mut strips);
    let order: Vec<u32> = strips.iter().map(|t| t.start_index).collect();
    assert_eq!(order, vec![1, 3, 2, 0, 4]);
}
