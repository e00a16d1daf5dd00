use audit_core::auditing::info::{
    call_stack_report, context_window, decl_signature, effect_src_plan, fn_decl_info,
    line_byte_ranges, missing_fn_decl_info, plan_labels, CallStackInfo, Config, LabelPlan,
    RenderError,
};
use audit_core::canonical::CanonicalPath;
use audit_core::effect::{Effect, EffectInfo, EffectInstance, SrcLoc};

fn loc(start: usize, end: usize) -> SrcLoc {
    SrcLoc::new("src".to_string(), "main.rs".to_string(), start, end)
}

#[test]
fn line_ranges_count_the_removed_terminator() {
    let r = line_byte_ranges(&b"ab\nc".to_vec());
    assert_eq!(r, vec![(0, 3), (3, 5)]);
    let r2 = line_byte_ranges(&b"ab\n".to_vec());
    assert_eq!(r2, vec![(0, 3), (3, 4)]);
    let r3 = line_byte_ranges(&b"".to_vec());
    assert_eq!(r3, vec![(0, 1)]);
}

#[test]
fn window_clamps_to_last_line_of_file() {
    let cfg = Config::new(1, 200, false);
    assert_eq!(context_window(1, 2, 3, &cfg), (0, 2));
    let cfg2 = Config::new(4, 1, false);
    assert_eq!(context_window(0, 0, 1, &cfg2), (0, 0));
    assert_eq!(context_window(10, 11, 20, &cfg2), (6, 12));
}

#[test]
fn config_defaults_and_expansion() {
    let mut cfg = Config::default();
    assert_eq!(cfg.lines_before(), 4);
    assert_eq!(cfg.lines_after(), 1);
    assert!(!cfg.allow_effect_origin);
    cfg.expand_context();
    assert_eq!(cfg.lines_before(), 9);
    assert_eq!(cfg.lines_after(), 6);
}

#[test]
fn label_layout_merges_by_declaration_position() {
    // ten lines of one byte each: line k covers bytes [2k, 2k+2)
    let src: Vec<u8> = b"a\na\na\na\na\na\na\na\na\na".to_vec();
    let ranges = line_byte_ranges(&src);
    assert_eq!(ranges.len(), 10);

    let separate = plan_labels(&ranges, 5, 5, (4, 6), Some((0, 1)));
    assert_eq!(
        separate,
        Ok(LabelPlan::SeparateDecl { effect: (10, 12), decl: (0, 4), window: (8, 14) })
    );

    let merged = plan_labels(&ranges, 5, 5, (4, 6), Some((3, 5)));
    assert_eq!(merged, Ok(LabelPlan::MergedWindow { effect: (10, 12), window: (6, 14) }));

    let inside = plan_labels(&ranges, 5, 5, (4, 6), Some((4, 5)));
    assert_eq!(inside, Ok(LabelPlan::Window { effect: (10, 12), window: (8, 14) }));

    let unknown = plan_labels(&ranges, 5, 5, (4, 6), None);
    assert_eq!(unknown, Ok(LabelPlan::Window { effect: (10, 12), window: (8, 14) }));

    let stale = plan_labels(&ranges, 25, 25, (4, 6), None);
    assert_eq!(stale, Err(RenderError::LineOutOfRange));
}

#[test]
fn origin_frame_gets_kind_label_other_frames_get_fixed_note() {
    let caller = CanonicalPath::new("mycrate::run");
    let origin = EffectInstance::new(
        caller.clone(),
        Effect::SinkCall("std::process::exit".to_string()),
    );
    let src = b"fn run() {\n    exit(1);\n}\n".to_vec();
    let effect = EffectInfo::new(caller.clone(), loc(2, 2));
    let plan = effect_src_plan(&src, &origin, &effect, None, &Config::default()).unwrap();
    assert_eq!(plan.message, "sink call: std::process::exit");

    let other = EffectInfo::new(CanonicalPath::new("mycrate::outer"), loc(2, 2));
    let plan2 = effect_src_plan(&src, &origin, &other, None, &Config::default()).unwrap();
    assert_eq!(plan2.message, "call safety marked as caller-checked");

    let ffi = EffectInstance::new(caller.clone(), Effect::FFICall("libc::open".to_string()));
    let effect3 = EffectInfo::new(caller.clone(), loc(2, 2));
    let plan3 = effect_src_plan(&src, &ffi, &effect3, None, &Config::default()).unwrap();
    assert_eq!(plan3.message, "ffi call: libc::open");

    let fnptr = EffectInstance::new(caller.clone(), Effect::FnPtrCreation);
    let plan4 = effect_src_plan(&src, &fnptr, &effect3, None, &Config::default()).unwrap();
    assert_eq!(
        plan4.message,
        "function pointer creation (verify the function is always safe to call)"
    );
}

#[test]
fn caller_checked_note_even_for_same_path_at_other_location() {
    let mut a = CanonicalPath::new("mycrate::run");
    let origin_caller = a.add_src_loc(loc(1, 4));
    let origin = EffectInstance::new(origin_caller, Effect::UnsafeCall("ptr::read".to_string()));
    let frame = EffectInfo::new(CanonicalPath::new("mycrate::run"), loc(2, 2));
    let src = b"fn run() {\n    x;\n}\n".to_vec();
    let plan = effect_src_plan(&src, &origin, &frame, None, &Config::default()).unwrap();
    assert_eq!(plan.message, "call safety marked as caller-checked");
}

#[test]
fn effect_plan_rejects_stale_locations() {
    let caller = CanonicalPath::new("mycrate::run");
    let origin = EffectInstance::new(caller.clone(), Effect::RawPtrCast);
    let src = b"one line".to_vec();
    let effect = EffectInfo::new(caller, loc(40, 41));
    let r = effect_src_plan(&src, &origin, &effect, None, &Config::default());
    assert_eq!(r.err(), Some(RenderError::LineOutOfRange));
}

#[test]
fn window_end_clamps_inside_effect_plan() {
    let caller = CanonicalPath::new("mycrate::run");
    let origin = EffectInstance::new(caller.clone(), Effect::RawPointer("p".to_string()));
    // two lines; effect on the last one, lines_after far past the end
    let src = b"fn run() {\n}".to_vec();
    let effect = EffectInfo::new(caller, loc(2, 2));
    let plan = effect_src_plan(&src, &origin, &effect, None, &Config::new(0, 250, false))
        .unwrap();
    assert_eq!(plan.labels, LabelPlan::Window { effect: (11, 13), window: (11, 13) });
}

#[test]
fn effect_plan_separates_a_declaration_far_above_the_window() {
    let caller = CanonicalPath::new("mycrate::run");
    let origin = EffectInstance::new(caller.clone(), Effect::UnionField("u.f".to_string()));
    // ten one-byte lines; effect at 1-indexed line 6, window lines 4..=6,
    // declaration at 1-indexed lines 1..=2, entirely above the window
    let src: Vec<u8> = b"a\na\na\na\na\na\na\na\na\na".to_vec();
    let effect = EffectInfo::new(caller, loc(6, 6));
    let decl = loc(1, 2);
    let cfg = Config::new(1, 1, false);
    let plan = effect_src_plan(&src, &origin, &effect, Some(&decl), &cfg).unwrap();
    assert_eq!(
        plan.labels,
        LabelPlan::SeparateDecl { effect: (10, 12), decl: (0, 4), window: (8, 14) }
    );
    assert_eq!(plan.message, "union access: u.f");
}

#[test]
fn declaration_signature_is_text_before_brace_trimmed() {
    let src = "mod m;\n    fn run(x: u8) -> u8 {\n        x\n    }\n";
    assert_eq!(decl_signature(src, 2), Ok("fn run(x: u8) -> u8".to_string()));
    assert_eq!(decl_signature(src, 1), Ok("mod m;".to_string()));
    assert_eq!(decl_signature(src, 99), Err(RenderError::LineOutOfRange));

    let info = fn_decl_info(src, &loc(2, 4)).unwrap();
    assert_eq!(info.fn_string, Some("fn run(x: u8) -> u8".to_string()));
    assert_eq!(info.filename, "src/main.rs");
    assert_eq!(info.lineno, 2);
}

#[test]
fn missing_declaration_entry_has_sentinel_and_call_site() {
    let info = missing_fn_decl_info(&loc(7, 9));
    assert_eq!(info.fn_string, None);
    assert_eq!(info.filename, "src/main.rs");
    assert_eq!(info.lineno, 7);
}

#[test]
fn empty_history_prints_no_header_and_no_lines() {
    let curr = CallStackInfo::new(Some("fn a()".to_string()), "a.rs".to_string(), 4);
    let out = call_stack_report(curr, vec![]);
    assert!(out.is_empty());
}

#[test]
fn call_stack_lists_current_then_history_nearest_first() {
    let curr = CallStackInfo::new(Some("fn c()".to_string()), "c.rs".to_string(), 2);
    let oldest = CallStackInfo::new(None, "a.rs".to_string(), 0);
    let nearer = CallStackInfo::new(Some("fn b()".to_string()), "b.rs".to_string(), 9);
    let out = call_stack_report(curr, vec![oldest, nearer]);
    assert_eq!(
        out,
        vec![
            "EffectInstance call stack:".to_string(),
            "c.rs:3".to_string(),
            "    fn c()".to_string(),
            "b.rs:10".to_string(),
            "    fn b()".to_string(),
            "a.rs:1".to_string(),
            "    Missing fn decl".to_string(),
        ]
    );
}
