use stitchlands::commands::probe::{probe_plan, probe_report};

fn s(v: &str) -> String {
    v.to_string()
}

#[test]
fn probe_plan_sorts_by_name_and_skips_defs_without_texture() {
    let names = vec![s("Zed"), s("Alpha"), s("Mid"), s("Beta")];
    let textures = vec![Some(s("Things/Z")), Some(s("Things/A")), None, Some(s(""))];
    let (targets, skipped) = probe_plan(&names, &textures);
    assert_eq!(targets, vec![s("Things/A"), s("Things/Z")]);
    assert_eq!(skipped, 2);
}

#[test]
fn probe_report_pads_the_label_and_notes_skips() {
    let line = probe_report("body", &[false, true, false], 1);
    assert_eq!(line, "body     decoded=2/3 fallback=1 skipped=1");
}

#[test]
fn probe_report_omits_skips_when_none() {
    let line = probe_report("apparel", &[true], 0);
    assert_eq!(line, "apparel  decoded=0/1 fallback=1");
    let long = probe_report("longlabel", &[], 0);
    assert_eq!(long, "longlabel decoded=0/0 fallback=0");
}
