use cargo_stitch::status::{cargo_status, Status};
use cargo_stitch::stitch::Stitch;

fn status(label: &'static str, message: &str) -> Status {
    Status { label, message: message.to_string() }
}

#[test]
fn status_lines_look_like_the_build_tool_s() {
    for (label, message) in [
        ("Patching", "001-fix.patch"),
        ("Applied", "1 changes"),
        ("Stitching", ""),
        ("", "x"),
        ("TwelveWide12", "y"),
        ("MoreThanTwelveWide", "z"),
        ("Ünïcödé", "é"),
    ] {
        assert_eq!(
            cargo_status(label, message),
            format!("\x1b[1;33m{label:>12}\x1b[0m {message}"),
            "status line for {:?}",
            label
        );
    }
    assert_eq!(cargo_status("Patching", "a.patch"), "\x1b[1;33m    Patching\x1b[0m a.patch");
    assert_eq!(status("Applied", "2 changes").line(), "\x1b[1;33m     Applied\x1b[0m 2 changes");
}

#[test]
fn a_patch_is_reported_by_its_file_name() {
    let patch = Stitch::Patch("/ws/stitches/crate-a/001-fix.patch".to_string());
    assert_eq!(patch.progress(""), vec![status("Patching", "001-fix.patch")]);
    assert_eq!(patch.progress("whatever\nthe engine said"), vec![status("Patching", "001-fix.patch")]);
    assert_eq!(Stitch::Patch("..".to_string()).progress(""), vec![status("Patching", "")]);
}

#[test]
fn a_rule_is_reported_by_what_the_engine_said() {
    let rule = Stitch::SgRule("/ws/stitches/crate-a/002-rename.yaml".to_string());
    assert_eq!(rule.progress(""), Vec::<Status>::new());
    assert_eq!(
        rule.progress("Applied 1 changes\n\n  note: something  \r\nAppliedApplied  twice\nApplie\n"),
        vec![
            status("Applied", "1 changes"),
            status("Stitching", "note: something"),
            status("Applied", "twice"),
            status("Stitching", "Applie"),
        ]
    );
    assert_eq!(rule.progress("   \nApplied"), vec![status("Stitching", ""), status("Applied", "")]);
}

#[test]
fn rule_reports_agree_with_the_platform_s_text_functions() {
    let rule = Stitch::SgRule("r.yml".to_string());
    let reports = [
        "Applied 3 changes",
        "warning: x\nApplied 1 changes\n",
        " Applied 1\n",
        "AppliedAppliedApplied\n\ttab\u{a0}\n",
        "a\r\nb\rc\n\n",
    ];
    for report in reports {
        let mut expected = Vec::new();
        for line in report.lines() {
            if line.starts_with("Applied") {
                expected.push(status("Applied", line.trim_start_matches("Applied").trim()));
            } else if !line.is_empty() {
                expected.push(status("Stitching", line.trim()));
            }
        }
        assert_eq!(rule.progress(report), expected, "report {:?}", report);
    }
}

#[test]
fn rule_reports_agree_on_every_short_report() {
    let rule = Stitch::SgRule("r.yml".to_string());
    let pieces = ["Applied", "\n", " ", "x", "\r"];
    let mut reports = vec![String::new()];
    let mut last = vec![String::new()];
    for _ in 0..5 {
        let mut next = Vec::new();
        for report in &last {
            for piece in pieces {
                next.push(format!("{}{}", report, piece));
            }
        }
        reports.extend(next.iter().cloned());
        last = next;
    }
    for report in &reports {
        let mut expected = Vec::new();
        for line in report.lines() {
            if line.starts_with("Applied") {
                expected.push(status("Applied", line.trim_start_matches("Applied").trim()));
            } else if !line.is_empty() {
                expected.push(status("Stitching", line.trim()));
            }
        }
        assert_eq!(rule.progress(report), expected, "report {:?}", report);
    }
}
