use mfl_inv::alert::render_critical_alert;
use mfl_inv::severity::DefectSeverity;

const ALL: [DefectSeverity; 5] = [
    DefectSeverity::Normal,
    DefectSeverity::Mild,
    DefectSeverity::Moderate,
    DefectSeverity::Severe,
    DefectSeverity::Critical,
];

#[test]
fn color_codes_follow_the_palette() {
    assert_eq!(DefectSeverity::Normal.color_code(), 82);
    assert_eq!(DefectSeverity::Mild.color_code(), 190);
    assert_eq!(DefectSeverity::Moderate.color_code(), 214);
    assert_eq!(DefectSeverity::Severe.color_code(), 202);
    assert_eq!(DefectSeverity::Critical.color_code(), 196);
}

#[test]
fn labels_are_upper_case_names() {
    assert_eq!(DefectSeverity::Normal.label(), "NORMAL");
    assert_eq!(DefectSeverity::Mild.label(), "MILD");
    assert_eq!(DefectSeverity::Moderate.label(), "MODERATE");
    assert_eq!(DefectSeverity::Severe.label(), "SEVERE");
    assert_eq!(DefectSeverity::Critical.label(), "CRITICAL");
}

#[test]
fn distinct_severities_have_distinct_labels_and_colours() {
    for (i, a) in ALL.iter().enumerate() {
        for (j, b) in ALL.iter().enumerate() {
            if i != j {
                assert_ne!(a.label(), b.label());
                assert_ne!(a.color_code(), b.color_code());
            }
        }
    }
}

#[test]
fn severities_are_ordered_from_normal_to_critical() {
    for w in ALL.windows(2) {
        assert!(w[0] < w[1]);
    }
}

#[test]
fn critical_alert_is_the_full_banner() {
    let expected = String::new()
        + "\n\n"
        + "  \x1b[41;1;37m╔══════════════════════════════════════════════════════════════════════════════════╗\x1b[0m\n"
        + "  \x1b[41;1;37m║\x1b[0m  \x1b[41;1;37m▓▓▓▓▓▓▓▓▓▓▓▓▓▓▓▓▓▓▓▓▓▓▓▓▓▓▓▓▓▓▓▓▓▓▓▓▓▓▓▓▓▓▓▓▓▓▓▓▓▓▓▓▓▓▓▓▓▓▓▓▓▓▓▓▓▓▓▓▓▓▓▓▓▓▓▓\x1b[0m\n"
        + "  \x1b[41;1;37m║\x1b[0m  \x1b[41;1;37m▓▓  【 极 高 穿 孔 爆 破 风 险 】  EXTREME PERFORATION & BURST HAZARD  ▓▓\x1b[0m\n"
        + "  \x1b[41;1;37m║\x1b[0m  \x1b[41;1;37m▓▓▓▓▓▓▓▓▓▓▓▓▓▓▓▓▓▓▓▓▓▓▓▓▓▓▓▓▓▓▓▓▓▓▓▓▓▓▓▓▓▓▓▓▓▓▓▓▓▓▓▓▓▓▓▓▓▓▓▓▓▓▓▓▓▓▓▓▓▓▓▓▓▓▓▓▓▓▓▓▓▓\x1b[0m\n"
        + "  \x1b[41;1;37m║\x1b[0m                                                                              \x1b[41;1;37m║\x1b[0m\n"
        + "  \x1b[41;1;37m║\x1b[0m  \x1b[41;1;37m  OPERATING PRESSURE EXCEEDS MAOP LIMIT - IMMEDIATE SHUTDOWN REQUIRED  \x1b[0m\n"
        + "  \x1b[41;1;37m║\x1b[0m  \x1b[41;1;37m  运 行 压 力 已 超 过 MAOP 临 界 线  -  立 即 停 运 隔 离 管 段  \x1b[0m\n"
        + "  \x1b[41;1;37m║\x1b[0m                                                                              \x1b[41;1;37m║\x1b[0m\n"
        + "  \x1b[41;1;37m╚══════════════════════════════════════════════════════════════════════════════════╝\x1b[0m\n"
        + "\n\n";
    let alert = render_critical_alert();
    assert_eq!(alert, expected);
    assert!(alert.starts_with("\n\n"));
    assert!(alert.ends_with("\n\n"));
    assert!(alert.contains("EXTREME PERFORATION & BURST HAZARD"));
    assert!(alert.contains("IMMEDIATE SHUTDOWN REQUIRED"));
}
