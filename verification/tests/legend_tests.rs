use mfl_inv::legend::{color_start, legend_table, push_decimal, wall_loss_range};
use mfl_inv::map_layout::tick_columns;
use mfl_inv::severity::DefectSeverity;

const ROWS: [(DefectSeverity, &str); 5] = [
    (DefectSeverity::Normal, "0% - 10% wall loss"),
    (DefectSeverity::Mild, "10% - 25% wall loss"),
    (DefectSeverity::Moderate, "25% - 40% wall loss"),
    (DefectSeverity::Severe, "40% - 60% wall loss"),
    (DefectSeverity::Critical, "> 60% wall loss"),
];

const TITLE: &str = "  ═══════════════════ SEVERITY LEGEND ═══════════════════\n\n";

#[test]
fn decimal_notation() {
    let mut s = String::from("x");
    push_decimal(&mut s, 0);
    assert_eq!(s, "x0");
    let mut s = String::new();
    push_decimal(&mut s, 196);
    assert_eq!(s, "196");
    let mut s = String::new();
    push_decimal(&mut s, u64::MAX);
    assert_eq!(s, u64::MAX.to_string());
    for n in [1u64, 9, 10, 99, 100, 1000, 123_456_789] {
        let mut s = String::new();
        push_decimal(&mut s, n);
        assert_eq!(s, n.to_string());
    }
}

#[test]
fn colour_escape_of_each_severity() {
    assert_eq!(color_start(DefectSeverity::Normal), "\x1b[38;5;82m");
    assert_eq!(color_start(DefectSeverity::Mild), "\x1b[38;5;190m");
    assert_eq!(color_start(DefectSeverity::Moderate), "\x1b[38;5;214m");
    assert_eq!(color_start(DefectSeverity::Severe), "\x1b[38;5;202m");
    assert_eq!(color_start(DefectSeverity::Critical), "\x1b[38;5;196m");
}

#[test]
fn wall_loss_ranges() {
    for (sev, desc) in ROWS {
        assert_eq!(wall_loss_range(sev), desc);
    }
}

#[test]
fn plain_legend_table() {
    let mut expected = String::from(TITLE);
    for (sev, desc) in ROWS {
        expected += &format!("    {}  {:<8}  {}\n", "████████", sev.label(), desc);
    }
    assert_eq!(legend_table(false), expected);
    assert!(legend_table(false).contains("    ████████  MILD      10% - 25% wall loss\n"));
}

#[test]
fn coloured_legend_table() {
    let mut expected = String::from(TITLE);
    for (sev, desc) in ROWS {
        expected += &format!(
            "    \x1b[38;5;{}m{}\x1b[0m  {:<8}  {}\n",
            sev.color_code(),
            "████████",
            sev.label(),
            desc
        );
    }
    assert_eq!(legend_table(true), expected);
}

#[test]
fn tick_columns_of_wide_and_narrow_maps() {
    assert_eq!(tick_columns(100), vec![0, 20, 40, 60, 80]);
    assert_eq!(tick_columns(101), vec![0, 20, 40, 60, 80, 100]);
    assert_eq!(tick_columns(7), vec![0, 1, 2, 3, 4, 5]);
    assert_eq!(tick_columns(3), vec![0; 6]);
    assert_eq!(tick_columns(0), Vec::<usize>::new());
}

#[test]
fn tick_columns_are_the_drawn_ticks() {
    for d in 0usize..300 {
        let step = d / 5;
        let drawn: Vec<usize> = (0..=5).map(|i| i * step).filter(|&p| p < d).collect();
        assert_eq!(tick_columns(d), drawn);
    }
}
