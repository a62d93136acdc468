use vstd::prelude::*;
use vstd::string::StringExecFns;
use vstd::string::StrSliceExecFns;
use crate::severity::{DefectSeverity, spec_color_code, spec_label};

verus! {

/// The decimal digit character for `d < 10`.
pub open spec fn digit_char(d: nat) -> char {
    if d == 0 {
        '0'
    } else if d == 1 {
        '1'
    } else if d == 2 {
        '2'
    } else if d == 3 {
        '3'
    } else if d == 4 {
        '4'
    } else if d == 5 {
        '5'
    } else if d == 6 {
        '6'
    } else if d == 7 {
        '7'
    } else if d == 8 {
        '8'
    } else {
        '9'
    }
}

/// Decimal notation of `n`, without leading zeros.
pub open spec fn decimal(n: nat) -> Seq<char>
    decreases n,
{
    if n < 10 {
        seq![digit_char(n)]
    } else {
        decimal(n / 10).push(digit_char(n % 10))
    }
}

/// `s` followed by spaces up to `width` characters, as `{:<width}` prints it.
pub open spec fn pad_right(s: Seq<char>, width: nat) -> Seq<char> {
    if s.len() >= width {
        s
    } else {
        s + Seq::new((width - s.len()) as nat, |i: int| ' ')
    }
}

/// The escape sequence that switches the terminal to the colour of `sev`.
pub open spec fn color_start_text(sev: DefectSeverity) -> Seq<char> {
    "\x1b[38;5;"@ + decimal(spec_color_code(sev) as nat) + "m"@
}

/// Wall-loss range that each severity stands for, as the legend describes it.
pub open spec fn spec_wall_loss_range(sev: DefectSeverity) -> Seq<char> {
    match sev {
        DefectSeverity::Normal => "0% - 10% wall loss"@,
        DefectSeverity::Mild => "10% - 25% wall loss"@,
        DefectSeverity::Moderate => "25% - 40% wall loss"@,
        DefectSeverity::Severe => "40% - 60% wall loss"@,
        DefectSeverity::Critical => "> 60% wall loss"@,
    }
}

/// One legend line: a colour swatch, the padded label and the wall-loss range.
pub open spec fn legend_row_text(sev: DefectSeverity, color_enabled: bool) -> Seq<char> {
    let swatch = if color_enabled {
        color_start_text(sev) + "████████"@ + "\x1b[0m"@
    } else {
        "████████"@
    };
    "    "@ + swatch + "  "@ + pad_right(spec_label(sev), 8) + "  "@ + spec_wall_loss_range(sev) + "\n"@
}

/// The severity legend: its title, a blank line and one line per severity, from
/// normal to critical.
pub open spec fn legend_table_text(color_enabled: bool) -> Seq<char> {
    "  ═══════════════════ SEVERITY LEGEND ═══════════════════\n"@ + "\n"@
        + legend_row_text(DefectSeverity::Normal, color_enabled)
        + legend_row_text(DefectSeverity::Mild, color_enabled)
        + legend_row_text(DefectSeverity::Moderate, color_enabled)
        + legend_row_text(DefectSeverity::Severe, color_enabled)
        + legend_row_text(DefectSeverity::Critical, color_enabled)
}

/// The one-character string of digit `d`.
fn digit_str(d: u64) -> (s: &'static str)
    requires
        d < 10,
    ensures
        s@ == seq![digit_char(d as nat)],
{
    proof {
        reveal_strlit("0");
        reveal_strlit("1");
        reveal_strlit("2");
        reveal_strlit("3");
        reveal_strlit("4");
        reveal_strlit("5");
        reveal_strlit("6");
        reveal_strlit("7");
        reveal_strlit("8");
        reveal_strlit("9");
    }
    if d == 0 {
        "0"
    } else if d == 1 {
        "1"
    } else if d == 2 {
        "2"
    } else if d == 3 {
        "3"
    } else if d == 4 {
        "4"
    } else if d == 5 {
        "5"
    } else if d == 6 {
        "6"
    } else if d == 7 {
        "7"
    } else if d == 8 {
        "8"
    } else {
        "9"
    }
}

/// Appends the decimal notation of `n` to `s`.
pub fn push_decimal(s: &mut String, n: u64)
    ensures
        final(s)@ == old(s)@ + decimal(n as nat),
    decreases n,
{
    if n >= 10 {
        push_decimal(s, n / 10);
    }
    s.append(digit_str(n % 10));
    proof {
        if n >= 10 {
            assert(decimal(n as nat) == decimal((n / 10) as nat).push(digit_char((n % 10) as nat)));
        }
    }
}

/// Appends `text` padded with spaces to `width` characters.
fn push_padded(s: &mut String, text: &str, width: usize)
    ensures
        final(s)@ == old(s)@ + pad_right(text@, width as nat),
{
    s.append(text);
    let n = text.unicode_len();
    let mut k = n;
    while k < width
        invariant
            n == text@.len(),
            n <= k,
            k <= width || k == n,
            s@ == old(s)@ + text@ + Seq::new((k - n) as nat, |i: int| ' '),
        decreases width - k,
    {
        s.append(" ");
        proof {
            reveal_strlit(" ");
            let pad = Seq::new((k - n) as nat, |i: int| ' ');
            assert(pad.push(' ') =~= Seq::new((k + 1 - n) as nat, |i: int| ' '));
            assert(s@ =~= old(s)@ + text@ + pad.push(' '));
        }
        k = k + 1;
    }
    proof {
        if n >= width {
            assert(Seq::new((k - n) as nat, |i: int| ' ') =~= Seq::<char>::empty());
            assert(old(s)@ + text@ + Seq::<char>::empty() =~= old(s)@ + text@);
        } else {
            assert(k == width);
        }
        assert(old(s)@ + text@ + Seq::new((k - n) as nat, |i: int| ' ') =~= old(s)@ + (text@
            + Seq::new((k - n) as nat, |i: int| ' ')));
    }
}

/// The escape sequence that switches the terminal to the colour of `sev`.
pub fn color_start(sev: DefectSeverity) -> (s: String)
    ensures
        s@ == color_start_text(sev),
{
    let mut s = String::new();
    s.append("\x1b[38;5;");
    push_decimal(&mut s, sev.color_code() as u64);
    s.append("m");
    s
}

/// Wall-loss range that a severity stands for.
pub fn wall_loss_range(sev: DefectSeverity) -> (text: &'static str)
    ensures
        text@ == spec_wall_loss_range(sev),
{
    match sev {
        DefectSeverity::Normal => "0% - 10% wall loss",
        DefectSeverity::Mild => "10% - 25% wall loss",
        DefectSeverity::Moderate => "25% - 40% wall loss",
        DefectSeverity::Severe => "40% - 60% wall loss",
        DefectSeverity::Critical => "> 60% wall loss",
    }
}

fn push_legend_row(s: &mut String, sev: DefectSeverity, color_enabled: bool)
    ensures
        final(s)@ == old(s)@ + legend_row_text(sev, color_enabled),
{
    s.append("    ");
    if color_enabled {
        let start = color_start(sev);
        s.append(start.as_str());
        s.append("████████");
        s.append("\x1b[0m");
    } else {
        s.append("████████");
    }
    s.append("  ");
    push_padded(s, sev.label(), 8);
    s.append("  ");
    s.append(wall_loss_range(sev));
    s.append("\n");
    proof {
        let swatch = if color_enabled {
            color_start_text(sev) + "████████"@ + "\x1b[0m"@
        } else {
            "████████"@
        };
        assert(final(s)@ =~= old(s)@ + ("    "@ + swatch + "  "@ + pad_right(spec_label(sev), 8) + "  "@
            + spec_wall_loss_range(sev) + "\n"@));
    }
}

/// The severity legend of the wall map, with colour swatches when
/// `color_enabled`.
pub fn legend_table(color_enabled: bool) -> (s: String)
    ensures
        s@ == legend_table_text(color_enabled),
{
    let mut s = String::new();
    s.append("  ═══════════════════ SEVERITY LEGEND ═══════════════════\n");
    s.append("\n");
    push_legend_row(&mut s, DefectSeverity::Normal, color_enabled);
    push_legend_row(&mut s, DefectSeverity::Mild, color_enabled);
    push_legend_row(&mut s, DefectSeverity::Moderate, color_enabled);
    push_legend_row(&mut s, DefectSeverity::Severe, color_enabled);
    push_legend_row(&mut s, DefectSeverity::Critical, color_enabled);
    s
}

} // verus!
