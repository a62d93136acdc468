use vstd::prelude::*;
use vstd::string::StringExecFns;

verus! {

/// Text of the banner shown when the operating pressure exceeds the allowable limit.
pub open spec fn critical_alert_text() -> Seq<char> {
    "\n\n"@
        + "  \x1b[41;1;37m╔══════════════════════════════════════════════════════════════════════════════════╗\x1b[0m\n"@
        + "  \x1b[41;1;37m║\x1b[0m  \x1b[41;1;37m▓▓▓▓▓▓▓▓▓▓▓▓▓▓▓▓▓▓▓▓▓▓▓▓▓▓▓▓▓▓▓▓▓▓▓▓▓▓▓▓▓▓▓▓▓▓▓▓▓▓▓▓▓▓▓▓▓▓▓▓▓▓▓▓▓▓▓▓▓▓▓▓▓▓▓▓\x1b[0m\n"@
        + "  \x1b[41;1;37m║\x1b[0m  \x1b[41;1;37m▓▓  【 极 高 穿 孔 爆 破 风 险 】  EXTREME PERFORATION & BURST HAZARD  ▓▓\x1b[0m\n"@
        + "  \x1b[41;1;37m║\x1b[0m  \x1b[41;1;37m▓▓▓▓▓▓▓▓▓▓▓▓▓▓▓▓▓▓▓▓▓▓▓▓▓▓▓▓▓▓▓▓▓▓▓▓▓▓▓▓▓▓▓▓▓▓▓▓▓▓▓▓▓▓▓▓▓▓▓▓▓▓▓▓▓▓▓▓▓▓▓▓▓▓▓▓▓▓▓▓▓▓\x1b[0m\n"@
        + "  \x1b[41;1;37m║\x1b[0m                                                                              \x1b[41;1;37m║\x1b[0m\n"@
        + "  \x1b[41;1;37m║\x1b[0m  \x1b[41;1;37m  OPERATING PRESSURE EXCEEDS MAOP LIMIT - IMMEDIATE SHUTDOWN REQUIRED  \x1b[0m\n"@
        + "  \x1b[41;1;37m║\x1b[0m  \x1b[41;1;37m  运 行 压 力 已 超 过 MAOP 临 界 线  -  立 即 停 运 隔 离 管 段  \x1b[0m\n"@
        + "  \x1b[41;1;37m║\x1b[0m                                                                              \x1b[41;1;37m║\x1b[0m\n"@
        + "  \x1b[41;1;37m╚══════════════════════════════════════════════════════════════════════════════════╝\x1b[0m\n"@
        + "\n\n"@
}

/// The banner shown when the operating pressure exceeds the allowable limit.
pub fn render_critical_alert() -> (s: String)
    ensures
        s@ == critical_alert_text(),
{
    let mut s = String::new();
    s.append("\n\n");
    s.append("  \x1b[41;1;37m╔══════════════════════════════════════════════════════════════════════════════════╗\x1b[0m\n");
    s.append("  \x1b[41;1;37m║\x1b[0m  \x1b[41;1;37m▓▓▓▓▓▓▓▓▓▓▓▓▓▓▓▓▓▓▓▓▓▓▓▓▓▓▓▓▓▓▓▓▓▓▓▓▓▓▓▓▓▓▓▓▓▓▓▓▓▓▓▓▓▓▓▓▓▓▓▓▓▓▓▓▓▓▓▓▓▓▓▓▓▓▓▓\x1b[0m\n");
    s.append("  \x1b[41;1;37m║\x1b[0m  \x1b[41;1;37m▓▓  【 极 高 穿 孔 爆 破 风 险 】  EXTREME PERFORATION & BURST HAZARD  ▓▓\x1b[0m\n");
    s.append("  \x1b[41;1;37m║\x1b[0m  \x1b[41;1;37m▓▓▓▓▓▓▓▓▓▓▓▓▓▓▓▓▓▓▓▓▓▓▓▓▓▓▓▓▓▓▓▓▓▓▓▓▓▓▓▓▓▓▓▓▓▓▓▓▓▓▓▓▓▓▓▓▓▓▓▓▓▓▓▓▓▓▓▓▓▓▓▓▓▓▓▓▓▓▓▓▓▓\x1b[0m\n");
    s.append("  \x1b[41;1;37m║\x1b[0m                                                                              \x1b[41;1;37m║\x1b[0m\n");
    s.append("  \x1b[41;1;37m║\x1b[0m  \x1b[41;1;37m  OPERATING PRESSURE EXCEEDS MAOP LIMIT - IMMEDIATE SHUTDOWN REQUIRED  \x1b[0m\n");
    s.append("  \x1b[41;1;37m║\x1b[0m  \x1b[41;1;37m  运 行 压 力 已 超 过 MAOP 临 界 线  -  立 即 停 运 隔 离 管 段  \x1b[0m\n");
    s.append("  \x1b[41;1;37m║\x1b[0m                                                                              \x1b[41;1;37m║\x1b[0m\n");
    s.append("  \x1b[41;1;37m╚══════════════════════════════════════════════════════════════════════════════════╝\x1b[0m\n");
    s.append("\n\n");
    s
}

} // verus!
