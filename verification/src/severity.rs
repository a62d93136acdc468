use vstd::prelude::*;

verus! {

/// Severity class of a wall-loss defect, from no loss to critical loss.
#[derive(Debug, Clone, Copy, PartialEq, Eq, Structural, PartialOrd)]
pub enum DefectSeverity {
    Normal,
    Mild,
    Moderate,
    Severe,
    Critical,
}

/// The 256-colour terminal code that the maps use for each severity.
pub open spec fn spec_color_code(s: DefectSeverity) -> u8 {
    match s {
        DefectSeverity::Normal => 82,
        DefectSeverity::Mild => 190,
        DefectSeverity::Moderate => 214,
        DefectSeverity::Severe => 202,
        DefectSeverity::Critical => 196,
    }
}

/// The upper-case label printed for each severity.
pub open spec fn spec_label(s: DefectSeverity) -> Seq<char> {
    match s {
        DefectSeverity::Normal => "NORMAL"@,
        DefectSeverity::Mild => "MILD"@,
        DefectSeverity::Moderate => "MODERATE"@,
        DefectSeverity::Severe => "SEVERE"@,
        DefectSeverity::Critical => "CRITICAL"@,
    }
}

impl DefectSeverity {
    /// Terminal colour code of this severity.
    pub fn color_code(&self) -> (code: u8)
        ensures
            code == spec_color_code(*self),
    {
        match self {
            DefectSeverity::Normal => 82,
            DefectSeverity::Mild => 190,
            DefectSeverity::Moderate => 214,
            DefectSeverity::Severe => 202,
            DefectSeverity::Critical => 196,
        }
    }

    /// Label of this severity.
    pub fn label(&self) -> (text: &'static str)
        ensures
            text@ == spec_label(*self),
    {
        match self {
            DefectSeverity::Normal => "NORMAL",
            DefectSeverity::Mild => "MILD",
            DefectSeverity::Moderate => "MODERATE",
            DefectSeverity::Severe => "SEVERE",
            DefectSeverity::Critical => "CRITICAL",
        }
    }
}


/// Distinct severities have distinct labels and distinct colours.
pub proof fn lemma_severities_distinguishable(a: DefectSeverity, b: DefectSeverity)
    requires
        a != b,
    ensures
        spec_label(a) != spec_label(b),
        spec_color_code(a) != spec_color_code(b),
{
    reveal_strlit("NORMAL");
    reveal_strlit("MILD");
    reveal_strlit("MODERATE");
    reveal_strlit("SEVERE");
    reveal_strlit("CRITICAL");
    assert("NORMAL"@[0] != "MILD"@[0] || "NORMAL"@.len() != "MILD"@.len());
    assert("MILD"@.len() != "MODERATE"@.len());
    assert("MODERATE"@.len() != "SEVERE"@.len());
    assert("SEVERE"@[0] != "CRITICAL"@[0]);
    assert("NORMAL"@.len() != "MODERATE"@.len());
    assert("NORMAL"@[0] != "SEVERE"@[0]);
    assert("NORMAL"@[0] != "CRITICAL"@[0]);
    assert("MILD"@[0] != "SEVERE"@[0]);
    assert("MILD"@[0] != "CRITICAL"@[0]);
    assert("MODERATE"@[0] != "SEVERE"@[0]);
    assert("MODERATE"@[0] != "CRITICAL"@[0]);
}

} // verus!
