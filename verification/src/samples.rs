//! Built-in sample repositories used by the Home screen.

use vstd::prelude::*;

verus! {

/// Language represented by a built-in sample repository.
#[derive(Debug, Clone, Copy, PartialEq, Eq, Structural)]
pub enum SampleLanguage {
    TypeScript,
    Python,
    Java,
}

impl SampleLanguage {
    pub open spec fn label_spec(self) -> Seq<char> {
        match self {
            SampleLanguage::TypeScript => "TypeScript"@,
            SampleLanguage::Python => "Python"@,
            SampleLanguage::Java => "Java"@,
        }
    }

    /// The language's display name.
    pub fn label(self) -> (s: &'static str)
        ensures
            s@ == self.label_spec(),
    {
        match self {
            SampleLanguage::TypeScript => "TypeScript",
            SampleLanguage::Python => "Python",
            SampleLanguage::Java => "Java",
        }
    }
}

/// Progress mode that best demonstrates the sample repository.
#[derive(Debug, Clone, Copy, PartialEq, Eq, Structural)]
pub enum SampleMode {
    Flow,
    Manual,
}

/// Metadata needed to open and present one sample repository.
#[derive(Debug, Clone, Copy, PartialEq, Eq)]
pub struct SampleRepo {
    pub language: SampleLanguage,
    pub input: &'static str,
    pub mode: SampleMode,
    pub contract_revision: u16,
}

impl SampleRepo {
    /// `flow` or `manual`.
    pub fn mode_label(self) -> (s: &'static str)
        ensures
            s@ == match self.mode {
                SampleMode::Flow => "flow"@,
                SampleMode::Manual => "manual"@,
            },
    {
        match self.mode {
            SampleMode::Flow => "flow",
            SampleMode::Manual => "manual",
        }
    }

    /// The text the sample is searched and opened by: its input.
    pub fn search_label(self) -> (s: &'static str)
        ensures
            s@ == self.input@,
    {
        self.input
    }
}

/// The stable public sample set for the first-run experience.
pub open spec fn sample_catalog() -> Seq<(SampleLanguage, Seq<char>, SampleMode, u16)> {
    seq![
        (SampleLanguage::TypeScript, "salan70/repomonk-sample-typescript"@, SampleMode::Flow, 1u16),
        (SampleLanguage::Python, "salan70/repomonk-sample-python"@, SampleMode::Flow, 1u16),
        (SampleLanguage::Java, "salan70/repomonk-sample-java"@, SampleMode::Manual, 1u16),
    ]
}

pub open spec fn sample_view(s: SampleRepo) -> (SampleLanguage, Seq<char>, SampleMode, u16) {
    (s.language, s.input@, s.mode, s.contract_revision)
}

/// The built-in samples, in display order.
pub fn sample_repos() -> (r: Vec<SampleRepo>)
    ensures
        r@.map_values(|s: SampleRepo| sample_view(s)) == sample_catalog(),
{
    let mut r: Vec<SampleRepo> = Vec::new();
    r.push(
        SampleRepo {
            language: SampleLanguage::TypeScript,
            input: "salan70/repomonk-sample-typescript",
            mode: SampleMode::Flow,
            contract_revision: 1,
        },
    );
    r.push(
        SampleRepo {
            language: SampleLanguage::Python,
            input: "salan70/repomonk-sample-python",
            mode: SampleMode::Flow,
            contract_revision: 1,
        },
    );
    r.push(
        SampleRepo {
            language: SampleLanguage::Java,
            input: "salan70/repomonk-sample-java",
            mode: SampleMode::Manual,
            contract_revision: 1,
        },
    );
    assert(r@.map_values(|s: SampleRepo| sample_view(s)) =~= sample_catalog());
    r
}

} // verus!
