//! Result records produced by the scoring engine.
//!
//! All records are immutable value types: they are built once per scoring
//! call and never mutated afterwards. Each record has a mathematical view
//! (`View` / `DeepView`) over which the engine's contracts are stated.

use vstd::prelude::*;

verus! {

/// The complexity increment contributed by constructs starting on one
/// source line (1-based).
#[derive(Clone, Debug, PartialEq)]
pub struct LineComplexity {
    pub line: u64,
    pub complexity: u64,
}

impl View for LineComplexity {
    type V = (nat, nat);

    open spec fn view(&self) -> (nat, nat) {
        (self.line as nat, self.complexity as nat)
    }
}

impl DeepView for LineComplexity {
    type V = (nat, nat);

    open spec fn deep_view(&self) -> (nat, nat) {
        self.view()
    }
}

/// Per-function scoring result. `name` is qualified as `Class::method`
/// for methods. Under a well-formed tree, every entry of
/// `line_complexities` names a line within `[line_start, line_end]`.
#[derive(Clone, Debug, PartialEq)]
pub struct FunctionComplexity {
    pub name: String,
    pub complexity: u64,
    pub line_start: u64,
    pub line_end: u64,
    pub line_complexities: Vec<LineComplexity>,
}

/// Mathematical image of a `FunctionComplexity`.
pub struct FunctionComplexityV {
    pub name: Seq<char>,
    pub complexity: nat,
    pub line_start: nat,
    pub line_end: nat,
    pub line_complexities: Seq<(nat, nat)>,
}

impl View for FunctionComplexity {
    type V = FunctionComplexityV;

    open spec fn view(&self) -> FunctionComplexityV {
        FunctionComplexityV {
            name: self.name@,
            complexity: self.complexity as nat,
            line_start: self.line_start as nat,
            line_end: self.line_end as nat,
            line_complexities: self.line_complexities.deep_view(),
        }
    }
}

impl DeepView for FunctionComplexity {
    type V = FunctionComplexityV;

    open spec fn deep_view(&self) -> FunctionComplexityV {
        self.view()
    }
}

/// Scoring result for one file: its functions and the file aggregate,
/// which equals the sum of the function complexities plus the complexity
/// of scored top-level non-function statements.
#[derive(Clone, Debug, PartialEq)]
pub struct FileComplexity {
    pub path: String,
    pub file_name: String,
    pub functions: Vec<FunctionComplexity>,
    pub complexity: u64,
}

/// Mathematical image of a `FileComplexity`.
pub struct FileComplexityV {
    pub path: Seq<char>,
    pub file_name: Seq<char>,
    pub functions: Seq<FunctionComplexityV>,
    pub complexity: nat,
}

impl View for FileComplexity {
    type V = FileComplexityV;

    open spec fn view(&self) -> FileComplexityV {
        FileComplexityV {
            path: self.path@,
            file_name: self.file_name@,
            functions: self.functions.deep_view(),
            complexity: self.complexity as nat,
        }
    }
}

impl DeepView for FileComplexity {
    type V = FileComplexityV;

    open spec fn deep_view(&self) -> FileComplexityV {
        self.view()
    }
}

/// Scoring result for a string of source code, without file identity.
#[derive(Clone, Debug, PartialEq)]
pub struct CodeComplexity {
    pub functions: Vec<FunctionComplexity>,
    pub complexity: u64,
}

/// Mathematical image of a `CodeComplexity`.
pub struct CodeComplexityV {
    pub functions: Seq<FunctionComplexityV>,
    pub complexity: nat,
}

impl View for CodeComplexity {
    type V = CodeComplexityV;

    open spec fn view(&self) -> CodeComplexityV {
        CodeComplexityV { functions: self.functions.deep_view(), complexity: self.complexity as nat }
    }
}

impl DeepView for CodeComplexity {
    type V = CodeComplexityV;

    open spec fn deep_view(&self) -> CodeComplexityV {
        self.view()
    }
}

} // verus!
