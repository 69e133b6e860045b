use vstd::prelude::*;

use crate::error::CflError;
use crate::patterns::{all_compile, opt_view, pattern_texts};
use crate::processor::{FileProcessor, ProcessorView};

verus! {

/// Configuration of a `FileProcessor`, built step by step.
pub struct CflBuilder {
    include_patterns: Option<String>,
    exclude_patterns: Option<String>,
    current_dir: String,
}

/// What a builder holds: the include list, the exclude list, the directory.
pub struct BuilderView {
    pub allow: Option<Seq<char>>,
    pub deny: Option<Seq<char>>,
    pub current_dir: Seq<char>,
}

impl View for CflBuilder {
    type V = BuilderView;

    closed spec fn view(&self) -> BuilderView {
        BuilderView {
            allow: opt_view(self.include_patterns),
            deny: opt_view(self.exclude_patterns),
            current_dir: self.current_dir@,
        }
    }
}

impl Default for CflBuilder {
    fn default() -> (r: Self)
        ensures
            r@ == (BuilderView { allow: None, deny: None, current_dir: Seq::empty() }),
    {
        Self::new()
    }
}

impl CflBuilder {
    /// A builder with no patterns and an empty directory: paths are then
    /// shown relative to the empty path, that is with their components as
    /// given where they are relative.
    pub fn new() -> (r: Self)
        ensures
            r@ == (BuilderView { allow: None, deny: None, current_dir: Seq::empty() }),
    {
        CflBuilder { include_patterns: None, exclude_patterns: None, current_dir: String::new() }
    }

    /// Sets the comma-separated include patterns.
    pub fn include_patterns(self, patterns: &str) -> (r: Self)
        ensures
            r@ == (BuilderView { allow: Some(patterns@), ..self@ }),
    {
        CflBuilder { include_patterns: Some(patterns.to_string()), ..self }
    }

    /// Sets the comma-separated exclude patterns.
    pub fn exclude_patterns(self, patterns: &str) -> (r: Self)
        ensures
            r@ == (BuilderView { deny: Some(patterns@), ..self@ }),
    {
        CflBuilder { exclude_patterns: Some(patterns.to_string()), ..self }
    }

    /// Sets the directory that shown paths are relative to.
    pub fn current_dir(self, path: &str) -> (r: Self)
        ensures
            r@ == (BuilderView { current_dir: path@, ..self@ }),
    {
        CflBuilder { current_dir: path.to_string(), ..self }
    }

    /// Builds the processor; fails where a pattern does not compile.
    pub fn build(self) -> (r: Result<FileProcessor, CflError>)
        ensures
            r is Ok <==> all_compile(pattern_texts(self@.allow)) && all_compile(
                pattern_texts(self@.deny),
            ),
            r is Err ==> r->Err_0 is Pattern,
            r matches Ok(p) ==> p.wf() && p@ == (ProcessorView {
                allow: pattern_texts(self@.allow),
                deny: pattern_texts(self@.deny),
                current_dir: self@.current_dir,
                seen: Seq::empty(),
                files: Seq::empty(),
                contents: Seq::empty(),
                result: Seq::empty(),
            }),
    {
        FileProcessor::new(&self.include_patterns, &self.exclude_patterns, self.current_dir.as_str())
    }
}

} // verus!
