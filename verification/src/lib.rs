use vstd::prelude::*;

pub mod bytestr;
pub mod codeblocks;
pub mod markup;
pub mod metadata;
pub mod processors;
pub mod store;
pub mod template;
pub mod watch;

verus! {

use crate::store::Resource;

/// One discovered source file, read from disk by the caller: the pipeline
/// itself works on plain bytes only.
#[derive(Debug)]
pub struct SourceFile {
    /// Absolute path of the file under the build root.
    pub path: Vec<u8>,
    /// The raw bytes of the file.
    pub contents: Vec<u8>,
    /// The raw text of the metadata file that sits beside a post (the same
    /// path with a `toml` extension), where one exists.
    pub metadata: Option<Vec<u8>>,
}

/// Why a build pass failed. Any of these aborts the whole pass.
#[derive(Debug)]
pub enum BuildError {
    /// A source file that must hold text was not valid UTF-8.
    InvalidUtf8,
    /// A template could not be parsed or rendered; holds the renderer's message.
    Template(Vec<u8>),
    /// A post's metadata file was missing or did not hold the expected fields.
    Metadata,
    /// A resource's output path did not lie under the build root.
    NotUnderRoot,
}

/// A unit that claims and transforms matching source paths, and may contribute
/// aggregate resources once all per-file processing is done.
pub trait ResourceProcessor: Sized {
    /// Structural well-formedness, established by the constructor and kept by
    /// every call.
    spec fn wf(&self) -> bool;

    /// Which paths this processor claims. Matching is a pure function of the
    /// path: it never depends on state that processing mutates.
    spec fn matches_spec(&self, path: Seq<u8>) -> bool;

    /// Decides whether this processor claims `path`.
    fn matches(&self, path: &Vec<u8>) -> (b: bool)
        requires
            self.wf(),
        ensures
            b == self.matches_spec(path@),
    ;

    /// Transforms one claimed file into a resource.
    fn process(&mut self, file: &SourceFile) -> (r: Result<Resource, BuildError>)
        requires
            old(self).wf(),
            old(self).matches_spec(file.path@),
        ensures
            final(self).wf(),
            forall|p: Seq<u8>| final(self).matches_spec(p) == old(self).matches_spec(p),
            r matches Ok(res) ==> res@.original_path == file.path@,
    ;

    /// Contributes aggregate resources after all per-file processing; the
    /// default contribution is none.
    fn flush(&mut self) -> (r: Result<Vec<Resource>, BuildError>)
        requires
            old(self).wf(),
        ensures
            final(self).wf(),
            forall|p: Seq<u8>| final(self).matches_spec(p) == old(self).matches_spec(p),
        default_ensures
            r matches Ok(v) && v@.len() == 0,
            *final(self) == *old(self),
    {
        Ok(Vec::new())
    }
}

} // verus!
