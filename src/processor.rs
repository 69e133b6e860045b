use vstd::prelude::*;
use vstd::utf8::encode_utf8;

use crate::error::CflError;
use crate::paths::{display_path, file_name, parse_path, relative_display};
use crate::patterns::{
    accepts_name, all_compile, any_match, compile_patterns, filter_accepts, opt_view,
    pattern_texts, pattern_views, GlobPattern,
};
use crate::tokens::{estimate_tokens, token_count};
use crate::tree::{directory_tree, entry_views, listing_of, render, tree_of, WalkEntry};

verus! {

/// Information about a processed file.
#[derive(Clone, Debug)]
pub struct FileInfo {
    /// Path of the file as shown, relative to the processor's directory where
    /// it lies below it.
    pub path: String,
    /// Size of the file's text in bytes.
    pub size: usize,
    /// Estimated number of tokens of the file's text.
    pub tokens: usize,
}

/// What a `FileInfo` records.
pub struct FileRecord {
    pub path: Seq<char>,
    pub size: nat,
    pub tokens: nat,
}

impl View for FileInfo {
    type V = FileRecord;

    open spec fn view(&self) -> FileRecord {
        FileRecord { path: self.path@, size: self.size as nat, tokens: self.tokens as nat }
    }
}

/// The number of bytes of the UTF-8 encoding of `s`, as `str::len` gives it.
pub open spec fn byte_len(s: Seq<char>) -> usize {
    encode_utf8(s).len() as usize
}

/// The fenced block of one file: an opening fence naming the path, the
/// text, and a closing fence, each ended by a newline.
pub open spec fn block(path: Seq<char>, content: Seq<char>) -> Seq<char> {
    seq!['`', '`', '`'] + path + seq!['\n'] + content + seq!['\n', '`', '`', '`', '\n']
}

/// The blocks of the files, in order.
pub open spec fn blocks(files: Seq<FileRecord>, contents: Seq<Seq<char>>) -> Seq<char>
    decreases files.len(),
{
    if files.len() == 0 || contents.len() == 0 {
        Seq::empty()
    } else {
        blocks(files.drop_last(), contents.drop_last()) + block(
            files.last().path,
            contents.last(),
        )
    }
}

/// The sum of the token estimates of the files.
pub open spec fn token_sum(files: Seq<FileRecord>) -> nat
    decreases files.len(),
{
    if files.len() == 0 {
        0
    } else {
        token_sum(files.drop_last()) + files.last().tokens
    }
}

/// `n`, or `usize::MAX` where `n` is larger.
pub open spec fn capped(n: nat) -> usize {
    if n <= usize::MAX {
        n as usize
    } else {
        usize::MAX
    }
}

/// The state of a processor, as plain values.
pub struct ProcessorView {
    /// The texts of the include patterns.
    pub allow: Seq<Seq<char>>,
    /// The texts of the exclude patterns.
    pub deny: Seq<Seq<char>>,
    /// The directory that shown paths are relative to.
    pub current_dir: Seq<char>,
    /// The canonical identities of the recorded files, in order.
    pub seen: Seq<Seq<char>>,
    /// The records, in order.
    pub files: Seq<FileRecord>,
    /// The text of each recorded file, in order.
    pub contents: Seq<Seq<char>>,
    /// The aggregated text.
    pub result: Seq<char>,
}

impl ProcessorView {
    /// The record of the file with the given text at `path`.
    pub open spec fn record_of(self, path: Seq<char>, content: Seq<char>) -> FileRecord {
        FileRecord {
            path: display_path(self.current_dir, path),
            size: byte_len(content) as nat,
            tokens: token_count(content),
        }
    }

    /// Each recorded file has one identity, no identity is recorded twice,
    /// each record describes its text, and the aggregated text is the blocks
    /// of the records in order.
    pub open spec fn wf(self) -> bool {
        &&& self.seen.no_duplicates()
        &&& self.seen.len() == self.files.len()
        &&& self.contents.len() == self.files.len()
        &&& forall|i: int|
            0 <= i < self.files.len() ==> #[trigger] self.files[i] == FileRecord {
                path: self.files[i].path,
                size: byte_len(self.contents[i]) as nat,
                tokens: token_count(self.contents[i]),
            }
        &&& self.result == blocks(self.files, self.contents)
    }

    /// Whether the file at `path` with identity `canonical` is to be read and
    /// recorded: it was not recorded before and its name passes the filter.
    pub open spec fn wants(self, canonical: Seq<char>, path: Seq<char>) -> bool {
        !self.seen.contains(canonical) && filter_accepts(self.allow, self.deny, file_name(path))
    }

    /// The state after recording the file at `path` with identity
    /// `canonical` and the given text.
    pub open spec fn recorded(
        self,
        canonical: Seq<char>,
        path: Seq<char>,
        content: Seq<char>,
    ) -> ProcessorView {
        let rec = self.record_of(path, content);
        ProcessorView {
            seen: self.seen.push(canonical),
            files: self.files.push(rec),
            contents: self.contents.push(content),
            result: self.result + block(rec.path, content),
            ..self
        }
    }
}

/// Recording a wanted file keeps the state well formed.
pub proof fn lemma_recorded_wf(v: ProcessorView, canonical: Seq<char>, path: Seq<char>, content: Seq<char>)
    requires
        v.wf(),
        v.wants(canonical, path),
    ensures
        v.recorded(canonical, path, content).wf(),
{
    let v1 = v.recorded(canonical, path, content);
    assert(v1.files.drop_last() == v.files);
    assert(v1.contents.drop_last() == v.contents);
    assert(v1.seen.no_duplicates()) by {
        assert forall|i: int, j: int| 0 <= i < j < v1.seen.len() implies v1.seen[i] != v1.seen[j] by {
            if j == v.seen.len() {
                assert(v.seen.contains(v.seen[i]));
            }
        }
    }
    assert forall|i: int| 0 <= i < v1.files.len() implies #[trigger] v1.files[i] == FileRecord {
        path: v1.files[i].path,
        size: byte_len(v1.contents[i]) as nat,
        tokens: token_count(v1.contents[i]),
    } by {
        if i < v.files.len() {
            assert(v1.files[i] == v.files[i]);
        }
    }
}

/// A file whose name passes the filter and whose identity was not recorded
/// before is recorded exactly once: its record comes last, its identity is
/// held once, and its fenced block ends the aggregated text.
pub proof fn lemma_wanted_file_recorded_once(
    v: ProcessorView,
    canonical: Seq<char>,
    path: Seq<char>,
    content: Seq<char>,
)
    requires
        v.wf(),
        !v.seen.contains(canonical),
        filter_accepts(v.allow, v.deny, file_name(path)),
    ensures
        v.wants(canonical, path),
        v.recorded(canonical, path, content).wf(),
        v.recorded(canonical, path, content).files == v.files.push(v.record_of(path, content)),
        v.recorded(canonical, path, content).result == v.result + block(
            v.record_of(path, content).path,
            content,
        ),
        forall|i: int|
            0 <= i < v.recorded(canonical, path, content).seen.len() && #[trigger] v.recorded(
                canonical,
                path,
                content,
            ).seen[i] == canonical ==> i == v.seen.len(),
{
    lemma_recorded_wf(v, canonical, path, content);
    let w = v.recorded(canonical, path, content);
    assert forall|i: int| 0 <= i < w.seen.len() && #[trigger] w.seen[i] == canonical implies i
        == v.seen.len() by {
        if i < v.seen.len() {
            assert(v.seen[i] == w.seen[i]);
        }
    }
}

/// Once a file is recorded, no later request records its identity again,
/// whatever path it is reached by.
pub proof fn lemma_recorded_not_wanted_again(
    v: ProcessorView,
    canonical: Seq<char>,
    path: Seq<char>,
    content: Seq<char>,
    other_path: Seq<char>,
)
    ensures
        !v.recorded(canonical, path, content).wants(canonical, other_path),
{
    let w = v.recorded(canonical, path, content);
    assert(w.seen[w.seen.len() - 1] == canonical);
}

/// A name that an exclude pattern matches is never wanted, even where an
/// include pattern matches it too.
pub proof fn lemma_exclude_wins(v: ProcessorView, canonical: Seq<char>, path: Seq<char>)
    requires
        any_match(v.allow, file_name(path)),
        any_match(v.deny, file_name(path)),
    ensures
        !v.wants(canonical, path),
{
}

/// Handles the core functionality of selecting files and aggregating their
/// contents.
pub struct FileProcessor {
    include_patterns: Vec<GlobPattern>,
    exclude_patterns: Vec<GlobPattern>,
    processed_paths: Vec<String>,
    target_files: Vec<FileInfo>,
    result: String,
    current_dir: String,
    contents: Ghost<Seq<Seq<char>>>,
}

pub open spec fn string_views(v: Seq<String>) -> Seq<Seq<char>> {
    v.map_values(|s: String| s@)
}

pub open spec fn record_views(v: Seq<FileInfo>) -> Seq<FileRecord> {
    v.map_values(|f: FileInfo| f@)
}

impl View for FileProcessor {
    type V = ProcessorView;

    closed spec fn view(&self) -> ProcessorView {
        ProcessorView {
            allow: pattern_views(self.include_patterns@),
            deny: pattern_views(self.exclude_patterns@),
            current_dir: self.current_dir@,
            seen: string_views(self.processed_paths@),
            files: record_views(self.target_files@),
            contents: self.contents@,
            result: self.result@,
        }
    }
}

impl FileProcessor {
    pub open spec fn wf(&self) -> bool {
        self@.wf()
    }

    /// Creates a processor with the given comma-separated include and exclude
    /// patterns, showing paths relative to `current_dir`.
    pub fn new(include_list: &Option<String>, exclude_list: &Option<String>, current_dir: &str) -> (r:
        Result<FileProcessor, CflError>)
        ensures
            r is Ok <==> all_compile(pattern_texts(opt_view(*include_list))) && all_compile(
                pattern_texts(opt_view(*exclude_list)),
            ),
            r is Err ==> r->Err_0 is Pattern,
            r matches Ok(p) ==> p.wf() && p@ == (ProcessorView {
                allow: pattern_texts(opt_view(*include_list)),
                deny: pattern_texts(opt_view(*exclude_list)),
                current_dir: current_dir@,
                seen: Seq::empty(),
                files: Seq::empty(),
                contents: Seq::empty(),
                result: Seq::empty(),
            }),
    {
        let include_patterns = match compile_patterns(include_list) {
            Ok(ps) => ps,
            Err(e) => {
                return Err(CflError::Pattern(e));
            },
        };
        let exclude_patterns = match compile_patterns(exclude_list) {
            Ok(ps) => ps,
            Err(e) => {
                return Err(CflError::Pattern(e));
            },
        };
        let p = FileProcessor {
            include_patterns,
            exclude_patterns,
            processed_paths: Vec::new(),
            target_files: Vec::new(),
            result: String::new(),
            current_dir: current_dir.to_string(),
            contents: Ghost(Seq::empty()),
        };
        assert(string_views(p.processed_paths@) =~= Seq::empty());
        assert(record_views(p.target_files@) =~= Seq::empty());
        Ok(p)
    }

    /// Whether the file at `path` with canonical identity `canonical` is to
    /// be read and recorded: it was not recorded before, no exclude pattern
    /// matches its name and, where include patterns are given, one does.
    pub fn wants_file(&self, canonical: &str, path: &str) -> (r: bool)
        ensures
            r == self@.wants(canonical@, path@),
    {
        let mut i: usize = 0;
        while i < self.processed_paths.len()
            invariant
                i <= self.processed_paths.len(),
                forall|k: int| 0 <= k < i ==> self.processed_paths@[k]@ != canonical@,
            decreases self.processed_paths.len() - i,
        {
            if crate::paths::str_equal(self.processed_paths[i].as_str(), canonical) {
                assert(string_views(self.processed_paths@)[i as int] == canonical@);
                return false;
            }
            i = i + 1;
        }
        assert(!string_views(self.processed_paths@).contains(canonical@)) by {
            if string_views(self.processed_paths@).contains(canonical@) {
                let k = choose|k: int|
                    0 <= k < string_views(self.processed_paths@).len() && string_views(
                        self.processed_paths@,
                    )[k] == canonical@;
                assert(self.processed_paths@[k]@ == canonical@);
            }
        }
        let parts = parse_path(path);
        let name = if parts.len() == 0 {
            String::new()
        } else {
            crate::text::string_of(&parts[parts.len() - 1])
        };
        assert(name@ == file_name(path@));
        accepts_name(&self.include_patterns, &self.exclude_patterns, name.as_str())
    }

    /// Records the file at `path` with canonical identity `canonical` and
    /// text `content`, where `wants_file` holds of it: its record goes at the
    /// end of the records and its fenced block at the end of the aggregated
    /// text. Returns whether it was recorded; otherwise nothing changes.
    pub fn add_file(&mut self, canonical: String, path: &str, content: String) -> (r: bool)
        requires
            old(self).wf(),
        ensures
            final(self).wf(),
            r == old(self)@.wants(canonical@, path@),
            r ==> final(self)@ == old(self)@.recorded(canonical@, path@, content@),
            !r ==> final(self)@ == old(self)@,
    {
        if !self.wants_file(canonical.as_str(), path) {
            return false;
        }
        let ghost v0 = self@;
        let shown = relative_display(self.current_dir.as_str(), path);
        let size = content.as_str().len();
        let tokens = estimate_tokens(content.as_str());
        let info = FileInfo { path: shown.clone(), size, tokens };
        self.target_files.push(info);
        self.result.append("```");
        self.result.append(shown.as_str());
        self.result.append("\n");
        self.result.append(content.as_str());
        self.result.append("\n```\n");
        self.processed_paths.push(canonical);
        self.contents = Ghost(self.contents@.push(content@));
        proof {
            reveal_strlit("```");
            reveal_strlit("\n");
            reveal_strlit("\n```\n");
            let v1 = v0.recorded(canonical@, path@, content@);
            assert(self@.seen =~= v1.seen);
            assert(self@.files =~= v1.files);
            assert(self@.contents =~= v1.contents);
            assert(self@.result =~= v1.result);
            lemma_recorded_wf(v0, canonical@, path@, content@);
        }
        true
    }

    /// The records of the processed files, in the order they were recorded.
    pub fn get_target_files(&self) -> (r: &[FileInfo])
        ensures
            record_views(r@) == self@.files,
    {
        self.target_files.as_slice()
    }

    /// The aggregated text: the fenced block of each recorded file, in order.
    pub fn get_result(&self) -> (r: &str)
        ensures
            r@ == self@.result,
    {
        self.result.as_str()
    }

    /// The size of the aggregated text in bytes: the length of
    /// `get_result()`, fences included, not the sum of the records' sizes.
    pub fn get_total_size(&self) -> (r: usize)
        ensures
            r == byte_len(self@.result),
    {
        self.result.as_str().len()
    }

    /// The sum of the token estimates of the recorded files (held at
    /// `usize::MAX`, which the sum of a text held in memory cannot reach).
    pub fn get_total_tokens(&self) -> (r: usize)
        ensures
            r == capped(token_sum(self@.files)),
    {
        let ghost files = self@.files;
        let mut sum: usize = 0;
        let mut i: usize = 0;
        while i < self.target_files.len()
            invariant
                i <= self.target_files.len(),
                files == record_views(self.target_files@),
                sum == capped(token_sum(files.take(i as int))),
            decreases self.target_files.len() - i,
        {
            assert(files.take(i + 1).drop_last() == files.take(i as int));
            sum = sum.saturating_add(self.target_files[i].tokens);
            i = i + 1;
        }
        assert(files.take(files.len() as int) == files);
        sum
    }

    /// The directory that shown paths are relative to.
    pub fn current_dir(&self) -> (r: &str)
        ensures
            r@ == self@.current_dir,
    {
        self.current_dir.as_str()
    }

    /// The directory tree below this processor's directory, built from the
    /// entries that a walk of it yielded (see `directory_tree`).
    pub fn render_directory_structure(&self, entries: &Vec<WalkEntry>) -> (r: String)
        ensures
            exists|l: Seq<(Seq<Seq<char>>, bool)>|
                listing_of(l, tree_of(self@.current_dir, entry_views(entries@))) && r@ == render(l),
    {
        directory_tree(self.current_dir.as_str(), entries)
    }
}

} // verus!
