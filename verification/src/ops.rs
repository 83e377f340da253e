//! The decisions of an indexing run: which files to chunk, when to flush,
//! what is stale, and in which order the stores are written.

use vstd::prelude::*;
use crate::indexer::{extension, extension_of, ChunkModel, CodeChunk};
use crate::kinds::{language_for_extension, language_of};
use crate::search::copy_texts;
use crate::text::{
    chars_of, contains, contains_text, lemma_deep_view_concat, lemma_deep_view_push, same_text,
    string_from_chars,
};

verus! {

/// A file name with the modification time that the vector store holds for
/// it.
#[derive(Debug)]
pub struct IndexedFile {
    pub filename: String,
    pub last_modified: i64,
}

impl View for IndexedFile {
    type V = (Seq<char>, i64);

    open spec fn view(&self) -> (Seq<char>, i64) {
        (self.filename@, self.last_modified)
    }
}

impl DeepView for IndexedFile {
    type V = (Seq<char>, i64);

    open spec fn deep_view(&self) -> (Seq<char>, i64) {
        self@
    }
}

/// What an indexing run is set up with.
#[derive(Debug)]
pub struct IndexSettings {
    /// Whether files that the store already holds unchanged are skipped, and
    /// files that are gone are removed from the stores.
    pub update: bool,
    /// The number of buffered chunks, or of queued deletions, from which on
    /// the buffers are flushed.
    pub batch_size: usize,
    /// Files larger than this many bytes are passed over.
    pub max_file_size_bytes: u64,
    /// Files whose path holds one of these texts are passed over.
    pub exclusions: Vec<String>,
}

/// What an indexing run does with a file.
#[derive(Clone, Copy, Debug, PartialEq, Eq, Structural)]
pub enum FileDecision {
    /// The path holds an exclusion.
    Excluded,
    /// The extension is outside the language table.
    Unsupported,
    /// The file is larger than the limit.
    TooLarge,
    /// The store holds the file with the same modification time.
    Unchanged,
    /// The file is chunked; the store holds nothing of it.
    Index,
    /// The file is chunked, and what the store holds of it is deleted first.
    Replace,
}

/// The deletions and the chunks of one flush. The deletions are carried out
/// before the chunks are added.
#[derive(Debug)]
pub struct Batch {
    pub deletes: Vec<String>,
    pub chunks: Vec<CodeChunk>,
}

/// The state of an indexing run.
#[derive(Debug)]
pub struct IndexRun {
    pub settings: IndexSettings,
    /// What the store held for the workspace when the run began; empty
    /// unless the run updates.
    pub existing: Vec<IndexedFile>,
    /// Chunks that wait for the next flush.
    pub chunks_buffer: Vec<CodeChunk>,
    /// Files whose old chunks are deleted at the next flush.
    pub pending_deletes: Vec<String>,
    /// Files that the walk has come by and that are still to be indexed or
    /// are indexed unchanged.
    pub visited: Vec<String>,
}

/// The modification time that the last of the first `n` rows with this
/// file name holds, if there is such a row.
pub open spec fn stored_mtime(existing: Seq<(Seq<char>, i64)>, filename: Seq<char>, n: int) -> Option<
    i64,
>
    decreases n,
{
    if n <= 0 {
        None
    } else if existing[n - 1].0 == filename {
        Some(existing[n - 1].1)
    } else {
        stored_mtime(existing, filename, n - 1)
    }
}

/// Whether `path` holds one of the exclusions.
pub open spec fn is_excluded(path: Seq<char>, exclusions: Seq<Seq<char>>) -> bool {
    exists|k: int| 0 <= k < exclusions.len() && contains_text(path, #[trigger] exclusions[k])
}

/// What a run with these settings and this stored state does with a file
/// of this path, size and modification time.
pub open spec fn decision_of(
    update: bool,
    max_file_size_bytes: u64,
    exclusions: Seq<Seq<char>>,
    existing: Seq<(Seq<char>, i64)>,
    path: Seq<char>,
    size: u64,
    mtime: i64,
) -> FileDecision {
    if is_excluded(path, exclusions) {
        FileDecision::Excluded
    } else if language_of(extension_of(path)) is None {
        FileDecision::Unsupported
    } else if size > max_file_size_bytes {
        FileDecision::TooLarge
    } else if update && stored_mtime(existing, path, existing.len() as int) == Some(mtime) {
        FileDecision::Unchanged
    } else if update && stored_mtime(existing, path, existing.len() as int) is Some {
        FileDecision::Replace
    } else {
        FileDecision::Index
    }
}

/// Whether a file with this decision counts as visited: it is in the tree
/// and not passed over.
pub open spec fn counts_as_visited(decision: FileDecision) -> bool {
    decision == FileDecision::Unchanged || decision == FileDecision::Index || decision
        == FileDecision::Replace
}

/// The file names among the first `n` stored rows that are stale: not
/// visited, each once, where it first occurs.
pub open spec fn stale_upto(existing: Seq<(Seq<char>, i64)>, visited: Seq<Seq<char>>, n: int) -> Seq<
    Seq<char>,
>
    decreases n,
{
    if n <= 0 {
        Seq::empty()
    } else if visited.contains(existing[n - 1].0) || stale_upto(existing, visited, n - 1).contains(
        existing[n - 1].0,
    ) {
        stale_upto(existing, visited, n - 1)
    } else {
        stale_upto(existing, visited, n - 1).push(existing[n - 1].0)
    }
}

/// The stale file names: those the store held that the walk did not visit.
pub open spec fn stale_of(existing: Seq<(Seq<char>, i64)>, visited: Seq<Seq<char>>) -> Seq<
    Seq<char>,
> {
    stale_upto(existing, visited, existing.len() as int)
}

/// `items` from `start` on in batches of `size`, the last one shorter if
/// need be.
pub open spec fn batches_from(items: Seq<Seq<char>>, size: int, start: int) -> Seq<Seq<Seq<char>>>
    decreases
        (if start < items.len() {
            items.len() - start
        } else {
            0
        }),
{
    if start < 0 || start >= items.len() || size <= 0 {
        Seq::empty()
    } else if start + size >= items.len() {
        seq![items.subrange(start, items.len() as int)]
    } else {
        seq![items.subrange(start, start + size)] + batches_from(items, size, start + size)
    }
}

/// Whether a file of this path is one that the chunker has a language for.
pub fn indexable(path: &str) -> (supported: bool)
    ensures
        supported == language_of(extension_of(path@)) is Some,
{
    let ext = string_from_chars(&extension(&chars_of(path)));
    language_for_extension(ext.as_str()).is_some()
}

/// Decides `is_excluded`.
pub fn path_excluded(path: &str, exclusions: &Vec<String>) -> (excluded: bool)
    ensures
        excluded == is_excluded(path@, exclusions.deep_view()),
{
    let chars = chars_of(path);
    let mut k: usize = 0;
    while k < exclusions.len()
        invariant
            k <= exclusions.len(),
            chars@ == path@,
            forall|j: int| 0 <= j < k ==> !contains_text(path@, exclusions@[j]@),
        decreases exclusions.len() - k,
    {
        if contains(&chars, &chars_of(exclusions[k].as_str())) {
            assert(contains_text(path@, exclusions.deep_view()[k as int]));
            return true;
        }
        k += 1;
    }
    assert forall|j: int| 0 <= j < exclusions.deep_view().len() implies !contains_text(
        path@,
        #[trigger] exclusions.deep_view()[j],
    ) by {
        assert(exclusions.deep_view()[j] == exclusions@[j]@);
    }
    false
}

/// Computes `stored_mtime` over all rows.
pub fn lookup_mtime(existing: &Vec<IndexedFile>, filename: &str) -> (mtime: Option<i64>)
    ensures
        mtime == stored_mtime(existing.deep_view(), filename@, existing.len() as int),
{
    let mut n: usize = existing.len();
    while n > 0
        invariant
            n <= existing.len(),
            stored_mtime(existing.deep_view(), filename@, existing.len() as int) == stored_mtime(
                existing.deep_view(),
                filename@,
                n as int,
            ),
        decreases n,
    {
        assert(existing.deep_view()[n - 1] == existing@[n - 1]@);
        if same_text(existing[n - 1].filename.as_str(), filename) {
            return Some(existing[n - 1].last_modified);
        }
        n -= 1;
    }
    None
}

/// Whether `name` is one of `names`.
pub fn name_among(names: &Vec<String>, name: &str) -> (found: bool)
    ensures
        found == names.deep_view().contains(name@),
{
    let mut k: usize = 0;
    while k < names.len()
        invariant
            k <= names.len(),
            forall|j: int| 0 <= j < k ==> names@[j]@ != name@,
        decreases names.len() - k,
    {
        if same_text(names[k].as_str(), name) {
            assert(names.deep_view()[k as int] == name@);
            return true;
        }
        k += 1;
    }
    assert forall|j: int| 0 <= j < names.deep_view().len() implies names.deep_view()[j]
        != name@ by {
        assert(names.deep_view()[j] == names@[j]@);
    }
    false
}

/// Cuts `items` into batches of `size`.
pub fn batches(items: &Vec<String>, size: usize) -> (out: Vec<Vec<String>>)
    requires
        size > 0,
    ensures
        out.deep_view() == batches_from(items.deep_view(), size as int, 0),
{
    let mut out: Vec<Vec<String>> = Vec::new();
    let mut start: usize = 0;
    assert(out.deep_view() =~= Seq::<Seq<Seq<char>>>::empty());
    while start < items.len()
        invariant
            size > 0,
            batches_from(items.deep_view(), size as int, 0) == out.deep_view() + batches_from(
                items.deep_view(),
                size as int,
                start as int,
            ),
        decreases items.len() - start,
    {
        let reaches_end = items.len() - start <= size;
        let end: usize = if reaches_end {
            items.len()
        } else {
            start + size
        };
        let mut batch: Vec<String> = Vec::new();
        let mut i: usize = start;
        assert(batch.deep_view() =~= items.deep_view().subrange(start as int, start as int));
        while i < end
            invariant
                start <= i <= end <= items.len(),
                batch.deep_view() == items.deep_view().subrange(start as int, i as int),
            decreases end - i,
        {
            let copy = items[i].clone();
            proof {
                lemma_deep_view_push(batch@, batch@.push(copy), copy);
                assert(items.deep_view().subrange(start as int, i as int).push(copy@)
                    =~= items.deep_view().subrange(start as int, i + 1));
            }
            batch.push(copy);
            i += 1;
        }
        let ghost before = out.deep_view();
        proof {
            lemma_deep_view_push(out@, out@.push(batch), batch);
        }
        out.push(batch);
        proof {
            let rest = batches_from(items.deep_view(), size as int, start + size);
            if reaches_end {
                assert(before + seq![batch.deep_view()] =~= before.push(batch.deep_view()));
            } else {
                assert(before + (seq![batch.deep_view()] + rest) =~= before.push(
                    batch.deep_view(),
                ) + rest);
            }
        }
        if reaches_end {
            return out;
        }
        start += size;
    }
    assert(out.deep_view() + Seq::<Seq<Seq<char>>>::empty() =~= out.deep_view());
    out
}

impl IndexRun {
    /// A run that has seen no file yet. `existing` is what the store holds
    /// for the workspace; a run that does not update starts from nothing.
    pub fn new(settings: IndexSettings, existing: Vec<IndexedFile>) -> (run: IndexRun)
        ensures
            run.settings == settings,
            run.existing == existing,
            run.chunks_buffer@.len() == 0,
            run.pending_deletes@.len() == 0,
            run.visited@.len() == 0,
    {
        IndexRun {
            settings,
            existing,
            chunks_buffer: Vec::new(),
            pending_deletes: Vec::new(),
            visited: Vec::new(),
        }
    }

    /// What this run does with a file, as `decision_of` says.
    pub open spec fn decision(&self, path: Seq<char>, size: u64, mtime: i64) -> FileDecision {
        decision_of(
            self.settings.update,
            self.settings.max_file_size_bytes,
            self.settings.exclusions.deep_view(),
            self.existing.deep_view(),
            path,
            size,
            mtime,
        )
    }

    /// Decides what to do with a file of the tree and notes it: a file that
    /// is not passed over is visited, and a file that is replaced has its
    /// old chunks queued for deletion.
    pub fn observe(&mut self, path: &str, size: u64, mtime: i64) -> (decision: FileDecision)
        ensures
            decision == old(self).decision(path@, size, mtime),
            final(self).settings == old(self).settings,
            final(self).existing == old(self).existing,
            final(self).chunks_buffer == old(self).chunks_buffer,
            final(self).visited.deep_view() == if counts_as_visited(decision) {
                old(self).visited.deep_view().push(path@)
            } else {
                old(self).visited.deep_view()
            },
            final(self).pending_deletes.deep_view() == if decision == FileDecision::Replace {
                old(self).pending_deletes.deep_view().push(path@)
            } else {
                old(self).pending_deletes.deep_view()
            },
    {
        if path_excluded(path, &self.settings.exclusions) {
            return FileDecision::Excluded;
        }
        let ext = string_from_chars(&extension(&chars_of(path)));
        if language_for_extension(ext.as_str()).is_none() {
            return FileDecision::Unsupported;
        }
        if size > self.settings.max_file_size_bytes {
            return FileDecision::TooLarge;
        }
        let name = path.to_owned();
        proof {
            lemma_deep_view_push(self.visited@, self.visited@.push(name), name);
        }
        self.visited.push(name);
        if !self.settings.update {
            return FileDecision::Index;
        }
        match lookup_mtime(&self.existing, path) {
            Some(stored) => {
                if stored == mtime {
                    FileDecision::Unchanged
                } else {
                    let old_name = path.to_owned();
                    proof {
                        lemma_deep_view_push(
                            self.pending_deletes@,
                            self.pending_deletes@.push(old_name),
                            old_name,
                        );
                    }
                    self.pending_deletes.push(old_name);
                    FileDecision::Replace
                }
            },
            None => FileDecision::Index,
        }
    }

    /// Buffers the chunks of a file until the next flush.
    pub fn buffer(&mut self, chunks: Vec<CodeChunk>)
        ensures
            final(self).settings == old(self).settings,
            final(self).existing == old(self).existing,
            final(self).visited == old(self).visited,
            final(self).pending_deletes == old(self).pending_deletes,
            final(self).chunks_buffer.deep_view() == old(self).chunks_buffer.deep_view()
                + chunks.deep_view(),
    {
        let mut chunks = chunks;
        proof {
            lemma_deep_view_concat(self.chunks_buffer@, chunks@);
        }
        self.chunks_buffer.append(&mut chunks);
    }

    /// Whether the buffers are due for a flush: one of them holds at least
    /// a batch.
    pub fn needs_flush(&self) -> (due: bool)
        ensures
            due == (self.chunks_buffer.len() >= self.settings.batch_size
                || self.pending_deletes.len() >= self.settings.batch_size),
    {
        self.chunks_buffer.len() >= self.settings.batch_size || self.pending_deletes.len()
            >= self.settings.batch_size
    }

    /// Whether anything waits for a flush.
    pub fn has_pending(&self) -> (any: bool)
        ensures
            any == (self.chunks_buffer.len() > 0 || self.pending_deletes.len() > 0),
    {
        self.chunks_buffer.len() > 0 || self.pending_deletes.len() > 0
    }

    /// Hands out what waits for a flush and empties the buffers.
    pub fn take_batch(&mut self) -> (batch: Batch)
        ensures
            batch.deletes == old(self).pending_deletes,
            batch.chunks == old(self).chunks_buffer,
            final(self).pending_deletes@.len() == 0,
            final(self).chunks_buffer@.len() == 0,
            final(self).settings == old(self).settings,
            final(self).existing == old(self).existing,
            final(self).visited == old(self).visited,
    {
        let mut deletes: Vec<String> = Vec::new();
        let mut chunks: Vec<CodeChunk> = Vec::new();
        std::mem::swap(&mut deletes, &mut self.pending_deletes);
        std::mem::swap(&mut chunks, &mut self.chunks_buffer);
        Batch { deletes, chunks }
    }

    /// The files that the store holds and the walk did not visit.
    pub fn stale_files(&self) -> (stale: Vec<String>)
        ensures
            stale.deep_view() == stale_of(self.existing.deep_view(), self.visited.deep_view()),
    {
        let mut stale: Vec<String> = Vec::new();
        let mut n: usize = 0;
        assert(stale.deep_view() =~= Seq::<Seq<char>>::empty());
        while n < self.existing.len()
            invariant
                n <= self.existing.len(),
                stale.deep_view() == stale_upto(
                    self.existing.deep_view(),
                    self.visited.deep_view(),
                    n as int,
                ),
            decreases self.existing.len() - n,
        {
            let name = &self.existing[n].filename;
            assert(self.existing.deep_view()[n as int] == self.existing@[n as int]@);
            if !name_among(&self.visited, name.as_str()) && !name_among(&stale, name.as_str()) {
                let copy = name.clone();
                proof {
                    lemma_deep_view_push(stale@, stale@.push(copy), copy);
                }
                stale.push(copy);
            }
            n += 1;
        }
        stale
    }
}

/// No stale file was visited, every stale file is one that the store held,
/// and every file that the store held and that was not visited is stale.
pub proof fn lemma_stale_is_difference(existing: Seq<(Seq<char>, i64)>, visited: Seq<Seq<char>>, n: int)
    requires
        0 <= n <= existing.len(),
    ensures
        forall|name: Seq<char>| #[trigger]
            stale_upto(existing, visited, n).contains(name) <==> (!visited.contains(name)
                && exists|k: int| 0 <= k < n && (#[trigger] existing[k]).0 == name),
    decreases n,
{
    if n > 0 {
        lemma_stale_is_difference(existing, visited, n - 1);
        let front = stale_upto(existing, visited, n - 1);
        let all = stale_upto(existing, visited, n);
        let last = existing[n - 1].0;
        assert forall|name: Seq<char>| #[trigger]
            all.contains(name) <==> (!visited.contains(name) && exists|k: int|
                0 <= k < n && (#[trigger] existing[k]).0 == name) by {
            if all.contains(name) {
                let at = choose|at: int| 0 <= at < all.len() && all[at] == name;
                if at < front.len() {
                    assert(front[at] == name);
                    assert(front.contains(name));
                    let k = choose|k: int| 0 <= k < n - 1 && (#[trigger] existing[k]).0 == name;
                    assert(existing[k].0 == name);
                } else {
                    assert(name == last);
                    assert(existing[n - 1].0 == name);
                }
            }
            if !visited.contains(name) && exists|k: int|
                0 <= k < n && (#[trigger] existing[k]).0 == name {
                let k = choose|k: int| 0 <= k < n && (#[trigger] existing[k]).0 == name;
                if k < n - 1 {
                    assert(front.contains(name));
                    let at = choose|at: int| 0 <= at < front.len() && front[at] == name;
                    assert(all[at] == name);
                } else if front.contains(name) {
                    let at = choose|at: int| 0 <= at < front.len() && front[at] == name;
                    assert(all[at] == name);
                } else {
                    assert(all == front.push(last));
                    assert(all[front.len() as int] == name);
                }
            }
        }
    }
}

/// One step with which a run ends.
#[derive(Debug)]
pub enum IndexStep {
    /// Carry out the deletions of the batch in both stores, then embed its
    /// chunks and add them to both stores.
    Flush(Batch),
    /// Delete what both stores hold of these files.
    DeleteStale(Vec<String>),
    /// Commit the lexical store.
    Commit,
    /// Build the index on file names in the vector store.
    CreateFilenameIndex,
}

/// What an `IndexStep` holds, as mathematical values.
pub enum StepModel {
    Flush { deletes: Seq<Seq<char>>, chunks: Seq<ChunkModel> },
    DeleteStale(Seq<Seq<char>>),
    Commit,
    CreateFilenameIndex,
}

impl View for IndexStep {
    type V = StepModel;

    open spec fn view(&self) -> StepModel {
        match self {
            IndexStep::Flush(batch) => StepModel::Flush {
                deletes: batch.deletes.deep_view(),
                chunks: batch.chunks.deep_view(),
            },
            IndexStep::DeleteStale(names) => StepModel::DeleteStale(names.deep_view()),
            IndexStep::Commit => StepModel::Commit,
            IndexStep::CreateFilenameIndex => StepModel::CreateFilenameIndex,
        }
    }
}

impl DeepView for IndexStep {
    type V = StepModel;

    open spec fn deep_view(&self) -> StepModel {
        self@
    }
}

/// The last flush of a run: what still waits, if anything does.
pub open spec fn last_flush(deletes: Seq<Seq<char>>, chunks: Seq<ChunkModel>) -> Seq<StepModel> {
    if deletes.len() > 0 || chunks.len() > 0 {
        seq![StepModel::Flush { deletes, chunks }]
    } else {
        Seq::empty()
    }
}

/// The deletions of stale files, batch by batch; none unless the run
/// updates.
pub open spec fn stale_steps(update: bool, stale: Seq<Seq<char>>, batch_size: int) -> Seq<
    StepModel,
> {
    if update {
        batches_from(stale, batch_size, 0).map_values(
            |names: Seq<Seq<char>>| StepModel::DeleteStale(names),
        )
    } else {
        Seq::empty()
    }
}

/// The steps with which a run ends: the last flush, the deletions of stale
/// files, one commit of the lexical store, and the index on file names.
pub open spec fn closing_steps(
    update: bool,
    batch_size: int,
    existing: Seq<(Seq<char>, i64)>,
    visited: Seq<Seq<char>>,
    deletes: Seq<Seq<char>>,
    chunks: Seq<ChunkModel>,
) -> Seq<StepModel> {
    last_flush(deletes, chunks) + stale_steps(update, stale_of(existing, visited), batch_size)
        + seq![StepModel::Commit, StepModel::CreateFilenameIndex]
}

impl IndexRun {
    /// Ends the run: hands out, in the order in which they are carried out,
    /// the last flush, the deletions of stale files, the one commit of the
    /// lexical store, and the optimisation of the vector store.
    pub fn finish(self) -> (steps: Vec<IndexStep>)
        requires
            self.settings.batch_size > 0,
        ensures
            steps.deep_view() == closing_steps(
                self.settings.update,
                self.settings.batch_size as int,
                self.existing.deep_view(),
                self.visited.deep_view(),
                self.pending_deletes.deep_view(),
                self.chunks_buffer.deep_view(),
            ),
    {
        let mut run = self;
        let mut steps: Vec<IndexStep> = Vec::new();
        assert(steps.deep_view() =~= Seq::<StepModel>::empty());
        let stale = if run.settings.update {
            batches(&run.stale_files(), run.settings.batch_size)
        } else {
            Vec::new()
        };
        let ghost flush = last_flush(run.pending_deletes.deep_view(), run.chunks_buffer.deep_view());
        let ghost removals = stale_steps(
            run.settings.update,
            stale_of(run.existing.deep_view(), run.visited.deep_view()),
            run.settings.batch_size as int,
        );
        assert(stale.deep_view().map_values(|names: Seq<Seq<char>>| StepModel::DeleteStale(names))
            =~= removals);
        if run.has_pending() {
            let batch = run.take_batch();
            let step = IndexStep::Flush(batch);
            proof {
                lemma_deep_view_push(steps@, steps@.push(step), step);
            }
            steps.push(step);
        }
        assert(steps.deep_view() =~= flush);
        let mut rest = stale;
        let ghost given = rest@;
        let ghost mut done: int = 0;
        while rest.len() > 0
            invariant
                0 <= done <= given.len(),
                rest@ == given.skip(done),
                removals.len() == given.len(),
                forall|i: int|
                    0 <= i < given.len() ==> (#[trigger] removals[i]) == StepModel::DeleteStale(
                        given[i].deep_view(),
                    ),
                steps.deep_view() == flush + removals.take(done),
            decreases rest.len(),
        {
            let names = rest.remove(0);
            assert(names == given[done]);
            let step = IndexStep::DeleteStale(names);
            proof {
                lemma_deep_view_push(steps@, steps@.push(step), step);
                assert((flush + removals.take(done)).push(step@) =~= flush + removals.take(
                    done + 1,
                ));
                assert(given.skip(done).skip(1) =~= given.skip(done + 1));
                done = done + 1;
            }
            steps.push(step);
        }
        assert(given.skip(done).len() == 0);
        assert(removals.take(done) =~= removals);
        let ghost writes = steps.deep_view();
        proof {
            lemma_deep_view_push(steps@, steps@.push(IndexStep::Commit), IndexStep::Commit);
        }
        steps.push(IndexStep::Commit);
        proof {
            lemma_deep_view_push(
                steps@,
                steps@.push(IndexStep::CreateFilenameIndex),
                IndexStep::CreateFilenameIndex,
            );
        }
        steps.push(IndexStep::CreateFilenameIndex);
        assert(steps.deep_view() =~= writes + seq![
            StepModel::Commit,
            StepModel::CreateFilenameIndex,
        ]);
        steps
    }
}

/// A run ends with exactly one commit of the lexical store, which comes
/// after every flush and every deletion; only the index on file names
/// follows it.
pub proof fn lemma_commit_once_after_writes(
    update: bool,
    batch_size: int,
    existing: Seq<(Seq<char>, i64)>,
    visited: Seq<Seq<char>>,
    deletes: Seq<Seq<char>>,
    chunks: Seq<ChunkModel>,
)
    ensures
        closing_steps(update, batch_size, existing, visited, deletes, chunks).len() >= 2,
        forall|i: int|
            0 <= i < closing_steps(update, batch_size, existing, visited, deletes, chunks).len()
                ==> ((#[trigger] closing_steps(
                update,
                batch_size,
                existing,
                visited,
                deletes,
                chunks,
            )[i]) is Commit <==> i == closing_steps(
                update,
                batch_size,
                existing,
                visited,
                deletes,
                chunks,
            ).len() - 2),
        closing_steps(update, batch_size, existing, visited, deletes, chunks).last()
            is CreateFilenameIndex,
{
    let flush = last_flush(deletes, chunks);
    let removals = stale_steps(update, stale_of(existing, visited), batch_size);
    let steps = closing_steps(update, batch_size, existing, visited, deletes, chunks);
    assert forall|i: int| 0 <= i < steps.len() implies ((#[trigger] steps[i]) is Commit <==> i
        == steps.len() - 2) by {
        if i < flush.len() {
            assert(steps[i] == flush[i]);
        } else if i < flush.len() + removals.len() {
            assert(steps[i] == removals[i - flush.len()]);
        }
    }
}

/// In a run that does not update, a file is chunked exactly when no
/// exclusion occurs in its path, its extension is in the language table and
/// it is no larger than the limit.
pub proof fn lemma_fresh_run_chunks(
    max_file_size_bytes: u64,
    exclusions: Seq<Seq<char>>,
    existing: Seq<(Seq<char>, i64)>,
    path: Seq<char>,
    size: u64,
    mtime: i64,
)
    ensures
        decision_of(false, max_file_size_bytes, exclusions, existing, path, size, mtime)
            == FileDecision::Index <==> (!is_excluded(path, exclusions) && language_of(
            extension_of(path),
        ) is Some && size <= max_file_size_bytes),
        decision_of(false, max_file_size_bytes, exclusions, existing, path, size, mtime)
            != FileDecision::Replace,
        decision_of(false, max_file_size_bytes, exclusions, existing, path, size, mtime)
            != FileDecision::Unchanged,
{
}

/// In a run that updates, a file that the store holds with the same
/// modification time is never chunked again, and a file that it holds with
/// another one is replaced.
pub proof fn lemma_update_skips_unchanged(
    max_file_size_bytes: u64,
    exclusions: Seq<Seq<char>>,
    existing: Seq<(Seq<char>, i64)>,
    path: Seq<char>,
    size: u64,
    mtime: i64,
)
    requires
        stored_mtime(existing, path, existing.len() as int) is Some,
    ensures
        stored_mtime(existing, path, existing.len() as int) == Some(mtime) ==> decision_of(
            true,
            max_file_size_bytes,
            exclusions,
            existing,
            path,
            size,
            mtime,
        ) != FileDecision::Index && decision_of(
            true,
            max_file_size_bytes,
            exclusions,
            existing,
            path,
            size,
            mtime,
        ) != FileDecision::Replace,
        counts_as_visited(
            decision_of(true, max_file_size_bytes, exclusions, existing, path, size, mtime),
        ) && stored_mtime(existing, path, existing.len() as int) != Some(mtime) ==> decision_of(
            true,
            max_file_size_bytes,
            exclusions,
            existing,
            path,
            size,
            mtime,
        ) == FileDecision::Replace,
{
}

/// A line number cut to the 32 bits that the stores keep of it.
pub open spec fn cut_to_i32(line: int) -> i32 {
    #[verifier::truncate]
    (line as i32)
}

/// The columns of a batch of rows for the vector store, one entry for each
/// chunk in each column.
#[derive(Debug)]
pub struct ChunkColumns {
    pub ids: Vec<String>,
    pub filenames: Vec<String>,
    pub codes: Vec<String>,
    pub line_starts: Vec<i32>,
    pub line_ends: Vec<i32>,
    pub last_modified: Vec<i64>,
    pub calls: Vec<Vec<String>>,
}

/// Whether the columns hold, row for row, what the chunks hold: the id of
/// each chunk, its file name, code, lines cut to 32 bits, modification time
/// and calls.
pub open spec fn columns_match(columns: ChunkColumns, chunks: Seq<ChunkModel>) -> bool {
    &&& columns.ids.deep_view() == Seq::new(
        chunks.len(),
        |i: int|
            crate::indexer::chunk_id_of(chunks[i].filename, chunks[i].line_start, chunks[i].line_end),
    )
    &&& columns.filenames.deep_view() == Seq::new(chunks.len(), |i: int| chunks[i].filename)
    &&& columns.codes.deep_view() == Seq::new(chunks.len(), |i: int| chunks[i].code)
    &&& columns.line_starts@ == Seq::new(chunks.len(), |i: int| cut_to_i32(chunks[i].line_start))
    &&& columns.line_ends@ == Seq::new(chunks.len(), |i: int| cut_to_i32(chunks[i].line_end))
    &&& columns.last_modified@ == Seq::new(chunks.len(), |i: int| chunks[i].last_modified as i64)
    &&& columns.calls.deep_view() == Seq::new(chunks.len(), |i: int| chunks[i].calls)
}

/// Lays the chunks out in columns.
pub fn columns_of(chunks: &Vec<CodeChunk>) -> (columns: ChunkColumns)
    ensures
        columns_match(columns, chunks.deep_view()),
{
    let mut columns = ChunkColumns {
        ids: Vec::new(),
        filenames: Vec::new(),
        codes: Vec::new(),
        line_starts: Vec::new(),
        line_ends: Vec::new(),
        last_modified: Vec::new(),
        calls: Vec::new(),
    };
    let mut i: usize = 0;
    while i < chunks.len()
        invariant
            i <= chunks.len(),
            columns.ids.len() == i,
            columns.filenames.len() == i,
            columns.codes.len() == i,
            columns.line_starts.len() == i,
            columns.line_ends.len() == i,
            columns.last_modified.len() == i,
            columns.calls.len() == i,
            forall|j: int|
                0 <= j < i ==> (#[trigger] columns.ids@[j])@ == crate::indexer::chunk_id_of(
                    chunks@[j]@.filename,
                    chunks@[j]@.line_start,
                    chunks@[j]@.line_end,
                ),
            forall|j: int| 0 <= j < i ==> (#[trigger] columns.filenames@[j])@ == chunks@[j]@.filename,
            forall|j: int| 0 <= j < i ==> (#[trigger] columns.codes@[j])@ == chunks@[j]@.code,
            forall|j: int|
                0 <= j < i ==> (#[trigger] columns.line_starts@[j]) == cut_to_i32(
                    chunks@[j]@.line_start,
                ),
            forall|j: int|
                0 <= j < i ==> (#[trigger] columns.line_ends@[j]) == cut_to_i32(
                    chunks@[j]@.line_end,
                ),
            forall|j: int|
                0 <= j < i ==> (#[trigger] columns.last_modified@[j]) == chunks@[j].last_modified,
            forall|j: int|
                0 <= j < i ==> (#[trigger] columns.calls@[j]).deep_view() == chunks@[j]@.calls,
        decreases chunks.len() - i,
    {
        let chunk = &chunks[i];
        columns.ids.push(chunk.id());
        columns.filenames.push(chunk.filename.clone());
        columns.codes.push(chunk.code.clone());
        columns.line_starts.push(#[verifier::truncate] (chunk.line_start as i32));
        columns.line_ends.push(#[verifier::truncate] (chunk.line_end as i32));
        columns.last_modified.push(chunk.last_modified);
        columns.calls.push(copy_texts(&chunk.calls));
        i += 1;
    }
    assert(columns.ids.deep_view() =~= Seq::new(
        chunks.deep_view().len(),
        |i: int|
            crate::indexer::chunk_id_of(
                chunks.deep_view()[i].filename,
                chunks.deep_view()[i].line_start,
                chunks.deep_view()[i].line_end,
            ),
    ));
    assert(columns.filenames.deep_view() =~= Seq::new(
        chunks.deep_view().len(),
        |i: int| chunks.deep_view()[i].filename,
    ));
    assert(columns.codes.deep_view() =~= Seq::new(
        chunks.deep_view().len(),
        |i: int| chunks.deep_view()[i].code,
    ));
    assert(columns.line_starts@ =~= Seq::new(
        chunks.deep_view().len(),
        |i: int| cut_to_i32(chunks.deep_view()[i].line_start),
    ));
    assert(columns.line_ends@ =~= Seq::new(
        chunks.deep_view().len(),
        |i: int| cut_to_i32(chunks.deep_view()[i].line_end),
    ));
    assert(columns.last_modified@ =~= Seq::new(
        chunks.deep_view().len(),
        |i: int| chunks.deep_view()[i].last_modified as i64,
    ));
    assert(columns.calls.deep_view() =~= Seq::new(
        chunks.deep_view().len(),
        |i: int| chunks.deep_view()[i].calls,
    ));
    columns
}

} // verus!
