//! What the user interface asks of the engine, with errors as plain text.

use vstd::prelude::*;
use crate::config::Config;
use crate::tantivy_engine::IndexStats;
use crate::tantivy_engine::TantivyEngine;

verus! {

/// One step of rebuilding the index.
#[derive(Debug)]
pub enum RebuildStep {
    /// Remove the index from disk.
    Clear,
    /// Scan this folder into the index.
    IndexFolder(String),
}

/// A step of rebuilding as mathematical values.
pub enum RebuildStepView {
    Clear,
    IndexFolder(Seq<char>),
}

impl View for RebuildStep {
    type V = RebuildStepView;

    open spec fn view(&self) -> RebuildStepView {
        match self {
            RebuildStep::Clear => RebuildStepView::Clear,
            RebuildStep::IndexFolder(folder) => RebuildStepView::IndexFolder(folder@),
        }
    }
}

/// The views of a list of steps.
pub open spec fn step_views(steps: Seq<RebuildStep>) -> Seq<RebuildStepView> {
    steps.map_values(|s: RebuildStep| s@)
}

/// The steps of rebuilding the index for `folders`: clear it, then scan
/// each folder in order.
pub open spec fn rebuild_steps(folders: Seq<Seq<char>>) -> Seq<RebuildStepView> {
    seq![RebuildStepView::Clear] + folders.map_values(
        |folder: Seq<char>| RebuildStepView::IndexFolder(folder),
    )
}

/// The steps of rebuilding the index from the indexed folders of the
/// settings.
pub fn rebuild_index(config: &Config) -> (r: Vec<RebuildStep>)
    ensures
        step_views(r@) == rebuild_steps(config@.indexed_folders),
{
    let mut steps: Vec<RebuildStep> = Vec::new();
    steps.push(RebuildStep::Clear);
    let mut i: usize = 0;
    while i < config.indexed_folders.len()
        invariant
            i <= config.indexed_folders.len(),
            steps.len() == i + 1,
            steps@[0]@ == RebuildStepView::Clear,
            forall|k: int|
                0 <= k < i ==> (#[trigger] steps@[k + 1])@ == RebuildStepView::IndexFolder(
                    config.indexed_folders@[k]@,
                ),
        decreases config.indexed_folders.len() - i,
    {
        steps.push(RebuildStep::IndexFolder(config.indexed_folders[i].clone()));
        i = i + 1;
    }
    assert(step_views(steps@) =~= rebuild_steps(config@.indexed_folders)) by {
        assert forall|k: int| 0 <= k < steps.len() implies step_views(steps@)[k] == rebuild_steps(
            config@.indexed_folders,
        )[k] by {
            if k > 0 {
                assert(steps@[(k - 1) + 1]@ == RebuildStepView::IndexFolder(
                    config.indexed_folders@[k - 1]@,
                ));
            }
        }
    }
    steps
}

/// The text of the error of an engine whose index is not open.
pub open spec fn not_open_message() -> Seq<char> {
    "the index is not open"@
}

/// How many documents the index holds, or the text of the error.
pub fn get_document_count(engine: &TantivyEngine) -> (r: Result<u64, String>)
    ensures
        !engine.is_open() ==> (r matches Err(message) && message@ == not_open_message()),
{
    match engine.get_document_count() {
        Ok(count) => Ok(count),
        Err(e) => Err(e.to_message()),
    }
}

/// The figures of the index, or the text of the error. `size_bytes` is
/// the size of the index directory as it was measured on disk.
pub fn get_index_stats(engine: &TantivyEngine, size_bytes: u64) -> (r: Result<IndexStats, String>)
    ensures
        !engine.is_open() ==> (r matches Err(message) && message@ == not_open_message()),
        r matches Ok(stats) ==> stats.size_bytes == size_bytes && stats.index_path@
            == engine.path(),
{
    match engine.get_index_stats(size_bytes) {
        Ok(stats) => Ok(stats),
        Err(e) => Err(e.to_message()),
    }
}

} // verus!
