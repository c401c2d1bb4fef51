//! The compute pipeline of a generate run, in one verified step: from a
//! finished walk result and the completed file readings to the final
//! document text.
//!
//! The caller supplies what only the filesystem can give — the walk
//! entries and the readings — and receives a document pinned down
//! exactly: the rendered tree of the entries, the file records
//! reassembled in discovery order, and the serialization for the chosen
//! format and timestamp.

use vstd::prelude::*;
use vstd::string::*;
use crate::cli::OutputFormat;
use crate::error::JockeyError;
use crate::materialize::{all_covered, assemble_records, indexes_in_range, lookup_last, Reading, ReadingV};
use crate::output::{doc_spec, render_document, FileEntryV, Repository, RepositoryV};
use crate::tree::{assembled_tree, file_paths, render_node, TreeBuilder};
use crate::walker::{EntryV, WalkEntry};

verus! {

/// The file records a run materializes: path `i` of the discovery order
/// paired with the content read for position `i`.
pub open spec fn materialized_files(entries: Seq<EntryV>, rds: Seq<ReadingV>) -> Seq<FileEntryV> {
    Seq::new(
        file_paths(entries).len(),
        |i: int|
            FileEntryV { path: file_paths(entries)[i], content: lookup_last(rds, i)->Some_0 },
    )
}

/// The document a run produces for a walk result, readings, format and
/// timestamp.
pub open spec fn generated_doc(
    target: Seq<char>,
    entries: Seq<EntryV>,
    rds: Seq<ReadingV>,
    format: OutputFormat,
    ts: Seq<char>,
) -> Seq<char> {
    doc_spec(
        RepositoryV {
            tree: render_node(
                assembled_tree(target, entries),
                Seq::<char>::empty(),
                Seq::<char>::empty(),
            ),
            files: materialized_files(entries, rds),
        },
        format,
        ts,
    )
}

/// Runs the compute side of a generate: assembles and renders the tree,
/// reassembles the readings in discovery order, and serializes. It fails
/// exactly when the readings do not cover the discovered files.
pub fn generate_document(
    target: &String,
    entries: &Vec<WalkEntry>,
    readings: &Vec<Reading>,
    format: OutputFormat,
    ts: &str,
) -> (r: Result<String, JockeyError>)
    ensures
        r is Ok <==> indexes_in_range(
            readings.deep_view(),
            file_paths(entries.deep_view()).len() as int,
        ) && all_covered(readings.deep_view(), file_paths(entries.deep_view()).len() as int),
        r matches Ok(doc) ==> doc@ == generated_doc(
            target@,
            entries.deep_view(),
            readings.deep_view(),
            format,
            ts@,
        ),
        r matches Err(e) ==> e is Processing,
{
    let ghost es = entries.deep_view();
    let ghost rds = readings.deep_view();
    let (tree, files) = TreeBuilder::process_directory(target.as_str(), entries);
    let records = match assemble_records(&files, &readings) {
        Ok(records) => records,
        Err(e) => {
            return Err(e);
        },
    };
    proof {
        assert(records.deep_view() =~~= materialized_files(es, rds));
    }
    let repo = Repository { tree, files: records };
    proof {
        assert(repo@ =~~= (RepositoryV {
            tree: render_node(
                assembled_tree(target@, es),
                Seq::<char>::empty(),
                Seq::<char>::empty(),
            ),
            files: materialized_files(es, rds),
        }));
    }
    Ok(render_document(&repo, format, ts))
}

} // verus!
