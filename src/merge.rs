//! The argument list of a merge: source SVG files, then the destination PDF.
use vstd::prelude::*;

use crate::naming::{lemma_page_file_names_sorted, page_file_name};

verus! {

/// Why a merge's argument list was refused.
#[derive(Debug, Clone, Copy, PartialEq, Eq, Structural)]
pub enum MergeArgsError {
    /// The list was empty: there is no destination file.
    MissingDestination,
}

/// The sources of a merge's argument list: all but its last element.
pub open spec fn merge_sources<T>(files: Seq<T>) -> Seq<T> {
    files.drop_last()
}

/// Splits a merge's argument list into its sources, in order, and its
/// destination, the last element. A single element is a destination with no
/// sources; an empty list has no destination and is refused.
pub fn split_merge_args<T>(files: Vec<T>) -> (r: Result<(Vec<T>, T), MergeArgsError>)
    ensures
        files@.len() == 0 <==> r == Err::<(Vec<T>, T), _>(MergeArgsError::MissingDestination),
        files@.len() > 0 ==> r is Ok,
        r matches Ok((sources, destination)) ==> sources@ == merge_sources(files@)
            && destination == files@.last(),
{
    let mut files = files;
    match files.pop() {
        Some(destination) => Ok((files, destination)),
        None => Err(MergeArgsError::MissingDestination),
    }
}

/// The file names that an extraction of `page_count` pages writes, followed
/// by a destination, are a merge list whose sources are exactly those names,
/// one per page, in page order and pairwise distinct.
pub proof fn lemma_merge_of_extracted_pages(
    prefix: Seq<char>,
    page_count: nat,
    names: Seq<Seq<char>>,
    destination: Seq<char>,
)
    requires
        names.len() == page_count,
        forall|i: int| 0 <= i < page_count ==> #[trigger] names[i] == page_file_name(prefix, i as nat, page_count),
    ensures
        merge_sources(names.push(destination)) == names,
        merge_sources(names.push(destination)).len() == page_count,
        forall|i: int, j: int|
            0 <= i < j < page_count ==> #[trigger] names[i] != #[trigger] names[j],
{
    assert(names.push(destination).drop_last() =~= names);
    assert forall|i: int, j: int| 0 <= i < j < page_count implies #[trigger] names[i]
        != #[trigger] names[j] by {
        lemma_page_file_names_sorted(prefix, page_count, i as nat, j as nat);
    }
}

} // verus!
