//! The files that the input templates match, and whether the input sources
//! agree on them.
//!
//! The sources are aligned by place: the first file of each belongs together,
//! then the second of each, and so on. So every source must have as many files
//! as the first, with the same groups at every place.

use crate::ada::{groups_in, lemma_round_trip, path_text_for, PathError, PathX};
use crate::entry::PathXEntry;
use vstd::prelude::*;

verus! {

/// A file that an input template matched, with the groups found in its path.
#[derive(Debug)]
pub struct InputItem {
    pub path: String,
    pub group_cache: Vec<String>,
}

/// An input template with the files of its directory that it matched, in the
/// order in which the directory gave them.
#[derive(Debug)]
pub struct InputEntry {
    pub pathx_entry: PathXEntry,
    pub items: Vec<InputItem>,
}

/// Each item as its path and its groups.
pub open spec fn items_view(items: Seq<InputItem>) -> Seq<(Seq<char>, Seq<Seq<char>>)> {
    Seq::new(items.len(), |i: int| (items[i].path@, items[i].group_cache.deep_view()))
}

/// The groups of each item, in order.
pub open spec fn keys_of(items: Seq<InputItem>) -> Seq<Seq<Seq<char>>> {
    Seq::new(items.len(), |i: int| items[i].group_cache.deep_view())
}

/// Those of the first `k` paths that the pattern matches, each with its
/// groups, in the order of the paths.
pub open spec fn matched(pattern: Seq<char>, paths: Seq<Seq<char>>, k: int) -> Seq<
    (Seq<char>, Seq<Seq<char>>),
>
    decreases k,
{
    if k <= 0 {
        Seq::empty()
    } else {
        match groups_in(pattern, paths[k - 1]) {
            Some(groups) => matched(pattern, paths, k - 1).push((paths[k - 1], groups)),
            None => matched(pattern, paths, k - 1),
        }
    }
}

/// Keeps the paths that the template matches, each with its groups. A path
/// that does not match is left out and is no error.
pub fn matched_items(pathx: &PathX, paths: &Vec<String>) -> (items: Vec<InputItem>)
    ensures
        items_view(items@) == matched(pathx.source(), paths.deep_view(), paths.len() as int),
{
    let mut items: Vec<InputItem> = Vec::new();
    let mut k: usize = 0;
    while k < paths.len()
        invariant
            k <= paths.len(),
            items_view(items@) == matched(pathx.source(), paths.deep_view(), k as int),
        decreases paths.len() - k,
    {
        let ghost before = items_view(items@);
        assert(paths.deep_view()[k as int] == paths@[k as int]@);
        match pathx.get_groups(paths[k].as_str()) {
            Some(group_cache) => {
                items.push(InputItem { path: paths[k].clone(), group_cache });
                assert(items_view(items@) =~= before.push(
                    (paths@[k as int]@, group_cache.deep_view()),
                ));
            },
            None => {},
        }
        k = k + 1;
    }
    items
}

/// Why the input sources do not correlate.
#[derive(Debug, Clone, Copy, PartialEq, Eq)]
pub enum AlignError {
    /// An input source has another number of items than the first.
    InconsistentItemCounts,
    /// An input source has, at some place, other groups than the first.
    InconsistentGroupKeys,
}

/// Whether every input source has as many items as the first.
pub open spec fn counts_agree(inputs: Seq<InputEntry>) -> bool {
    forall|k: int|
        0 <= k < inputs.len() ==> (#[trigger] inputs[k]).items@.len() == inputs[0].items@.len()
}

/// Whether every input source has, place by place, the groups of the first.
pub open spec fn keys_agree(inputs: Seq<InputEntry>) -> bool {
    forall|k: int|
        0 <= k < inputs.len() ==> keys_of((#[trigger] inputs[k]).items@) == keys_of(
            inputs[0].items@,
        )
}

/// The number of items of the first input source; 0 where there is none.
pub open spec fn item_count(inputs: Seq<InputEntry>) -> nat {
    if inputs.len() == 0 {
        0
    } else {
        inputs[0].items@.len()
    }
}

/// The number of aligned items, or the reason why the input sources are not
/// aligned. The counts are looked at before any groups.
pub open spec fn alignment(inputs: Seq<InputEntry>) -> Result<nat, AlignError> {
    if !counts_agree(inputs) {
        Err(AlignError::InconsistentItemCounts)
    } else if !keys_agree(inputs) {
        Err(AlignError::InconsistentGroupKeys)
    } else {
        Ok(item_count(inputs))
    }
}

/// Whether two lists of strings are the same.
fn same_strings(a: &Vec<String>, b: &Vec<String>) -> (same: bool)
    ensures
        same == (a.deep_view() == b.deep_view()),
{
    if a.len() != b.len() {
        assert(a.deep_view().len() != b.deep_view().len());
        return false;
    }
    let mut i: usize = 0;
    while i < a.len()
        invariant
            i <= a.len(),
            a.len() == b.len(),
            forall|j: int| 0 <= j < i ==> a.deep_view()[j] == b.deep_view()[j],
        decreases a.len() - i,
    {
        if a[i] != b[i] {
            assert(a.deep_view()[i as int] != b.deep_view()[i as int]);
            return false;
        }
        i = i + 1;
    }
    assert(a.deep_view() =~= b.deep_view());
    true
}

/// Whether two lists of items have, place by place, the same groups.
fn same_keys(a: &Vec<InputItem>, b: &Vec<InputItem>) -> (same: bool)
    ensures
        same == (keys_of(a@) == keys_of(b@)),
{
    if a.len() != b.len() {
        assert(keys_of(a@).len() != keys_of(b@).len());
        return false;
    }
    let mut i: usize = 0;
    while i < a.len()
        invariant
            i <= a.len(),
            a.len() == b.len(),
            forall|j: int| 0 <= j < i ==> keys_of(a@)[j] == keys_of(b@)[j],
        decreases a.len() - i,
    {
        if !same_strings(&a[i].group_cache, &b[i].group_cache) {
            assert(keys_of(a@)[i as int] != keys_of(b@)[i as int]);
            return false;
        }
        i = i + 1;
    }
    assert(keys_of(a@) =~= keys_of(b@));
    true
}

/// Holds the input sources against the first of them: first the number of
/// items of each, then, place by place, the groups of each.
pub fn check_alignment(inputs: &Vec<InputEntry>) -> (r: Result<usize, AlignError>)
    ensures
        match alignment(inputs@) {
            Ok(count) => r matches Ok(n) && n == count,
            Err(e) => r == Err::<usize, AlignError>(e),
        },
{
    if inputs.len() == 0 {
        return Ok(0);
    }
    let count: usize = inputs[0].items.len();
    let mut k: usize = 1;
    while k < inputs.len()
        invariant
            1 <= k <= inputs.len(),
            count == inputs@[0].items@.len(),
            forall|j: int| 0 <= j < k ==> (#[trigger] inputs@[j]).items@.len() == count,
        decreases inputs.len() - k,
    {
        if inputs[k].items.len() != count {
            return Err(AlignError::InconsistentItemCounts);
        }
        k = k + 1;
    }
    k = 1;
    while k < inputs.len()
        invariant
            1 <= k <= inputs.len(),
            counts_agree(inputs@),
            forall|j: int|
                0 <= j < k ==> keys_of((#[trigger] inputs@[j]).items@) == keys_of(
                    inputs@[0].items@,
                ),
        decreases inputs.len() - k,
    {
        if !same_keys(&inputs[k].items, &inputs[0].items) {
            return Err(AlignError::InconsistentGroupKeys);
        }
        k = k + 1;
    }
    Ok(count)
}

/// Two input sources with different numbers of items make the alignment fail
/// with `InconsistentItemCounts`, whatever their groups are.
pub proof fn lemma_different_counts(inputs: Seq<InputEntry>, j: int, k: int)
    requires
        0 <= j < inputs.len(),
        0 <= k < inputs.len(),
        inputs[j].items@.len() != inputs[k].items@.len(),
    ensures
        alignment(inputs) == Err::<nat, AlignError>(AlignError::InconsistentItemCounts),
{
}

/// Input sources that all have the same number of items, two of which have
/// different groups at some place, make the alignment fail with
/// `InconsistentGroupKeys`.
pub proof fn lemma_different_keys(inputs: Seq<InputEntry>, j: int, k: int, i: int)
    requires
        counts_agree(inputs),
        0 <= j < inputs.len(),
        0 <= k < inputs.len(),
        0 <= i < item_count(inputs),
        inputs[j].items@[i].group_cache.deep_view() != inputs[k].items@[i].group_cache.deep_view(),
    ensures
        alignment(inputs) == Err::<nat, AlignError>(AlignError::InconsistentGroupKeys),
{
    let first = keys_of(inputs[0].items@);
    if keys_of(inputs[j].items@) == first && keys_of(inputs[k].items@) == first {
        assert(keys_of(inputs[j].items@)[i] == keys_of(inputs[k].items@)[i]);
    }
}

/// Aligned input sources have, at every place, the same groups.
pub proof fn lemma_aligned_keys(inputs: Seq<InputEntry>, j: int, k: int, i: int)
    requires
        alignment(inputs) is Ok,
        0 <= j < inputs.len(),
        0 <= k < inputs.len(),
        0 <= i < item_count(inputs),
    ensures
        inputs[j].items@.len() == item_count(inputs),
        inputs[k].items@.len() == item_count(inputs),
        inputs[j].items@[i].group_cache.deep_view() == inputs[k].items@[i].group_cache.deep_view(),
{
    assert(keys_of(inputs[j].items@)[i] == keys_of(inputs[0].items@)[i]);
    assert(keys_of(inputs[k].items@)[i] == keys_of(inputs[0].items@)[i]);
}

/// A matched item has the groups that the pattern finds in its path, so
/// writing its path anew with its own groups gives the path back: an input
/// source whose path can be written for an aligned item is handed on as the
/// file that was found.
pub proof fn lemma_matched_item(pattern: Seq<char>, paths: Seq<Seq<char>>, k: int, j: int)
    requires
        0 <= j < matched(pattern, paths, k).len(),
    ensures
        ({
            let (path, groups) = matched(pattern, paths, k)[j];
            &&& groups_in(pattern, path) == Some(groups)
            &&& match path_text_for(pattern, path, groups) {
                Ok(written) => written == path,
                Err(e) => e != PathError::NoMatch,
            }
        }),
    decreases k,
{
    if k > 0 {
        let before = matched(pattern, paths, k - 1);
        if j < before.len() {
            lemma_matched_item(pattern, paths, k - 1, j);
        } else {
            lemma_round_trip(pattern, paths[k - 1]);
        }
    }
}

} // verus!
