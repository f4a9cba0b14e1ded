//! One run from the options to the argument list of every merge.
//!
//! A run is set up from the options, is given the entries of the directory of
//! each input source, is aligned, and then gives, for every aligned item, the
//! options with every template replaced by a concrete path.

use crate::ada::{path_text_for, pattern_source, PathError};
use crate::align::{
    alignment, check_alignment, items_view, matched, matched_items, AlignError, InputEntry,
};
use crate::entry::{parent_text, EntryError, PathXEntry};
use crate::options::{layout_of, lemma_layout_places, places_in_order, scan_options};
use vstd::prelude::*;

verus! {

/// Why no run could be set up from the options.
#[derive(Debug, Clone, Copy, PartialEq, Eq)]
pub enum RunError {
    /// `--output` or `(` is the last option: the template behind it is
    /// missing.
    MissingTemplate,
    /// No option is `--output`.
    MissingOutput,
    /// No option is `(`.
    NoInputs,
    /// The template at place `idx` among the options did not become an entry.
    Template { idx: usize, cause: EntryError },
}

/// Why the directory of an input source gave no items.
#[derive(Debug, Clone, Copy, PartialEq, Eq)]
pub enum ScanError {
    /// The directory of input source `source` could not be listed.
    DirectoryRead { source: usize },
}

/// Whether the entry is the one for the template at place `idx`.
pub open spec fn entry_describes(entry: PathXEntry, options: Seq<Seq<char>>, idx: usize) -> bool {
    &&& entry.idx == idx
    &&& Some(entry.dir@) == parent_text(options[idx as int])
    &&& entry.dir@.is_prefix_of(options[idx as int])
    &&& entry.dir@.len() < options[idx as int].len()
    &&& Some(entry.pathx.source()) == pattern_source(options[idx as int])
}

/// Why a template cannot become an entry, or `None` where it can: it has no
/// parent directory, or else it does not compile.
pub open spec fn entry_failure(template: Seq<char>) -> Option<EntryError> {
    if parent_text(template) is None {
        Some(EntryError::NoParent)
    } else if pattern_source(template) is None {
        Some(EntryError::Pattern)
    } else {
        None
    }
}

/// Whether every template can become an entry.
pub open spec fn templates_sound(
    options: Seq<Seq<char>>,
    output: usize,
    inputs: Seq<usize>,
) -> bool {
    &&& entry_failure(options[output as int]) is None
    &&& forall|k: int|
        0 <= k < inputs.len() ==> entry_failure(options[(#[trigger] inputs[k]) as int]) is None
}

/// Whether `idx` is the place of the first template that cannot become an
/// entry, and `cause` the reason: the output template comes first, then the
/// input templates in their order.
pub open spec fn first_failure(
    options: Seq<Seq<char>>,
    output: usize,
    inputs: Seq<usize>,
    idx: usize,
    cause: EntryError,
) -> bool {
    &&& entry_failure(options[idx as int]) == Some(cause)
    &&& idx == output || exists|k: int|
        {
            &&& 0 <= k < inputs.len()
            &&& #[trigger] inputs[k] == idx
            &&& entry_failure(options[output as int]) is None
            &&& forall|j: int|
                0 <= j < k ==> entry_failure(options[(#[trigger] inputs[j]) as int]) is None
        }
}

/// The place of the template of input source `k` among the options.
pub open spec fn place_of(inputs: Seq<InputEntry>, k: int) -> int {
    inputs[k].pathx_entry.idx as int
}

/// The path written for input source `k` from its `i`-th item and the groups
/// `key`, or the reason why none is written.
pub open spec fn input_path(inputs: Seq<InputEntry>, key: Seq<Seq<char>>, i: int, k: int) -> Result<
    Seq<char>,
    PathError,
> {
    path_text_for(inputs[k].pathx_entry.pathx.source(), inputs[k].items@[i].path@, key)
}

/// The options with, for each of the first `k` input sources, the path written
/// from its `i`-th item and the groups `key` at the place of its template; or
/// the first failure to write one.
pub open spec fn resolved_inputs(
    options: Seq<Seq<char>>,
    inputs: Seq<InputEntry>,
    key: Seq<Seq<char>>,
    i: int,
    k: int,
) -> Result<Seq<Seq<char>>, PathError>
    decreases k,
{
    if k <= 0 {
        Ok(options)
    } else {
        match resolved_inputs(options, inputs, key, i, k - 1) {
            Err(e) => Err(e),
            Ok(so_far) => match input_path(inputs, key, i, k - 1) {
                Err(e) => Err(e),
                Ok(path) => Ok(so_far.update(place_of(inputs, k - 1), path)),
            },
        }
    }
}

/// The options for the `i`-th aligned item: the output path, written from the
/// output template, at the place of the output template, and the path of each
/// input source at the place of its template, all with the groups of the
/// `i`-th item of the first input source; or the first failure to write one.
pub open spec fn resolved(
    options: Seq<Seq<char>>,
    output_template: Seq<char>,
    output: PathXEntry,
    inputs: Seq<InputEntry>,
    i: int,
) -> Result<Seq<Seq<char>>, PathError> {
    let key = inputs[0].items@[i].group_cache.deep_view();
    match path_text_for(output.pathx.source(), output_template, key) {
        Err(e) => Err(e),
        Ok(path) => resolved_inputs(
            options.update(output.idx as int, path),
            inputs,
            key,
            i,
            inputs.len() as int,
        ),
    }
}

/// Whether no two input templates have the same place among the options.
pub open spec fn input_places_differ(inputs: Seq<InputEntry>) -> bool {
    forall|j: int, k: int|
        0 <= j < k < inputs.len() ==> #[trigger] place_of(inputs, j) != #[trigger] place_of(
            inputs,
            k,
        )
}

/// Whether no two templates of a run have the same place among the options.
pub open spec fn places_differ(output: PathXEntry, inputs: Seq<InputEntry>) -> bool {
    &&& forall|k: int| 0 <= k < inputs.len() ==> #[trigger] place_of(inputs, k) != output.idx
    &&& input_places_differ(inputs)
}

/// Whether `p` is the place of none of the first `k` input templates.
pub open spec fn no_input_place(inputs: Seq<InputEntry>, k: int, p: int) -> bool {
    forall|j: int| 0 <= j < k ==> #[trigger] place_of(inputs, j) != p
}

/// A copy of a list of strings.
fn copy_strings(strings: &Vec<String>) -> (copy: Vec<String>)
    ensures
        copy.deep_view() == strings.deep_view(),
{
    let mut copy: Vec<String> = Vec::new();
    let mut i: usize = 0;
    while i < strings.len()
        invariant
            i <= strings.len(),
            copy.len() == i,
            forall|j: int| 0 <= j < i ==> copy@[j]@ == strings@[j]@,
        decreases strings.len() - i,
    {
        copy.push(strings[i].clone());
        i = i + 1;
    }
    assert(copy.deep_view() =~= strings.deep_view());
    copy
}

/// One run: the options, the output template among them, and the input
/// sources, of which there is at least one.
#[derive(Debug)]
pub struct CorrelationRun {
    options: Vec<String>,
    output_path: String,
    output: PathXEntry,
    inputs: Vec<InputEntry>,
}

impl CorrelationRun {
    /// There is an input source, and every template has its place among the
    /// options, which is the place of no other template.
    #[verifier::type_invariant]
    spec fn valid(self) -> bool {
        &&& self.inputs@.len() > 0
        &&& self.output.idx < self.options@.len()
        &&& forall|k: int|
            0 <= k < self.inputs@.len() ==> #[trigger] place_of(self.inputs@, k)
                < self.options@.len()
        &&& places_differ(self.output, self.inputs@)
    }

    /// The options as they were given.
    pub closed spec fn options_view(self) -> Seq<Seq<char>> {
        self.options.deep_view()
    }

    /// The output template.
    pub closed spec fn output_template(self) -> Seq<char> {
        self.output_path@
    }

    /// The entry of the output template.
    pub closed spec fn output_entry(self) -> PathXEntry {
        self.output
    }

    /// The input sources, in the order of their templates among the options.
    pub closed spec fn input_entries(self) -> Seq<InputEntry> {
        self.inputs@
    }

    /// Whether this is the run for `options` with the output template at place
    /// `output` and the input templates at the places `inputs`, before any
    /// directory has been looked at.
    pub open spec fn describes(
        self,
        options: Seq<Seq<char>>,
        output: usize,
        inputs: Seq<usize>,
    ) -> bool {
        &&& self.options_view() == options
        &&& self.output_template() == options[output as int]
        &&& entry_describes(self.output_entry(), options, output)
        &&& self.input_entries().len() == inputs.len()
        &&& forall|k: int|
            0 <= k < inputs.len() ==> {
                &&& entry_describes(
                    (#[trigger] self.input_entries()[k]).pathx_entry,
                    options,
                    inputs[k],
                )
                &&& self.input_entries()[k].items@.len() == 0
            }
    }

    /// The options for the `i`-th aligned item, or the first failure to write
    /// one of its paths.
    pub open spec fn resolved(self, i: int) -> Result<Seq<Seq<char>>, PathError> {
        resolved(
            self.options_view(),
            self.output_template(),
            self.output_entry(),
            self.input_entries(),
            i,
        )
    }

    /// Whether `patched` is the options with the paths for the `i`-th aligned
    /// item in them: as many as were given, the output path at the place of
    /// the output template, the path of each input source at the place of its
    /// template, and every other option as it was given.
    pub open spec fn holds_paths(self, i: int, patched: Seq<Seq<char>>) -> bool {
        let options = self.options_view();
        let output = self.output_entry();
        let inputs = self.input_entries();
        let key = inputs[0].items@[i].group_cache.deep_view();
        &&& patched.len() == options.len()
        &&& forall|p: int|
            0 <= p < options.len() && p != output.idx && no_input_place(
                inputs,
                inputs.len() as int,
                p,
            ) ==> #[trigger] patched[p] == options[p]
        &&& Ok::<Seq<char>, PathError>(patched[output.idx as int]) == path_text_for(
            output.pathx.source(),
            self.output_template(),
            key,
        )
        &&& forall|k: int|
            0 <= k < inputs.len() ==> Ok::<Seq<char>, PathError>(patched[place_of(inputs, k)])
                == #[trigger] input_path(inputs, key, i, k)
    }

    /// Sets up a run from the options: finds the templates among them and
    /// compiles each, the output template first.
    pub fn new(options: Vec<String>) -> (r: Result<CorrelationRun, RunError>)
        ensures
            match layout_of(options.deep_view()) {
                None => r matches Err(RunError::MissingTemplate),
                Some((None, _)) => r matches Err(RunError::MissingOutput),
                Some((Some(output), inputs)) => if inputs.len() == 0 {
                    r matches Err(RunError::NoInputs)
                } else {
                    &&& r is Ok <==> templates_sound(options.deep_view(), output, inputs)
                    &&& match r {
                        Ok(run) => run.describes(options.deep_view(), output, inputs),
                        Err(RunError::Template { idx, cause }) => first_failure(
                            options.deep_view(),
                            output,
                            inputs,
                            idx,
                            cause,
                        ),
                        Err(_) => false,
                    }
                },
            },
    {
        let ghost given = options.deep_view();
        let layout = match scan_options(&options) {
            Some(layout) => layout,
            None => {
                return Err(RunError::MissingTemplate);
            },
        };
        let output_idx: usize = match layout.output {
            Some(idx) => idx,
            None => {
                return Err(RunError::MissingOutput);
            },
        };
        if layout.inputs.len() == 0 {
            return Err(RunError::NoInputs);
        }
        let count: usize = options.len();
        proof {
            assert(given.len() == count);
            lemma_layout_places(given);
        }
        let output = match PathXEntry::new(options[output_idx].as_str(), output_idx) {
            Ok(entry) => entry,
            Err(cause) => {
                return Err(RunError::Template { idx: output_idx, cause });
            },
        };
        let output_path = options[output_idx].clone();
        let mut inputs: Vec<InputEntry> = Vec::new();
        let mut k: usize = 0;
        while k < layout.inputs.len()
            invariant
                k <= layout.inputs.len(),
                given == options.deep_view(),
                layout_of(given) == Some(layout@),
                layout.output == Some(output_idx),
                output_idx < given.len(),
                entry_failure(given[output_idx as int]) is None,
                places_in_order(layout.output, layout.inputs@, options@.len() as nat),
                inputs@.len() == k,
                forall|j: int|
                    0 <= j < k ==> {
                        &&& entry_describes(
                            (#[trigger] inputs@[j]).pathx_entry,
                            given,
                            layout.inputs@[j],
                        )
                        &&& inputs@[j].items@.len() == 0
                    },
            decreases layout.inputs.len() - k,
        {
            let idx: usize = layout.inputs[k];
            match PathXEntry::new(options[idx].as_str(), idx) {
                Ok(pathx_entry) => {
                    inputs.push(InputEntry { pathx_entry, items: Vec::new() });
                },
                Err(cause) => {
                    assert(first_failure(given, output_idx, layout.inputs@, idx, cause)) by {
                        assert(layout.inputs@[k as int] == idx);
                        assert forall|j: int| 0 <= j < k implies entry_failure(
                            given[(#[trigger] layout.inputs@[j]) as int],
                        ) is None by {
                            assert(entry_describes(
                                inputs@[j].pathx_entry,
                                given,
                                layout.inputs@[j],
                            ));
                        }
                    }
                    return Err(RunError::Template { idx, cause });
                },
            }
            k = k + 1;
        }
        proof {
            assert forall|j: int| 0 <= j < inputs@.len() implies #[trigger] place_of(inputs@, j)
                == layout.inputs@[j] by {
                assert(entry_describes(inputs@[j].pathx_entry, given, layout.inputs@[j]));
            }
            assert(places_differ(output, inputs@));
            assert forall|j: int| 0 <= j < layout.inputs@.len() implies entry_failure(
                given[(#[trigger] layout.inputs@[j]) as int],
            ) is None by {
                assert(entry_describes(inputs@[j].pathx_entry, given, layout.inputs@[j]));
            }
        }
        Ok(CorrelationRun { options, output_path, output, inputs })
    }

    /// The options as they were given.
    pub fn options(&self) -> (options: &Vec<String>)
        ensures
            options.deep_view() == self.options_view(),
    {
        &self.options
    }

    /// The number of input sources.
    pub fn input_count(&self) -> (count: usize)
        ensures
            count == self.input_entries().len(),
            count > 0,
    {
        proof {
            use_type_invariant(self);
        }
        self.inputs.len()
    }

    /// The directory of input source `k`.
    pub fn input_dir(&self, k: usize) -> (dir: &str)
        requires
            k < self.input_entries().len(),
        ensures
            dir@ == self.input_entries()[k as int].pathx_entry.dir@,
    {
        self.inputs[k].pathx_entry.dir.as_str()
    }

    /// Whether `run` is this run after input source `k` has been given the
    /// entries `paths` of its directory: the source holds those that its
    /// template matches, in the order given, in place of any items it had, and
    /// nothing else has changed.
    pub open spec fn scanned(self, k: int, paths: Seq<Seq<char>>, run: CorrelationRun) -> bool {
        &&& run.options_view() == self.options_view()
        &&& run.output_template() == self.output_template()
        &&& run.output_entry() == self.output_entry()
        &&& run.input_entries().len() == self.input_entries().len()
        &&& forall|j: int|
            0 <= j < self.input_entries().len() && j != k ==> #[trigger] run.input_entries()[j]
                == self.input_entries()[j]
        &&& run.input_entries()[k].pathx_entry == self.input_entries()[k].pathx_entry
        &&& items_view(run.input_entries()[k].items@) == matched(
            self.input_entries()[k].pathx_entry.pathx.source(),
            paths,
            paths.len() as int,
        )
    }

    /// Gives input source `k` the entries of its directory: it keeps those
    /// that its template matches, in the order given, in place of any items it
    /// had. Nothing else changes.
    pub fn scan_input(self, k: usize, paths: &Vec<String>) -> (run: CorrelationRun)
        requires
            k < self.input_entries().len(),
        ensures
            self.scanned(k as int, paths.deep_view(), run),
    {
        proof {
            use_type_invariant(&self);
        }
        let CorrelationRun { options, output_path, output, mut inputs } = self;
        let ghost before = inputs@;
        let items = matched_items(&inputs[k].pathx_entry.pathx, paths);
        inputs[k].items = items;
        proof {
            assert forall|j: int| 0 <= j < inputs@.len() implies #[trigger] place_of(inputs@, j)
                == place_of(before, j) by {
                if j != k {
                    assert(inputs@[j] == before[j]);
                }
            }
            assert(places_differ(output, inputs@));
        }
        CorrelationRun { options, output_path, output, inputs }
    }

    /// Gives input source `k` the listing of its directory, or the news that
    /// the directory could not be listed. With a listing the run goes on as
    /// `scan_input` says; without one it ends.
    pub fn scan_listing(self, k: usize, listing: Option<&Vec<String>>) -> (r: Result<
        CorrelationRun,
        ScanError,
    >)
        requires
            k < self.input_entries().len(),
        ensures
            match listing {
                None => r == Err::<CorrelationRun, ScanError>(
                    ScanError::DirectoryRead { source: k },
                ),
                Some(paths) => r matches Ok(run) && self.scanned(k as int, paths.deep_view(), run),
            },
    {
        match listing {
            Some(paths) => Ok(self.scan_input(k, paths)),
            None => Err(ScanError::DirectoryRead { source: k }),
        }
    }

    /// Holds the input sources against each other. An aligned run comes back
    /// only where they all have the same number of items and, place by place,
    /// the same groups.
    pub fn align(self) -> (r: Result<AlignedRun, AlignError>)
        ensures
            match alignment(self.input_entries()) {
                Ok(count) => r matches Ok(aligned) && aligned.run() == self && aligned.count()
                    == count,
                Err(e) => r == Err::<AlignedRun, AlignError>(e),
            },
    {
        match check_alignment(&self.inputs) {
            Ok(count) => Ok(AlignedRun { run: self, count }),
            Err(e) => Err(e),
        }
    }
}

/// A run whose input sources are aligned.
#[derive(Debug)]
pub struct AlignedRun {
    run: CorrelationRun,
    count: usize,
}

impl AlignedRun {
    /// The input sources are aligned, and `count` is the number of items of
    /// each.
    #[verifier::type_invariant]
    spec fn valid(self) -> bool {
        alignment(self.run.inputs@) == Ok::<nat, AlignError>(self.count as nat)
    }

    /// The run.
    pub closed spec fn run(self) -> CorrelationRun {
        self.run
    }

    /// The number of aligned items.
    pub closed spec fn count(self) -> nat {
        self.count as nat
    }

    /// The number of aligned items.
    pub fn len(&self) -> (count: usize)
        ensures
            count == self.count(),
            alignment(self.run().input_entries()) == Ok::<nat, AlignError>(count as nat),
    {
        proof {
            use_type_invariant(self);
        }
        self.count
    }

    /// The groups of the `i`-th aligned item.
    pub fn key(&self, i: usize) -> (key: &Vec<String>)
        requires
            i < self.count(),
        ensures
            key.deep_view() == self.run().input_entries()[0].items@[i as int].group_cache
                .deep_view(),
    {
        proof {
            use_type_invariant(self);
            use_type_invariant(&self.run);
        }
        &self.run.inputs[0].items[i].group_cache
    }

    /// The options for the `i`-th aligned item: a copy of the options with the
    /// output path at the place of the output template and the path of each
    /// input source at the place of its template. The paths are written in
    /// this order, and the first that cannot be written is the failure.
    pub fn resolve(&self, i: usize) -> (r: Result<Vec<String>, PathError>)
        requires
            i < self.count(),
        ensures
            match self.run().resolved(i as int) {
                Ok(options) => r matches Ok(patched) && patched.deep_view() == options,
                Err(e) => r == Err::<Vec<String>, PathError>(e),
            },
            r matches Ok(patched) ==> self.run().holds_paths(i as int, patched.deep_view()),
    {
        proof {
            use_type_invariant(self);
            use_type_invariant(&self.run);
            if self.run.resolved(i as int) is Ok {
                lemma_resolved_places(
                    self.run.options_view(),
                    self.run.output_template(),
                    self.run.output_entry(),
                    self.run.input_entries(),
                    i as int,
                );
            }
        }
        let run = &self.run;
        let key = &run.inputs[0].items[i].group_cache;
        let mut options = copy_strings(&run.options);
        assert(options@.len() == options.deep_view().len() == run.options@.len());
        match run.output.pathx.get_path(run.output_path.as_str(), key) {
            Ok(path) => {
                put(&mut options, run.output.idx, path);
                assert forall|j: int| 0 <= j < run.inputs@.len() implies {
                    &&& i < (#[trigger] run.inputs@[j]).items@.len()
                    &&& run.inputs@[j].pathx_entry.idx < options@.len()
                } by {
                    assert(place_of(run.inputs@, j) < run.options@.len());
                }
                patch_inputs(&run.inputs, key, i, options)
            },
            Err(e) => Err(e),
        }
    }
}

/// Puts `path` at place `idx` of the options.
fn put(options: &mut Vec<String>, idx: usize, path: String)
    requires
        idx < old(options)@.len(),
    ensures
        final(options)@.len() == old(options)@.len(),
        final(options).deep_view() == old(options).deep_view().update(idx as int, path@),
{
    options[idx] = path;
    assert(options.deep_view() =~= old(options).deep_view().update(idx as int, path@));
}

/// Writes the path of one input source for its `i`-th item and the groups
/// `key`, and puts it at the place of the template of that source.
fn patch_one(input: &InputEntry, key: &Vec<String>, i: usize, options: &mut Vec<String>) -> (r:
    Result<(), PathError>)
    requires
        i < input.items@.len(),
        input.pathx_entry.idx < old(options)@.len(),
    ensures
        final(options)@.len() == old(options)@.len(),
        match path_text_for(
            input.pathx_entry.pathx.source(),
            input.items@[i as int].path@,
            key.deep_view(),
        ) {
            Ok(path) => r is Ok && final(options).deep_view() == old(options).deep_view().update(
                input.pathx_entry.idx as int,
                path,
            ),
            Err(e) => r == Err::<(), PathError>(e) && final(options).deep_view() == old(
                options,
            ).deep_view(),
        },
{
    match input.pathx_entry.pathx.get_path(input.items[i].path.as_str(), key) {
        Ok(path) => {
            put(options, input.pathx_entry.idx, path);
            Ok(())
        },
        Err(e) => Err(e),
    }
}

/// Writes the path of each input source for its `i`-th item and the groups
/// `key`, and puts it at the place of the template of that source.
fn patch_inputs(inputs: &Vec<InputEntry>, key: &Vec<String>, i: usize, given: Vec<String>) -> (r:
    Result<Vec<String>, PathError>)
    requires
        forall|j: int|
            0 <= j < inputs@.len() ==> {
                &&& i < (#[trigger] inputs@[j]).items@.len()
                &&& inputs@[j].pathx_entry.idx < given@.len()
            },
    ensures
        match resolved_inputs(
            given.deep_view(),
            inputs@,
            key.deep_view(),
            i as int,
            inputs@.len() as int,
        ) {
            Ok(patched) => r matches Ok(done) && done.deep_view() == patched,
            Err(e) => r == Err::<Vec<String>, PathError>(e),
        },
{
    let ghost start = given.deep_view();
    let ghost values = key.deep_view();
    let mut options = given;
    let mut k: usize = 0;
    while k < inputs.len()
        invariant
            k <= inputs.len(),
            values == key.deep_view(),
            start == given.deep_view(),
            options@.len() == given@.len(),
            forall|j: int|
                0 <= j < inputs@.len() ==> {
                    &&& i < (#[trigger] inputs@[j]).items@.len()
                    &&& inputs@[j].pathx_entry.idx < given@.len()
                },
            resolved_inputs(start, inputs@, values, i as int, k as int) == Ok::<
                Seq<Seq<char>>,
                PathError,
            >(options.deep_view()),
        decreases inputs.len() - k,
    {
        let done = patch_one(&inputs[k], key, i, &mut options);
        proof {
            lemma_resolved_step(start, inputs@, values, i as int, k as int + 1);
        }
        match done {
            Ok(()) => {},
            Err(e) => {
                proof {
                    lemma_failure_stays(
                        start,
                        inputs@,
                        values,
                        i as int,
                        k as int + 1,
                        inputs@.len() as int,
                    );
                }
                return Err(e);
            },
        }
        k = k + 1;
    }
    Ok(options)
}

/// How the result for the first `k` input sources comes from the result for
/// those before the last of them.
proof fn lemma_resolved_step(
    options: Seq<Seq<char>>,
    inputs: Seq<InputEntry>,
    key: Seq<Seq<char>>,
    i: int,
    k: int,
)
    requires
        k > 0,
    ensures
        resolved_inputs(options, inputs, key, i, k) == match resolved_inputs(
            options,
            inputs,
            key,
            i,
            k - 1,
        ) {
            Err(e) => Err(e),
            Ok(so_far) => match input_path(inputs, key, i, k - 1) {
                Err(e) => Err(e),
                Ok(path) => Ok(so_far.update(place_of(inputs, k - 1), path)),
            },
        },
{
}

/// A failure to write the path of an input source is the result whatever
/// input sources follow.
proof fn lemma_failure_stays(
    options: Seq<Seq<char>>,
    inputs: Seq<InputEntry>,
    key: Seq<Seq<char>>,
    i: int,
    k: int,
    n: int,
)
    requires
        0 <= k <= n,
        resolved_inputs(options, inputs, key, i, k) is Err,
    ensures
        resolved_inputs(options, inputs, key, i, n) == resolved_inputs(options, inputs, key, i, k),
    decreases n - k,
{
    if k < n {
        lemma_failure_stays(options, inputs, key, i, k, n - 1);
    }
}

/// What the options for an aligned item hold: there are as many as were
/// given, and every option that is no template is passed on as it was given.
/// Where no two templates have the same place, the place of the output
/// template holds the output path and the place of each input template the
/// path of its source.
pub proof fn lemma_resolved_places(
    options: Seq<Seq<char>>,
    output_template: Seq<char>,
    output: PathXEntry,
    inputs: Seq<InputEntry>,
    i: int,
)
    requires
        output.idx < options.len(),
        forall|k: int| 0 <= k < inputs.len() ==> #[trigger] place_of(inputs, k) < options.len(),
        resolved(options, output_template, output, inputs, i) is Ok,
    ensures
        ({
            let patched = resolved(options, output_template, output, inputs, i)->Ok_0;
            let key = inputs[0].items@[i].group_cache.deep_view();
            &&& patched.len() == options.len()
            &&& forall|p: int|
                0 <= p < options.len() && p != output.idx && no_input_place(
                    inputs,
                    inputs.len() as int,
                    p,
                ) ==> #[trigger] patched[p] == options[p]
            &&& places_differ(output, inputs) ==> {
                &&& Ok::<Seq<char>, PathError>(patched[output.idx as int]) == path_text_for(
                    output.pathx.source(),
                    output_template,
                    key,
                )
                &&& forall|k: int|
                    0 <= k < inputs.len() ==> Ok::<Seq<char>, PathError>(
                        patched[place_of(inputs, k)],
                    ) == #[trigger] input_path(inputs, key, i, k)
            }
        }),
{
    let key = inputs[0].items@[i].group_cache.deep_view();
    let path = path_text_for(output.pathx.source(), output_template, key)->Ok_0;
    let start = options.update(output.idx as int, path);
    lemma_resolved_inputs_places(start, inputs, key, i, inputs.len() as int);
    if places_differ(output, inputs) {
        assert(no_input_place(inputs, inputs.len() as int, output.idx as int));
    }
}

/// The same for the input sources alone: the first `k` of them have their
/// paths at their places, and every other place is as it was.
#[verifier::rlimit(30)]
proof fn lemma_resolved_inputs_places(
    options: Seq<Seq<char>>,
    inputs: Seq<InputEntry>,
    key: Seq<Seq<char>>,
    i: int,
    k: int,
)
    requires
        0 <= k <= inputs.len(),
        forall|j: int| 0 <= j < inputs.len() ==> #[trigger] place_of(inputs, j) < options.len(),
        resolved_inputs(options, inputs, key, i, k) is Ok,
    ensures
        ({
            let patched = resolved_inputs(options, inputs, key, i, k)->Ok_0;
            &&& patched.len() == options.len()
            &&& forall|p: int|
                0 <= p < options.len() && no_input_place(inputs, k, p) ==> #[trigger] patched[p]
                    == options[p]
            &&& input_places_differ(inputs) ==> forall|j: int|
                0 <= j < k ==> Ok::<Seq<char>, PathError>(patched[place_of(inputs, j)])
                    == #[trigger] input_path(inputs, key, i, j)
        }),
    decreases k,
{
    if k > 0 {
        lemma_resolved_inputs_places(options, inputs, key, i, k - 1);
        lemma_resolved_step(options, inputs, key, i, k);
        let before = resolved_inputs(options, inputs, key, i, k - 1)->Ok_0;
        let patched = resolved_inputs(options, inputs, key, i, k)->Ok_0;
        assert(0 <= place_of(inputs, k - 1) < options.len());
        assert forall|p: int|
            0 <= p < options.len() && no_input_place(inputs, k, p) implies #[trigger] patched[p]
            == options[p] by {
            assert(place_of(inputs, k - 1) != p);
            assert(no_input_place(inputs, k - 1, p));
        }
        if input_places_differ(inputs) {
            assert forall|j: int| 0 <= j < k implies Ok::<Seq<char>, PathError>(
                patched[place_of(inputs, j)],
            ) == #[trigger] input_path(inputs, key, i, j) by {
                if j < k - 1 {
                    assert(place_of(inputs, j) != place_of(inputs, k - 1));
                }
            }
        }
    }
}

} // verus!
