//! The options of the merge tool, and where the templates stand among them.
//!
//! The options are the argument list that the merge tool is to be run with.
//! The option behind `--output` is the output template; the option behind each
//! `(` is an input template. Every other option is passed on as it is.

use vstd::prelude::*;

verus! {

/// Whether an option announces the output template.
pub open spec fn is_output_marker(option: Seq<char>) -> bool {
    option == "--output"@
}

/// Whether an option announces an input template.
pub open spec fn is_input_marker(option: Seq<char>) -> bool {
    option == "("@
}

/// Where the templates stand among the options: the place of the output
/// template, if there is one, and the places of the input templates in order.
#[derive(Debug)]
pub struct Layout {
    pub output: Option<usize>,
    pub inputs: Vec<usize>,
}

impl View for Layout {
    type V = (Option<usize>, Seq<usize>);

    open spec fn view(&self) -> (Option<usize>, Seq<usize>) {
        (self.output, self.inputs@)
    }
}

/// The layout of the options from place `from` on, given what the options
/// before it gave. An option behind a marker is a template whatever it says,
/// and the last output template counts. `None` where a marker is the last
/// option.
pub open spec fn scan_from(
    options: Seq<Seq<char>>,
    from: int,
    output: Option<usize>,
    inputs: Seq<usize>,
) -> Option<(Option<usize>, Seq<usize>)>
    decreases options.len() - from,
{
    if from < 0 || from >= options.len() {
        Some((output, inputs))
    } else if is_output_marker(options[from]) {
        if from + 1 >= options.len() {
            None
        } else {
            scan_from(options, from + 2, Some((from + 1) as usize), inputs)
        }
    } else if is_input_marker(options[from]) {
        if from + 1 >= options.len() {
            None
        } else {
            scan_from(options, from + 2, output, inputs.push((from + 1) as usize))
        }
    } else {
        scan_from(options, from + 1, output, inputs)
    }
}

/// The layout of the options.
pub open spec fn layout_of(options: Seq<Seq<char>>) -> Option<(Option<usize>, Seq<usize>)> {
    scan_from(options, 0, None, Seq::empty())
}

/// Whether the template places are places among `count` options, the input
/// places in rising order and none of them the output place.
pub open spec fn places_in_order(output: Option<usize>, inputs: Seq<usize>, count: nat) -> bool {
    &&& output matches Some(o) ==> o < count
    &&& forall|k: int| 0 <= k < inputs.len() ==> #[trigger] inputs[k] < count
    &&& forall|j: int, k: int| 0 <= j < k < inputs.len() ==> inputs[j] < inputs[k]
    &&& output matches Some(o) ==> forall|k: int|
        0 <= k < inputs.len() ==> #[trigger] inputs[k] != o
}

/// The template places of a layout are places among the options, the input
/// places in rising order and none of them the output place.
pub proof fn lemma_layout_places(options: Seq<Seq<char>>)
    requires
        options.len() <= usize::MAX,
    ensures
        layout_of(options) matches Some(layout) ==> places_in_order(
            layout.0,
            layout.1,
            options.len(),
        ),
{
    lemma_scan_places(options, 0, None, Seq::empty());
}

/// The same from place `from` on, where the places found before it all lie
/// before it.
proof fn lemma_scan_places(
    options: Seq<Seq<char>>,
    from: int,
    output: Option<usize>,
    inputs: Seq<usize>,
)
    requires
        0 <= from,
        options.len() <= usize::MAX,
        places_in_order(output, inputs, options.len()),
        output matches Some(o) ==> o < from,
        forall|k: int| 0 <= k < inputs.len() ==> #[trigger] inputs[k] < from,
    ensures
        scan_from(options, from, output, inputs) matches Some(layout) ==> places_in_order(
            layout.0,
            layout.1,
            options.len(),
        ),
    decreases options.len() - from,
{
    if from >= options.len() {
    } else if is_output_marker(options[from]) {
        if from + 1 < options.len() {
            lemma_scan_places(options, from + 2, Some((from + 1) as usize), inputs);
        }
    } else if is_input_marker(options[from]) {
        if from + 1 < options.len() {
            lemma_scan_places(options, from + 2, output, inputs.push((from + 1) as usize));
        }
    } else {
        lemma_scan_places(options, from + 1, output, inputs);
    }
}

/// Finds the templates among the options.
pub fn scan_options(options: &Vec<String>) -> (r: Option<Layout>)
    ensures
        r is Some <==> layout_of(options.deep_view()) is Some,
        r matches Some(layout) ==> Some(layout@) == layout_of(options.deep_view()),
{
    let output_marker = "--output".to_owned();
    let input_marker = "(".to_owned();
    let mut output: Option<usize> = None;
    let mut inputs: Vec<usize> = Vec::new();
    let mut i: usize = 0;
    while i < options.len()
        invariant
            i <= options.len(),
            output_marker@ == "--output"@,
            input_marker@ == "("@,
            layout_of(options.deep_view()) == scan_from(
                options.deep_view(),
                i as int,
                output,
                inputs@,
            ),
        decreases options.len() - i,
    {
        let is_output = options[i] == output_marker;
        let is_input = options[i] == input_marker;
        assert(options.deep_view()[i as int] == options@[i as int]@);
        if is_output || is_input {
            if i + 1 >= options.len() {
                return None;
            }
            if is_output {
                output = Some(i + 1);
            } else {
                inputs.push(i + 1);
            }
            i = i + 2;
        } else {
            i = i + 1;
        }
    }
    Some(Layout { output, inputs })
}

} // verus!
