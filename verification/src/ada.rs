//! Path templates and the patterns compiled from them.
//!
//! A template is a path in which some parts stand for whatever a concrete path
//! has in their place: `[00]` for two digits, `?` for one character, and
//! `r*` ... `*r` around a regular expression of the author's own, which
//! becomes one group unless it brings a group itself. `PathX`
//! compiles a template into the source of a regular expression, finds the
//! groups of a concrete path with it, and writes a path anew with other values
//! in place of the groups.

use crate::matcher::{
    captures, captures_iter, captures_len, escaped, regex_captures, regex_captures_iter,
    regex_captures_len, regex_compiles, regex_replace, regex_replace_all,
    regex_static_captures_len, replace, replace_all, spans_lie_in, static_captures_len,
};
use crate::splice::{
    bytes_of_each, lemma_same_values_same_text, lemma_spliced_text, replaceable, span_end,
    span_start, spliced, spliced_text, substitute,
};
use crate::text::{
    bytes_of, can_slice, lemma_bytes_of_injective, lemma_bytes_of_text_between, sliceable, slice,
    text_between,
};
use vstd::prelude::*;
use vstd::slice::slice_subrange;
use vstd::string::*;

verus! {

/// Why a template could not be compiled: the regular expression made from it,
/// or one of those that the compiler itself searches with, was rejected.
#[derive(Debug, Clone, Copy, PartialEq, Eq)]
pub struct PatternCompileError;

/// Why no path could be written.
#[derive(Debug, Clone, Copy, PartialEq, Eq)]
pub enum PathError {
    /// The number of values is not the number of groups of the pattern.
    GroupCountMismatch,
    /// The pattern does not match the path.
    NoMatch,
    /// The groups of the match cannot be replaced one after another: one of
    /// them took no part in the match, or begins before the one before it
    /// ends.
    GroupLayout,
}

impl PathError {
    /// A sentence for the error.
    pub fn message(&self) -> (text: &'static str)
        ensures
            text@ == match *self {
                PathError::GroupCountMismatch => "Number of groups does not match"@,
                PathError::NoMatch => "Path does not match"@,
                PathError::GroupLayout => "Groups cannot be replaced in order"@,
            },
    {
        match self {
            PathError::GroupCountMismatch => "Number of groups does not match",
            PathError::NoMatch => "Path does not match",
            PathError::GroupLayout => "Groups cannot be replaced in order",
        }
    }
}

/// The regular expression that finds a raw fragment with its markers, `r*` and
/// `*r`, in a template.
pub const RE_MARKER: &'static str = "r\\*(.+?)\\*r";

/// The regular expression that finds the same in a template that has been
/// escaped.
pub const ESCAPED_RE_MARKER: &'static str = "r\\\\\\*(.+?)\\\\\\*r";

/// The regular expression that finds `[`, two digits and `]` in an escaped
/// template.
pub const TWO_DIGITS: &'static str = "\\\\\\[\\d\\d\\\\\\]";

/// What takes the place of a match of `TWO_DIGITS`: a group of two digits
/// between the brackets.
pub const TWO_DIGITS_GROUP: &'static str = "\\[(\\d\\d)\\]";

/// The regular expression that finds `?` in an escaped template.
pub const QUESTION_MARK: &'static str = "\\\\\\?";

/// What takes the place of a match of `QUESTION_MARK`: a group for any one
/// character, a line feed too.
pub const QUESTION_MARK_GROUP: &'static str = "((?s:.))";

/// The built-in idioms in the order in which they become groups: each is a
/// regular expression that finds the idiom in an escaped template, and what
/// takes the place of each match.
pub open spec fn builtin_idioms() -> Seq<(Seq<char>, Seq<char>)> {
    seq![(TWO_DIGITS@, TWO_DIGITS_GROUP@), (QUESTION_MARK@, QUESTION_MARK_GROUP@)]
}

/// The built-in idioms.
pub fn auto_groups() -> (idioms: Vec<(&'static str, &'static str)>)
    ensures
        idioms.deep_view() == builtin_idioms(),
{
    let mut idioms: Vec<(&'static str, &'static str)> = Vec::new();
    idioms.push((TWO_DIGITS, TWO_DIGITS_GROUP));
    idioms.push((QUESTION_MARK, QUESTION_MARK_GROUP));
    assert(idioms.deep_view() =~= builtin_idioms());
    idioms
}

/// Whether the first group of a match is there and can be sliced out of
/// `text`.
pub open spec fn has_fragment(text: Seq<char>, groups: Seq<Option<(usize, usize)>>) -> bool {
    &&& groups.len() >= 2
    &&& groups[1] is Some
    &&& sliceable(bytes_of(text), groups[1]->Some_0.0 as int, groups[1]->Some_0.1 as int)
}

/// The raw fragments of a template, given the matches of `RE_MARKER` in it:
/// the first group of each, in order. `None` where a match has no such
/// group.
pub open spec fn fragments_of(text: Seq<char>, found: Seq<Seq<Option<(usize, usize)>>>) -> Option<
    Seq<Seq<char>>,
> {
    if forall|k: int| 0 <= k < found.len() ==> has_fragment(text, #[trigger] found[k]) {
        Some(
            Seq::new(
                found.len(),
                |k: int|
                    text_between(
                        text,
                        found[k][1]->Some_0.0 as int,
                        found[k][1]->Some_0.1 as int,
                    ),
            ),
        )
    } else {
        None
    }
}

/// The number of groups that a fragment brings of its own, the whole match
/// not counted: `None` where the fragment is no regular expression by itself.
pub open spec fn own_groups(fragment: Seq<char>) -> Option<usize> {
    if regex_compiles(fragment) && regex_captures_len(fragment) >= 1 {
        Some((regex_captures_len(fragment) - 1) as usize)
    } else {
        None
    }
}

/// A fragment as one capturing group.
pub open spec fn grouped(fragment: Seq<char>) -> Seq<char> {
    seq!['('] + fragment + seq![')']
}

/// The text that takes the place of a marker pair, given the number of groups
/// that the fragment brings of its own.
///
/// A fragment that is a regular expression without a group becomes one
/// capturing group. A fragment that brings a group of its own stands as it is
/// written, and so does one that is no regular expression by itself: there the
/// author has said which part is to be captured.
pub open spec fn fragment_group(fragment: Seq<char>, groups: Option<usize>) -> Seq<char> {
    if groups == Some(0usize) {
        grouped(fragment)
    } else {
        fragment
    }
}

/// The escaped template after the first `k` fragments have been put back, each
/// as `fragment_group` gives it, as it is written, in place of the first
/// escaped marker pair that is left.
pub open spec fn with_fragments(text: Seq<char>, fragments: Seq<Seq<char>>, k: int) -> Seq<char>
    decreases k,
{
    if k <= 0 {
        text
    } else {
        regex_replace(
            ESCAPED_RE_MARKER@,
            with_fragments(text, fragments, k - 1),
            fragment_group(fragments[k - 1], own_groups(fragments[k - 1])),
        )
    }
}

/// The text after the first `k` idioms have become groups, one idiom after
/// another, each wherever it occurs. What takes the place of an idiom is put
/// in as it is written.
pub open spec fn with_idioms(text: Seq<char>, idioms: Seq<(Seq<char>, Seq<char>)>, k: int) -> Seq<
    char,
>
    decreases k,
{
    if k <= 0 {
        text
    } else {
        regex_replace_all(idioms[k - 1].0, with_idioms(text, idioms, k - 1), idioms[k - 1].1)
    }
}

/// Whether the regular expression of every idiom compiles.
pub open spec fn idioms_compile(idioms: Seq<(Seq<char>, Seq<char>)>) -> bool {
    forall|k: int| 0 <= k < idioms.len() ==> regex_compiles((#[trigger] idioms[k]).0)
}

/// The source of the regular expression that a template compiles to with the
/// given idioms, or `None` where it does not compile.
pub open spec fn pattern_source_with(
    template: Seq<char>,
    idioms: Seq<(Seq<char>, Seq<char>)>,
) -> Option<Seq<char>> {
    if !regex_compiles(RE_MARKER@) {
        None
    } else {
        match fragments_of(template, regex_captures_iter(RE_MARKER@, template)) {
            None => None,
            Some(fragments) => {
                let source = with_idioms(
                    with_fragments(escaped(template), fragments, fragments.len() as int),
                    idioms,
                    idioms.len() as int,
                );
                if (fragments.len() > 0 ==> regex_compiles(ESCAPED_RE_MARKER@)) && idioms_compile(
                    idioms,
                ) && regex_compiles(source) {
                    Some(source)
                } else {
                    None
                }
            },
        }
    }
}

/// The source of the regular expression that a template compiles to with the
/// built-in idioms, or `None` where it does not compile.
pub open spec fn pattern_source(template: Seq<char>) -> Option<Seq<char>> {
    pattern_source_with(template, builtin_idioms())
}

/// The text that a group captured: that of its span, or none where it took no
/// part in the match.
pub open spec fn captured(text: Seq<char>, span: Option<(usize, usize)>) -> Seq<char> {
    match span {
        Some((from, to)) => text_between(text, from as int, to as int),
        None => Seq::empty(),
    }
}

/// The groups of a match but the first, which is the whole match.
pub open spec fn inner_groups(groups: Seq<Option<(usize, usize)>>) -> Seq<Option<(usize, usize)>> {
    if groups.len() == 0 {
        Seq::empty()
    } else {
        groups.subrange(1, groups.len() as int)
    }
}

/// The text of each group of a match but the whole match itself.
pub open spec fn captured_each(text: Seq<char>, groups: Seq<Option<(usize, usize)>>) -> Seq<
    Seq<char>,
> {
    Seq::new(inner_groups(groups).len(), |i: int| captured(text, inner_groups(groups)[i]))
}

/// The groups that the pattern finds in `text`: `None` where it does not
/// match.
pub open spec fn groups_in(pattern: Seq<char>, text: Seq<char>) -> Option<Seq<Seq<char>>> {
    match regex_captures(pattern, text) {
        Some(groups) => Some(captured_each(text, groups)),
        None => None,
    }
}

/// Whether `count` values are as many as the pattern has groups, the whole
/// match not counted. A pattern whose matches differ in their number of groups
/// agrees with no count.
pub open spec fn count_agrees(static_len: Option<usize>, count: nat) -> bool {
    static_len matches Some(n) && n == count + 1
}

/// The bytes of the path written from `text` with `values` in place of the
/// groups of a match, the whole match not among them, or the reason why none
/// is written.
pub open spec fn path_of(
    found: Option<Seq<Option<(usize, usize)>>>,
    text: Seq<char>,
    values: Seq<Seq<char>>,
) -> Result<Seq<u8>, PathError> {
    match found {
        None => Err(PathError::NoMatch),
        Some(groups) => {
            let spans = inner_groups(groups);
            if spans.len() <= values.len() && replaceable(bytes_of(text), spans) {
                Ok(spliced(bytes_of(text), spans, bytes_of_each(values)))
            } else {
                Err(PathError::GroupLayout)
            }
        },
    }
}

/// The bytes of the path written from `text` with `values` in place of the
/// groups that the pattern finds in it, or the reason why none is written.
/// The number of values is looked at before the match.
pub open spec fn path_for(pattern: Seq<char>, text: Seq<char>, values: Seq<Seq<char>>) -> Result<
    Seq<u8>,
    PathError,
> {
    if !count_agrees(regex_static_captures_len(pattern), values.len()) {
        Err(PathError::GroupCountMismatch)
    } else {
        path_of(regex_captures(pattern, text), text, values)
    }
}

/// The path written from `text` with `values` in place of the groups of a
/// match, the whole match not among them, or the reason why none is written.
pub open spec fn path_text_of(
    found: Option<Seq<Option<(usize, usize)>>>,
    text: Seq<char>,
    values: Seq<Seq<char>>,
) -> Result<Seq<char>, PathError> {
    match found {
        None => Err(PathError::NoMatch),
        Some(groups) => {
            let spans = inner_groups(groups);
            if spans.len() <= values.len() && replaceable(bytes_of(text), spans) {
                Ok(spliced_text(text, spans, values))
            } else {
                Err(PathError::GroupLayout)
            }
        },
    }
}

/// The path written from `text` with `values` in place of the groups that the
/// pattern finds in it, or the reason why none is written. The number of
/// values is looked at before the match.
pub open spec fn path_text_for(
    pattern: Seq<char>,
    text: Seq<char>,
    values: Seq<Seq<char>>,
) -> Result<Seq<char>, PathError> {
    if !count_agrees(regex_static_captures_len(pattern), values.len()) {
        Err(PathError::GroupCountMismatch)
    } else {
        path_text_of(regex_captures(pattern, text), text, values)
    }
}

/// Tests whether `count` values are as many as a pattern with the static
/// number of groups `static_len` asks for.
pub fn group_count_agrees(static_len: Option<usize>, count: usize) -> (agrees: bool)
    ensures
        agrees == count_agrees(static_len, count as nat),
{
    match static_len {
        Some(n) => n >= 1 && count == n - 1,
        None => false,
    }
}

/// Writes `text` anew with `values[i]` in place of the `i`-th group of a match
/// in it, the whole match not among the groups.
pub fn path_of_match(
    found: &Option<Vec<Option<(usize, usize)>>>,
    text: &str,
    values: &Vec<String>,
) -> (r: Result<String, PathError>)
    ensures
        match path_of(
            match found {
                Some(groups) => Some(groups@),
                None => None,
            },
            text@,
            values.deep_view(),
        ) {
            Ok(bytes) => r is Ok && bytes_of(r->Ok_0@) == bytes,
            Err(e) => r == Err::<String, PathError>(e),
        },
        match path_text_of(
            match found {
                Some(groups) => Some(groups@),
                None => None,
            },
            text@,
            values.deep_view(),
        ) {
            Ok(path) => r is Ok && r->Ok_0@ == path,
            Err(e) => r == Err::<String, PathError>(e),
        },
{
    match found {
        Some(groups) => {
            let from: usize = if groups.len() == 0 {
                0
            } else {
                1
            };
            let spans = slice_subrange(groups.as_slice(), from, groups.len());
            assert(spans@ =~= inner_groups(groups@));
            match substitute(text, spans, values) {
                Some(path) => Ok(path),
                None => Err(PathError::GroupLayout),
            }
        },
        None => Err(PathError::NoMatch),
    }
}

/// The text that takes the place of the marker pair of a fragment, given the
/// number of groups that the fragment brings of its own: the fragment within
/// one capturing group where it brings none, else as it is written.
pub fn fragment_text(fragment: &str, groups: Option<usize>) -> (text: String)
    ensures
        text@ == fragment_group(fragment@, groups),
{
    let bare = match groups {
        Some(n) => n != 0,
        None => true,
    };
    if bare {
        return fragment.to_owned();
    }
    let mut text = "(".to_owned();
    text.append(fragment);
    text.append(")");
    proof {
        reveal_strlit("(");
        reveal_strlit(")");
        assert("("@ =~= seq!['(']);
        assert(")"@ =~= seq![')']);
        assert(text@ =~= grouped(fragment@));
    }
    text
}

/// The number of groups that a fragment brings of its own, given what
/// `Regex::captures_len` says of it: one less, the whole match not counted.
pub fn groups_of_fragment(counted: Option<usize>) -> (groups: Option<usize>)
    ensures
        groups == match counted {
            Some(n) => if n >= 1 {
                Some((n - 1) as usize)
            } else {
                None
            },
            None => None,
        },
{
    match counted {
        Some(n) => if n >= 1 {
            Some(n - 1)
        } else {
            None
        },
        None => None,
    }
}

/// The raw fragments of a template, given the matches of `RE_MARKER` in it.
/// `None` where a match has no first group that can be sliced out.
pub fn raw_fragments(template: &str, found: &Vec<Vec<Option<(usize, usize)>>>) -> (r: Option<
    Vec<String>,
>)
    ensures
        r is Some <==> fragments_of(template@, found.deep_view()) is Some,
        r matches Some(fragments) ==> Some(fragments.deep_view()) == fragments_of(
            template@,
            found.deep_view(),
        ),
{
    let ghost matches = found.deep_view();
    let mut fragments: Vec<String> = Vec::new();
    let mut k: usize = 0;
    while k < found.len()
        invariant
            matches == found.deep_view(),
            k <= found.len(),
            fragments.len() == k,
            forall|j: int| 0 <= j < k ==> has_fragment(template@, #[trigger] matches[j]),
            forall|j: int|
                0 <= j < k ==> (#[trigger] fragments@[j])@ == text_between(
                    template@,
                    matches[j][1]->Some_0.0 as int,
                    matches[j][1]->Some_0.1 as int,
                ),
        decreases found.len() - k,
    {
        let groups = &found[k];
        assert(matches[k as int] == groups.deep_view());
        assert(groups.deep_view() =~= groups@);
        if groups.len() < 2 {
            return None;
        }
        let (from, to): (usize, usize) = match groups[1] {
            Some(span) => span,
            None => {
                return None;
            },
        };
        if !can_slice(template, from, to) {
            return None;
        }
        fragments.push(slice(template, from, to).to_owned());
        k = k + 1;
    }
    assert(fragments.deep_view() =~= fragments_of(template@, matches).unwrap());
    Some(fragments)
}

/// The text of each group of a match but the whole match itself: what its span
/// holds, or nothing where the group took no part. `None` where there is no
/// group at all or a span cannot be sliced out of `text`.
pub fn captured_values(text: &str, groups: &Vec<Option<(usize, usize)>>) -> (r: Option<
    Vec<String>,
>)
    ensures
        r is Some <==> groups@.len() >= 1 && spans_lie_in(groups@, text@),
        r matches Some(values) ==> values.deep_view() == captured_each(text@, groups@),
        r matches Some(values) ==> values@.len() + 1 == groups@.len(),
{
    if groups.len() < 1 {
        return None;
    }
    match groups[0] {
        Some((from, to)) => {
            if !can_slice(text, from, to) {
                return None;
            }
        },
        None => {},
    }
    let mut values: Vec<String> = Vec::new();
    let mut i: usize = 1;
    while i < groups.len()
        invariant
            1 <= i <= groups.len(),
            values.len() == i - 1,
            forall|j: int|
                0 <= j < i ==> match #[trigger] groups@[j] {
                    Some((from, to)) => sliceable(bytes_of(text@), from as int, to as int),
                    None => true,
                },
            forall|j: int|
                0 <= j < i - 1 ==> (#[trigger] values@[j])@ == captured(text@, groups@[j + 1]),
        decreases groups.len() - i,
    {
        match groups[i] {
            Some((from, to)) => {
                if !can_slice(text, from, to) {
                    return None;
                }
                values.push(slice(text, from, to).to_owned());
            },
            None => {
                values.push(String::new());
            },
        }
        i = i + 1;
    }
    assert(values.deep_view() =~= captured_each(text@, groups@));
    Some(values)
}

/// A compiled path template.
#[derive(Debug)]
pub struct PathX {
    pattern: String,
    static_len: Option<usize>,
}

impl PathX {
    /// The pattern compiles, and the number kept with it is its own.
    #[verifier::type_invariant]
    spec fn valid(self) -> bool {
        &&& regex_compiles(self.pattern@)
        &&& self.static_len == regex_static_captures_len(self.pattern@)
    }

    /// The source of the regular expression.
    pub closed spec fn source(self) -> Seq<char> {
        self.pattern@
    }

    /// The source of the regular expression.
    pub fn as_str(&self) -> (text: &str)
        ensures
            text@ == self.source(),
    {
        self.pattern.as_str()
    }

    /// Compiles a template with the built-in idioms.
    pub fn new(path: &str) -> (r: Result<PathX, PatternCompileError>)
        ensures
            r is Ok <==> pattern_source(path@) is Some,
            r matches Ok(compiled) ==> Some(compiled.source()) == pattern_source(path@),
    {
        PathX::with_idioms(path, &auto_groups())
    }

    /// Compiles a template with the given idioms.
    ///
    /// The raw fragments are found first. The template is then escaped, each
    /// fragment is put back in place of the first escaped marker pair that is
    /// left, within one capturing group unless it brings a group of its own,
    /// and each idiom in turn becomes a group wherever it occurs.
    pub fn with_idioms(path: &str, idioms: &Vec<(&str, &str)>) -> (r: Result<
        PathX,
        PatternCompileError,
    >)
        ensures
            r is Ok <==> pattern_source_with(path@, idioms.deep_view()) is Some,
            r matches Ok(compiled) ==> Some(compiled.source()) == pattern_source_with(
                path@,
                idioms.deep_view(),
            ),
    {
        let found = match captures_iter(RE_MARKER, path) {
            Ok(found) => found,
            Err(_) => {
                return Err(PatternCompileError);
            },
        };
        let fragments = match raw_fragments(path, &found) {
            Some(fragments) => fragments,
            None => {
                return Err(PatternCompileError);
            },
        };
        let ghost escaped_path = escaped(path@);
        let mut path_re = regex::escape(path);
        let mut k: usize = 0;
        while k < fragments.len()
            invariant
                k <= fragments.len(),
                regex_compiles(RE_MARKER@),
                Some(fragments.deep_view()) == fragments_of(
                    path@,
                    regex_captures_iter(RE_MARKER@, path@),
                ),
                k > 0 ==> regex_compiles(ESCAPED_RE_MARKER@),
                path_re@ == with_fragments(escaped_path, fragments.deep_view(), k as int),
            decreases fragments.len() - k,
        {
            let counted = match captures_len(fragments[k].as_str()) {
                Ok(n) => Some(n),
                Err(_) => None,
            };
            let group = fragment_text(fragments[k].as_str(), groups_of_fragment(counted));
            assert(fragments.deep_view()[k as int] == fragments@[k as int]@);
            path_re = match replace(ESCAPED_RE_MARKER, path_re.as_str(), group.as_str()) {
                Ok(next) => next,
                Err(_) => {
                    return Err(PatternCompileError);
                },
            };
            k = k + 1;
        }
        let ghost spliced_path = path_re@;
        let mut i: usize = 0;
        while i < idioms.len()
            invariant
                i <= idioms.len(),
                forall|j: int| 0 <= j < i ==> regex_compiles((#[trigger] idioms.deep_view()[j]).0),
                path_re@ == with_idioms(spliced_path, idioms.deep_view(), i as int),
            decreases idioms.len() - i,
        {
            let (detector, group) = idioms[i];
            assert(idioms.deep_view()[i as int] == (detector@, group@));
            path_re = match replace_all(detector, path_re.as_str(), group) {
                Ok(next) => next,
                Err(_) => {
                    return Err(PatternCompileError);
                },
            };
            i = i + 1;
        }
        match static_captures_len(path_re.as_str()) {
            Ok(static_len) => Ok(PathX { pattern: path_re, static_len }),
            Err(_) => Err(PatternCompileError),
        }
    }

    /// The groups of the leftmost match of the pattern in `path`, the whole
    /// match not among them, or `None` where the pattern does not match. A
    /// group that took no part in the match gives the empty string.
    pub fn get_groups(&self, path: &str) -> (r: Option<Vec<String>>)
        ensures
            r is Some <==> groups_in(self.source(), path@) is Some,
            r matches Some(values) ==> Some(values.deep_view()) == groups_in(
                self.source(),
                path@,
            ),
            r matches Some(values) ==> values@.len() + 1 == regex_captures_len(self.source()),
    {
        proof {
            use_type_invariant(self);
        }
        // The pattern compiled when this value was made, so it compiles now.
        match captures(self.pattern.as_str(), path) {
            Ok(Some(groups)) => captured_values(path, &groups),
            _ => None,
        }
    }

    /// Writes `path_src` anew with `groups[i]` in place of the `i`-th group
    /// that the pattern finds in it, and everything else as it is.
    pub fn get_path(&self, path_src: &str, groups: &Vec<String>) -> (r: Result<String, PathError>)
        ensures
            r matches Err(PathError::GroupCountMismatch) <==> !count_agrees(
                regex_static_captures_len(self.source()),
                groups@.len(),
            ),
            match path_for(self.source(), path_src@, groups.deep_view()) {
                Ok(bytes) => r is Ok && bytes_of(r->Ok_0@) == bytes,
                Err(e) => r == Err::<String, PathError>(e),
            },
            match path_text_for(self.source(), path_src@, groups.deep_view()) {
                Ok(text) => r is Ok && r->Ok_0@ == text,
                Err(e) => r == Err::<String, PathError>(e),
            },
    {
        proof {
            use_type_invariant(self);
        }
        if !group_count_agrees(self.static_len, groups.len()) {
            return Err(PathError::GroupCountMismatch);
        }
        // The pattern compiled when this value was made, so it compiles now.
        let found = match captures(self.pattern.as_str(), path_src) {
            Ok(found) => found,
            Err(_) => None,
        };
        path_of_match(&found, path_src, groups)
    }
}

/// Round trip: writing a text anew with the very groups that the pattern finds
/// in it gives the text back.
///
/// Such a writing never fails for want of a match. It is written exactly where
/// the number of groups found is the number that the pattern announces and the
/// groups can be replaced one after another.
pub proof fn lemma_round_trip(pattern: Seq<char>, text: Seq<char>)
    requires
        groups_in(pattern, text) is Some,
    ensures
        match path_for(pattern, text, groups_in(pattern, text)->Some_0) {
            Ok(bytes) => bytes == bytes_of(text),
            Err(e) => e != PathError::NoMatch,
        },
        match path_text_for(pattern, text, groups_in(pattern, text)->Some_0) {
            Ok(path) => path == text,
            Err(e) => e != PathError::NoMatch,
        },
        path_text_for(pattern, text, groups_in(pattern, text)->Some_0) is Ok <==> {
            let spans = inner_groups(regex_captures(pattern, text)->Some_0);
            &&& count_agrees(regex_static_captures_len(pattern), spans.len())
            &&& replaceable(bytes_of(text), spans)
        },
{
    let groups = regex_captures(pattern, text)->Some_0;
    let values = captured_each(text, groups);
    let spans = inner_groups(groups);
    let bytes = bytes_of(text);
    if path_for(pattern, text, values) is Ok {
        assert forall|k: int| 0 <= k < spans.len() implies #[trigger] bytes_of_each(values)[k]
            == bytes.subrange(span_start(spans, k), span_end(spans, k)) by {
            assert(spans[k] is Some);
            lemma_bytes_of_text_between(text, span_start(spans, k), span_end(spans, k));
        }
        lemma_same_values_same_text(bytes, spans, bytes_of_each(values));
        lemma_spliced_text(text, spans, values);
        lemma_bytes_of_injective(spliced_text(text, spans, values), text);
    }
}

} // verus!
