use pathx::ada::{
    auto_groups, captured_values, fragment_text, group_count_agrees, groups_of_fragment,
    path_of_match, raw_fragments, PathError, PathX, PatternCompileError,
};
use regex::Regex;

fn strings(items: &[&str]) -> Vec<String> {
    items.iter().map(|s| s.to_string()).collect()
}

#[test]
fn test_ada_path() {
    let path = PathX::new("C:\\[00]\\[01]\\[02]\\r*\\d(\\d\\d)\\d*r").unwrap();
    let path_regex = Regex::new(path.as_str()).unwrap();
    assert!(path_regex.is_match("C:\\[00]\\[01]\\[02]\\6039"));
    assert_eq!(
        path_regex
            .captures("C:\\[00]\\[01]\\[02]\\6039")
            .unwrap()
            .get(1)
            .unwrap()
            .as_str(),
        "00"
    );
    assert_eq!(
        path.get_groups(
            path_regex
                .captures("C:\\[00]\\[01]\\[02]\\6039")
                .unwrap()
                .get(0)
                .unwrap()
                .as_str()
        )
        .unwrap(),
        vec!["00", "01", "02", "03"]
    );
    assert_eq!(
        path.get_path(
            "C:\\[00]\\[01]\\[02]\\6039",
            &vec![
                "11".to_string(),
                "22".to_string(),
                "33".to_string(),
                "44".to_string()
            ]
        )
        .unwrap(),
        "C:\\[11]\\[22]\\[33]\\6449"
    );
}

#[test]
fn test_ada_path_with_parentheses() {
    let path = PathX::new(r"C:\1\1\?3").unwrap();
    assert_eq!(
        path.get_path("C:\\1\\1\\?3", &vec!["33".to_string()])
            .unwrap(),
        "C:\\1\\1\\333"
    );
}

#[test]
fn builtin_idiom_extracts_and_synthesizes() {
    let template = "C:\\[00]\\[01]\\[02]";
    let path = PathX::new(template).unwrap();
    assert_eq!(path.get_groups(template).unwrap(), strings(&["00", "01", "02"]));
    assert_eq!(
        path.get_path(template, &strings(&["11", "22", "33"])).unwrap(),
        "C:\\[11]\\[22]\\[33]"
    );
}

#[test]
fn raw_fragment_group_keeps_its_place_among_the_builtin_ones() {
    let path = PathX::new("[00] r*(\\d\\d)*r ?").unwrap();
    assert_eq!(path.as_str(), r"\[(\d\d)\] (\d\d) ((?s:.))");
    assert_eq!(path.get_groups("[12] 34 ?").unwrap(), strings(&["12", "34", "?"]));
}

#[test]
fn question_mark_stands_for_any_one_character() {
    let path = PathX::new("a?c").unwrap();
    assert_eq!(path.as_str(), "a((?s:.))c");
    assert_eq!(path.get_groups("a\nc"), Some(strings(&["\n"])));
    assert_eq!(path.get_groups("abc"), Some(strings(&["b"])));
    assert_eq!(path.get_groups("a?c"), Some(strings(&["?"])));
    assert_eq!(path.get_groups("aéc"), Some(strings(&["é"])));
    assert_eq!(path.get_groups("ac"), None);
    assert_eq!(path.get_path("abc", &strings(&["xyz"])).unwrap(), "axyzc");
}

#[test]
fn compiled_source_of_builtin_idioms() {
    let path = PathX::new("C:\\[00]\\a?.mkv").unwrap();
    assert_eq!(path.as_str(), r"C:\\\[(\d\d)\]\\a((?s:.))\.mkv");
}

#[test]
fn compiled_source_escapes_every_meta_character() {
    let path = PathX::new("a.b+c*d(e)f|g{h}i^j$k#l&m-n~o").unwrap();
    assert_eq!(path.as_str(), r"a\.b\+c\*d\(e\)f\|g\{h\}i\^j\$k\#l\&m\-n\~o");
    assert_eq!(path.get_groups("a.b+c*d(e)f|g{h}i^j$k#l&m-n~o"), Some(vec![]));
    assert_eq!(path.get_groups("aXb+c*d(e)f|g{h}i^j$k#l&m-n~o"), None);
}

#[test]
fn compiled_source_of_raw_fragment() {
    let path = PathX::new("ep r*(\\d+)*r.mkv").unwrap();
    assert_eq!(path.as_str(), r"ep (\d+)\.mkv");
    assert_eq!(path.get_groups("ep 12.mkv").unwrap(), strings(&["12"]));
}

#[test]
fn fragments_are_put_back_in_their_order() {
    let path = PathX::new("r*(a+)*r-r*(b+)*r").unwrap();
    assert_eq!(path.as_str(), r"(a+)\-(b+)");
    assert_eq!(path.get_groups("xaa-bbby").unwrap(), strings(&["aa", "bbb"]));
}

#[test]
fn every_two_digit_idiom_becomes_a_group() {
    let path = PathX::new("[00][00]x[99]").unwrap();
    assert_eq!(path.as_str(), r"\[(\d\d)\]\[(\d\d)\]x\[(\d\d)\]");
}

#[test]
fn idioms_of_the_caller_become_groups_in_their_order() {
    let idioms = vec![("%", "(.)"), (r"\\\.", r"(\.)")];
    let path = PathX::with_idioms("a%b.[00]", &idioms).unwrap();
    assert_eq!(path.as_str(), r"a(.)b(\.)\[00\]");
    assert_eq!(path.get_groups("aXb.[00]").unwrap(), strings(&["X", "."]));
    assert_eq!(PathX::with_idioms("a", &vec![("(", "x")]).err(), Some(PatternCompileError));
}

#[test]
fn auto_groups_are_the_two_builtin_idioms() {
    assert_eq!(
        auto_groups(),
        vec![(r"\\\[\d\d\\\]", r"\[(\d\d)\]"), (r"\\\?", r"((?s:.))")]
    );
}

#[test]
fn template_without_placeholders_has_no_groups() {
    let path = PathX::new("plain").unwrap();
    assert_eq!(path.as_str(), "plain");
    assert_eq!(path.get_groups("a plain path"), Some(vec![]));
    assert_eq!(path.get_path("a plain path", &vec![]).unwrap(), "a plain path");
}

#[test]
fn malformed_fragment_does_not_compile() {
    assert_eq!(PathX::new("x r*(*r y").err(), Some(PatternCompileError));
}

#[test]
fn no_match_gives_no_groups() {
    let path = PathX::new("ep[00].mkv").unwrap();
    assert_eq!(path.get_groups("ep1.mkv"), None);
    assert_eq!(path.get_groups("ep[1a].mkv"), None);
}

#[test]
fn match_is_found_anywhere_in_the_path() {
    let path = PathX::new("ep[00]").unwrap();
    assert_eq!(path.get_groups("/data/ep[07].mkv").unwrap(), strings(&["07"]));
    assert_eq!(
        path.get_path("/data/ep[07].mkv", &strings(&["42"])).unwrap(),
        "/data/ep[42].mkv"
    );
}

#[test]
fn group_that_took_no_part_gives_the_empty_string() {
    let path = PathX::new("r*(a)|(b)*r").unwrap();
    assert_eq!(path.get_groups("b").unwrap(), strings(&["", "b"]));
}

#[test]
fn groups_of_a_path_with_wide_characters() {
    let path = PathX::new("é[00]ü?").unwrap();
    assert_eq!(path.get_groups("é[12]ü?").unwrap(), strings(&["12", "?"]));
    assert_eq!(
        path.get_path("é[12]ü?", &strings(&["äö", "ß"])).unwrap(),
        "é[äö]üß"
    );
}

#[test]
fn group_count_mismatch_is_reported() {
    let path = PathX::new("C:\\[00]\\[01]").unwrap();
    assert_eq!(
        path.get_path("C:\\[00]\\[01]", &strings(&["11"])),
        Err(PathError::GroupCountMismatch)
    );
    assert_eq!(
        path.get_path("C:\\[00]\\[01]", &strings(&["11", "22", "33"])),
        Err(PathError::GroupCountMismatch)
    );
    assert_eq!(
        path.get_path("C:\\[00]\\[01]", &vec![]),
        Err(PathError::GroupCountMismatch)
    );
}

#[test]
fn group_count_mismatch_with_no_groups() {
    let path = PathX::new("plain").unwrap();
    assert_eq!(
        path.get_path("plain", &strings(&["x"])),
        Err(PathError::GroupCountMismatch)
    );
}

#[test]
fn group_count_is_checked_before_the_match() {
    let path = PathX::new("ep[00]").unwrap();
    assert_eq!(
        path.get_path("nothing here", &vec![]),
        Err(PathError::GroupCountMismatch)
    );
}

#[test]
fn varying_group_count_agrees_with_no_number_of_values() {
    let path = PathX::new("r*(a)?b*r").unwrap();
    assert_eq!(path.get_path("ab", &vec![]), Err(PathError::GroupCountMismatch));
    assert_eq!(
        path.get_path("ab", &strings(&["x"])),
        Err(PathError::GroupCountMismatch)
    );
}

#[test]
fn no_match_is_reported() {
    let path = PathX::new("ep[00]").unwrap();
    assert_eq!(
        path.get_path("ep[0a]", &strings(&["11"])),
        Err(PathError::NoMatch)
    );
}

#[test]
fn nested_groups_cannot_be_replaced() {
    let path = PathX::new("r*((a)b)*r").unwrap();
    assert_eq!(
        path.get_path("ab", &strings(&["x", "y"])),
        Err(PathError::GroupLayout)
    );
}

#[test]
fn missing_group_cannot_be_replaced() {
    let path = PathX::new("r*(a)(b)|(c)(d)*r").unwrap();
    assert_eq!(
        path.get_path("cd", &strings(&["x", "y"])),
        Err(PathError::GroupLayout)
    );
}

#[test]
fn round_trip_gives_the_template_back() {
    let template = "D:\\shows\\[00]x[00] ? - final?.mkv";
    let path = PathX::new(template).unwrap();
    let groups = path.get_groups(template).unwrap();
    assert_eq!(groups, strings(&["00", "00", "?", "?"]));
    assert_eq!(path.get_path(template, &groups).unwrap(), template);
}

#[test]
fn round_trip_on_a_matched_file() {
    let path = PathX::new("/in/s[00]e[00] r*(\\w+)*r.mkv").unwrap();
    let file = "/in/s01e07 pilot.mkv";
    let template = "/in/s[01]e[07] pilot.mkv";
    assert_eq!(path.get_groups(file), None);
    let groups = path.get_groups(template).unwrap();
    assert_eq!(groups, strings(&["01", "07", "pilot"]));
    assert_eq!(path.get_path(template, &groups).unwrap(), template);
}

#[test]
fn literal_text_is_kept_around_the_groups() {
    let path = PathX::new("head[00]middle?tail").unwrap();
    let out = path
        .get_path("head[12]middle?tail", &strings(&["<one>", "<two>"]))
        .unwrap();
    assert_eq!(out, "head[<one>]middle<two>tail");
    assert!(out.starts_with("head["));
    assert!(out.ends_with("tail"));
    assert_eq!(&out[10..18], "]middle<");
}

#[test]
fn empty_values_remove_the_groups() {
    let path = PathX::new("a[00]b").unwrap();
    assert_eq!(path.get_path("a[12]b", &strings(&[""])).unwrap(), "a[]b");
}

#[test]
fn messages_of_the_errors() {
    assert_eq!(
        PathError::GroupCountMismatch.message(),
        "Number of groups does not match"
    );
    assert_eq!(PathError::NoMatch.message(), "Path does not match");
    assert_eq!(
        PathError::GroupLayout.message(),
        "Groups cannot be replaced in order"
    );
}

#[test]
fn raw_fragments_takes_the_first_group_of_each_match() {
    let found = vec![
        vec![Some((0, 7)), Some((2, 5))],
        vec![Some((8, 13)), Some((10, 11))],
    ];
    assert_eq!(
        raw_fragments("r*abc*r r*d*r", &found),
        Some(strings(&["abc", "d"]))
    );
    assert_eq!(raw_fragments("r*abc*r", &vec![]), Some(vec![]));
}

#[test]
fn raw_fragments_needs_a_first_group() {
    assert_eq!(raw_fragments("r*abc*r", &vec![vec![Some((0, 7))]]), None);
    assert_eq!(raw_fragments("r*abc*r", &vec![vec![Some((0, 7)), None]]), None);
    assert_eq!(
        raw_fragments("r*abc*r", &vec![vec![Some((0, 7)), Some((5, 2))]]),
        None
    );
    assert_eq!(
        raw_fragments("r*abc*r", &vec![vec![Some((0, 7)), Some((2, 9))]]),
        None
    );
    assert_eq!(
        raw_fragments("r*é*r", &vec![vec![Some((0, 6)), Some((3, 4))]]),
        None
    );
}

#[test]
fn captured_values_leaves_the_whole_match_out() {
    let groups = vec![Some((0, 6)), Some((1, 3)), None, Some((3, 6))];
    assert_eq!(
        captured_values("abcdef", &groups),
        Some(strings(&["bc", "", "def"]))
    );
    assert_eq!(captured_values("abcdef", &vec![Some((0, 6))]), Some(vec![]));
}

#[test]
fn captured_values_needs_spans_that_can_be_sliced() {
    assert_eq!(captured_values("abc", &vec![]), None);
    assert_eq!(captured_values("abc", &vec![Some((0, 3)), Some((2, 4))]), None);
    assert_eq!(captured_values("abc", &vec![Some((0, 4))]), None);
    assert_eq!(captured_values("aé", &vec![Some((0, 3)), Some((1, 2))]), None);
}

#[test]
fn group_count_agrees_with_one_less_than_the_static_number() {
    assert!(group_count_agrees(Some(1), 0));
    assert!(group_count_agrees(Some(4), 3));
    assert!(!group_count_agrees(Some(4), 4));
    assert!(!group_count_agrees(Some(4), 2));
    assert!(!group_count_agrees(Some(0), 0));
    assert!(!group_count_agrees(None, 0));
    assert!(!group_count_agrees(None, 3));
}

#[test]
fn path_of_match_replaces_the_groups_behind_the_whole_match() {
    let found = Some(vec![Some((1, 5)), Some((1, 2)), Some((4, 5))]);
    assert_eq!(
        path_of_match(&found, "abcdef", &strings(&["X", "Y"])),
        Ok("aXcdYf".to_string())
    );
    assert_eq!(
        path_of_match(&Some(vec![Some((0, 3))]), "abc", &vec![]),
        Ok("abc".to_string())
    );
    assert_eq!(path_of_match(&Some(vec![]), "abc", &vec![]), Ok("abc".to_string()));
}

#[test]
fn path_of_match_reports_what_it_cannot_write() {
    assert_eq!(path_of_match(&None, "abc", &vec![]), Err(PathError::NoMatch));
    assert_eq!(
        path_of_match(&Some(vec![Some((0, 3)), None]), "abc", &strings(&["x"])),
        Err(PathError::GroupLayout)
    );
    assert_eq!(
        path_of_match(&Some(vec![Some((0, 3)), Some((0, 1))]), "abc", &vec![]),
        Err(PathError::GroupLayout)
    );
}

#[test]
fn fragment_without_a_group_becomes_one_group() {
    let path = PathX::new(r"ep_r*\d\d*r").unwrap();
    assert_eq!(path.as_str(), r"ep_(\d\d)");
    assert_eq!(path.get_groups("ep_42"), Some(strings(&["42"])));
    assert_eq!(path.get_path("ep_42", &strings(&["07"])).unwrap(), "ep_07");
}

#[test]
fn fragment_with_a_group_of_its_own_stands_as_written() {
    let path = PathX::new(r"ep_r*\d(\d\d)\d*r").unwrap();
    assert_eq!(path.as_str(), r"ep_\d(\d\d)\d");
    assert_eq!(path.get_groups("ep_6039"), Some(strings(&["03"])));
}

#[test]
fn fragment_with_a_group_that_captures_nothing_becomes_one_group() {
    let path = PathX::new(r"r*(?:ab)+*r-[00]").unwrap();
    assert_eq!(path.as_str(), r"((?:ab)+)\-\[(\d\d)\]");
    assert_eq!(path.get_groups("abab-[12]"), Some(strings(&["abab", "12"])));
}

#[test]
fn fragment_that_is_no_expression_by_itself_stands_as_written() {
    let path = PathX::new("ar***r").unwrap();
    assert_eq!(path.as_str(), "a*");
    assert_eq!(path.get_groups("aaa"), Some(vec![]));
}

#[test]
fn fragments_decide_each_for_itself() {
    let path = PathX::new(r"r*\d+*r_r*x(y)*r_r*z*r").unwrap();
    assert_eq!(path.as_str(), r"(\d+)_x(y)_(z)");
    assert_eq!(path.get_groups("12_xy_z"), Some(strings(&["12", "y", "z"])));
}

#[test]
fn dollar_in_a_fragment_is_kept_as_written() {
    let path = PathX::new(r"r*(a)$1*r").unwrap();
    assert_eq!(path.as_str(), "(a)$1");
    let path = PathX::new(r"x r*$name|y$$*r").unwrap();
    assert_eq!(path.as_str(), "x ($name|y$$)");
}

#[test]
fn dollar_in_an_idiom_group_is_kept_as_written() {
    let path = PathX::with_idioms("a%", &vec![("%", "(b$0$)")]).unwrap();
    assert_eq!(path.as_str(), "a(b$0$)");
}

#[test]
fn number_of_groups_is_that_of_the_pattern() {
    let path = PathX::new(r"[00]?r*(a)|(b)*r").unwrap();
    assert_eq!(path.get_groups("[12]xb").unwrap().len(), 4);
    assert_eq!(path.get_groups("[12]xa").unwrap().len(), 4);
}

#[test]
fn fragment_text_wraps_a_fragment_without_groups() {
    assert_eq!(fragment_text(r"\d\d", Some(0)), r"(\d\d)");
    assert_eq!(fragment_text("", Some(0)), "()");
    assert_eq!(fragment_text(r"\d(\d\d)\d", Some(1)), r"\d(\d\d)\d");
    assert_eq!(fragment_text("(a)(b)", Some(2)), "(a)(b)");
    assert_eq!(fragment_text("*", None), "*");
}

#[test]
fn groups_of_fragment_leaves_the_whole_match_out() {
    assert_eq!(groups_of_fragment(Some(1)), Some(0));
    assert_eq!(groups_of_fragment(Some(3)), Some(2));
    assert_eq!(groups_of_fragment(Some(0)), None);
    assert_eq!(groups_of_fragment(None), None);
}
