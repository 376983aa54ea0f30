use umwtool::targets::default_targets;
use umwtool::targets::load_targets;
use umwtool::targets::parse_targets;
use umwtool::targets::save_targets;
use umwtool::targets::AddOutcome;
use umwtool::targets::TargetList;
use umwtool::targets::DEFAULT_TARGET;

fn entries(list: &TargetList) -> Vec<String> {
    list.as_slice().to_vec()
}

fn count_like(list: &TargetList, text: &str) -> usize {
    list.as_slice().iter().filter(|e| e.eq_ignore_ascii_case(text)).count()
}

#[test]
fn default_list_is_the_one_built_in_entry() {
    assert_eq!(DEFAULT_TARGET, "wxwork.exe");
    assert_eq!(entries(&default_targets()), vec!["wxwork.exe"]);
    assert_eq!(default_targets().len(), 1);
}

#[test]
fn new_list_is_empty() {
    let list = TargetList::new();
    assert_eq!(list.len(), 0);
    assert_eq!(entries(&list), Vec::<String>::new());
    assert_eq!(save_targets(&list), "");
}

#[test]
fn empty_file_gives_the_default_list_to_be_stored() {
    let start = load_targets(Some(""));
    assert!(start.must_save);
    assert_eq!(entries(&start.targets), vec!["wxwork.exe"]);
    assert_eq!(save_targets(&start.targets), "wxwork.exe\n");
    let snapshot = start.targets.snapshot();
    assert_eq!(entries(&snapshot), entries(&default_targets()));
}

#[test]
fn missing_file_gives_the_default_list_to_be_stored() {
    let start = load_targets(None);
    assert!(start.must_save);
    assert_eq!(entries(&start.targets), vec!["wxwork.exe"]);
}

#[test]
fn file_of_blank_lines_gives_the_default_list() {
    let start = load_targets(Some(" \n\t\r\n\n   "));
    assert!(start.must_save);
    assert_eq!(entries(&start.targets), vec!["wxwork.exe"]);
}

#[test]
fn stored_entries_are_loaded_as_they_are() {
    let start = load_targets(Some("foo.exe\nBar\n"));
    assert!(!start.must_save);
    assert_eq!(entries(&start.targets), vec!["foo.exe", "Bar"]);
}

#[test]
fn parse_trims_lines_and_drops_blank_ones() {
    assert_eq!(entries(&parse_targets("a\n b \r\n\n\tC d\t\n")), vec!["a", "b", "C d"]);
    assert_eq!(entries(&parse_targets("last line without end")), vec!["last line without end"]);
    assert_eq!(entries(&parse_targets("\n\nx")), vec!["x"]);
    assert_eq!(entries(&parse_targets("x\n\n")), vec!["x"]);
    assert_eq!(entries(&parse_targets("")), Vec::<String>::new());
    assert_eq!(entries(&parse_targets("\n")), Vec::<String>::new());
    assert_eq!(entries(&parse_targets("a\rb\n")), vec!["a\rb"]);
    assert_eq!(entries(&parse_targets("dup\nDUP\n")), vec!["dup", "DUP"]);
}

#[test]
fn parse_is_lines_trimmed_and_filtered() {
    let samples = ["", "a", "a\n", "a\r\n", "\r\na\r\n\r\n", " a \n\n b", "x\ry\n", "é \u{3000}\n\u{00A0}ü", "one\ntwo\nthree"];
    for text in samples {
        let expected: Vec<String> =
            text.lines().map(|l| l.trim()).filter(|l| !l.is_empty()).map(|l| l.to_string()).collect();
        assert_eq!(entries(&parse_targets(text)), expected, "{:?}", text);
    }
}

#[test]
fn save_writes_one_entry_per_line() {
    let list = parse_targets("  foo.exe\n\nBar baz  \n");
    assert_eq!(save_targets(&list), "foo.exe\nBar baz\n");
}

#[test]
fn saved_list_is_read_back_unchanged() {
    let mut list = default_targets();
    list.add("Second One");
    list.add("third");
    let text = save_targets(&list);
    assert_eq!(text, "wxwork.exe\nSecond One\nthird\n");
    assert_eq!(entries(&parse_targets(&text)), entries(&list));
    let again = load_targets(Some(&text));
    assert!(!again.must_save);
    assert_eq!(entries(&again.targets), entries(&list));
}

#[test]
fn added_entry_is_there_once_after_reload() {
    let mut list = default_targets();
    assert_eq!(list.add("Foo"), AddOutcome::Added);
    let reloaded = load_targets(Some(&save_targets(&list))).targets;
    assert_eq!(entries(&reloaded), vec!["wxwork.exe", "Foo"]);
    assert_eq!(count_like(&reloaded, "foo"), 1);
    assert!(reloaded.contains("foo"));
    assert!(reloaded.contains("FOO"));
}

#[test]
fn added_entry_is_stored_trimmed() {
    let mut list = TargetList::new();
    assert_eq!(list.add("  Foo \t\n"), AddOutcome::Added);
    assert_eq!(entries(&list), vec!["Foo"]);
    assert_eq!(save_targets(&list), "Foo\n");
    let reloaded = parse_targets(&save_targets(&list));
    assert_eq!(count_like(&reloaded, "foo"), 1);
}

#[test]
fn adding_twice_stores_once() {
    let mut list = TargetList::new();
    assert_eq!(list.add("wxwork.exe"), AddOutcome::Added);
    assert_eq!(list.add("wxwork.exe"), AddOutcome::Duplicate);
    assert_eq!(entries(&list), vec!["wxwork.exe"]);
}

#[test]
fn adding_in_other_case_or_with_whitespace_stores_once() {
    let mut list = TargetList::new();
    assert_eq!(list.add("wxwork.exe"), AddOutcome::Added);
    for variant in ["WXWORK.EXE", "  wxwork.exe", "WxWork.Exe \n", "\twxWORK.exe\t"] {
        assert_eq!(list.add(variant), AddOutcome::Duplicate, "{:?}", variant);
    }
    assert_eq!(entries(&list), vec!["wxwork.exe"]);
    assert_eq!(count_like(&list, "wxwork.exe"), 1);
    assert_eq!(save_targets(&list), "wxwork.exe\n");
}

#[test]
fn adding_the_default_entry_again_changes_nothing() {
    let mut list = default_targets();
    assert_eq!(list.add(" WXWork.exe "), AddOutcome::Duplicate);
    assert_eq!(entries(&list), vec!["wxwork.exe"]);
}

#[test]
fn adding_nothing_changes_nothing() {
    let mut list = default_targets();
    for blank in ["", " ", "\n", " \t \r\n", "\u{3000}"] {
        assert_eq!(list.add(blank), AddOutcome::Blank, "{:?}", blank);
    }
    assert_eq!(entries(&list), vec!["wxwork.exe"]);
}

#[test]
fn entries_keep_the_order_in_which_they_came() {
    let mut list = TargetList::new();
    list.add("b");
    list.add("a");
    list.add("C");
    list.add("A");
    assert_eq!(entries(&list), vec!["b", "a", "C"]);
    assert_eq!(list.len(), 3);
}

#[test]
fn entries_that_differ_beyond_ascii_case_are_both_kept() {
    let mut list = TargetList::new();
    assert_eq!(list.add("école"), AddOutcome::Added);
    assert_eq!(list.add("École"), AddOutcome::Added);
    assert_eq!(list.add("ÉCOLE"), AddOutcome::Duplicate);
    assert_eq!(entries(&list), vec!["école", "École"]);
}

#[test]
fn remove_takes_every_entry_that_is_the_text() {
    let mut list = parse_targets("foo\nbar\nFOO\nbaz\n");
    assert!(list.remove("Foo"));
    assert_eq!(entries(&list), vec!["bar", "baz"]);
    assert!(!list.contains("foo"));
}

#[test]
fn remove_trims_what_it_is_given() {
    let mut list = parse_targets("foo\nbar\n");
    assert!(list.remove("  BAR \n"));
    assert_eq!(entries(&list), vec!["foo"]);
}

#[test]
fn remove_of_what_is_not_there_changes_nothing() {
    let mut list = parse_targets("foo\nbar\n");
    assert!(!list.remove("fo"));
    assert!(!list.remove(""));
    assert!(!list.remove("   "));
    assert_eq!(entries(&list), vec!["foo", "bar"]);
}

#[test]
fn remove_then_add_puts_the_entry_last() {
    let mut list = parse_targets("foo\nbar\n");
    assert!(list.remove("foo"));
    assert_eq!(list.add("Foo"), AddOutcome::Added);
    assert_eq!(entries(&list), vec!["bar", "Foo"]);
}

#[test]
fn list_may_be_emptied() {
    let mut list = default_targets();
    assert!(list.remove("wxwork.exe"));
    assert_eq!(list.len(), 0);
    assert_eq!(save_targets(&list), "");
    let start = load_targets(Some(&save_targets(&list)));
    assert!(start.must_save);
    assert_eq!(entries(&start.targets), vec!["wxwork.exe"]);
}

#[test]
fn contains_sets_case_aside_but_not_whitespace() {
    let list = parse_targets("Foo\n");
    assert!(list.contains("foo"));
    assert!(list.contains("FOO"));
    assert!(!list.contains(" foo"));
    assert!(!list.contains("fo"));
    assert!(!list.contains(""));
}

#[test]
fn snapshot_does_not_see_later_changes() {
    let mut list = default_targets();
    let before = list.snapshot();
    list.add("later");
    list.remove("wxwork.exe");
    assert_eq!(entries(&before), vec!["wxwork.exe"]);
    assert_eq!(entries(&list), vec!["later"]);
    let after = list.snapshot();
    assert_eq!(entries(&after), vec!["later"]);
}

#[test]
fn entry_with_a_line_feed_is_read_back_as_two() {
    let mut list = TargetList::new();
    assert_eq!(list.add("a\nb"), AddOutcome::Added);
    assert_eq!(entries(&list), vec!["a\nb"]);
    assert_eq!(entries(&parse_targets(&save_targets(&list))), vec!["a", "b"]);
}
