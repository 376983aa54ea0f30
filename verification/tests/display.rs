use umwtool::display::display_order;
use umwtool::display::precedes;
use umwtool::scanner::Property;
use umwtool::targets::parse_targets;
use umwtool::targets::TargetList;

fn shown(text: &str) -> Vec<String> {
    display_order(&parse_targets(text))
}

fn chars(s: &str) -> Vec<char> {
    s.chars().collect()
}

#[test]
fn entries_are_shown_by_their_lower_case_forms() {
    assert_eq!(shown("wxwork.exe\nBar\nfoo\nAlpha\n"), vec!["Alpha", "Bar", "foo", "wxwork.exe"]);
    assert_eq!(shown("b\nC\na\n"), vec!["a", "b", "C"]);
    assert_eq!(shown("Zeta\nalpha\n"), vec!["alpha", "Zeta"]);
}

#[test]
fn entries_with_one_lower_case_form_keep_their_order() {
    assert_eq!(shown("foo\nbar\nFOO\nBar\nFoo\n"), vec!["bar", "Bar", "foo", "FOO", "Foo"]);
    assert_eq!(shown("B\nb\nA\na\n"), vec!["A", "a", "B", "b"]);
    assert_eq!(shown("b\nB\na\nA\n"), vec!["a", "A", "b", "B"]);
}

#[test]
fn shorter_entry_is_shown_before_its_extensions() {
    assert_eq!(shown("abc\nab\na\nABCD\n"), vec!["a", "ab", "abc", "ABCD"]);
}

#[test]
fn display_order_of_few_entries() {
    assert_eq!(display_order(&TargetList::new()), Vec::<String>::new());
    assert_eq!(shown("only\n"), vec!["only"]);
}

#[test]
fn display_order_leaves_the_list_as_it_is() {
    let list = parse_targets("b\na\n");
    let first = display_order(&list);
    assert_eq!(first, vec!["a", "b"]);
    assert_eq!(list.as_slice().to_vec(), vec!["b", "a"]);
}

#[test]
fn display_order_is_a_stable_sort_by_lower_case_key() {
    let samples = [
        "",
        "x\n",
        "b\na\nC\nA\nc\nB\n",
        "wxwork.exe\nWeChat\nwechat.exe\nQQ\nqq.exe\nDingTalk\n",
        "é\ne\nE\nÉ\nz\nZ\n~\n_\n",
        "10\n9\n1\n01\n",
        "same\nSAME\nsame \nSame\n",
        "日本\n日\nabc\nÿ\n",
    ];
    for text in samples {
        let list = parse_targets(text);
        let mut expected: Vec<String> = list.as_slice().to_vec();
        expected.sort_by_key(|a| a.to_ascii_lowercase());
        assert_eq!(display_order(&list), expected, "{:?}", text);
    }
}

#[test]
fn precedes_is_the_order_of_strings() {
    let samples = ["", "a", "A", "aa", "ab", "b", "B", "é", "z", "zz", "日", "~", "a~", "a日"];
    for a in samples {
        for b in samples {
            assert_eq!(precedes(&chars(a), &chars(b)), a <= b, "{:?} {:?}", a, b);
        }
    }
}

#[test]
fn properties_have_their_atoms() {
    assert_eq!(Property::Class.atom_name(), "WM_CLASS");
    assert_eq!(Property::Name.atom_name(), "WM_NAME");
}
