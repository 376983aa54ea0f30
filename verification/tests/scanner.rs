use umwtool::classifier::MapState;
use umwtool::scanner::Property;
use umwtool::scanner::Reply;
use umwtool::scanner::Request;
use umwtool::scanner::Scan;
use umwtool::scanner::ScanError;
use umwtool::scanner::MAX_PROPERTY_WORDS;
use umwtool::targets::default_targets;
use umwtool::targets::parse_targets;

fn text(s: &str) -> Reply {
    Reply::Text { value: s.as_bytes().to_vec() }
}

fn viewable() -> Reply {
    Reply::Attributes { map_state: MapState::Viewable }
}

/// Runs a scan against the given answers and returns what it asked, the
/// first request included.
fn run(replies: Vec<Reply>) -> Vec<Request> {
    let (mut scan, first) = Scan::start(default_targets());
    let mut asked = vec![first];
    for reply in replies {
        let (next, request) = scan.step(reply);
        scan = next;
        asked.push(request);
    }
    asked
}

#[test]
fn scan_starts_by_asking_for_the_tree() {
    let (scan, first) = Scan::start(default_targets());
    assert_eq!(first, Request::QueryTree);
    assert!(!scan.is_over());
}

#[test]
fn shadow_is_unmapped_once_and_flushed() {
    let asked = run(vec![
        Reply::Tree { children: vec![0x40_0001] },
        viewable(),
        text("wxwork.exe.wxwork.exe"),
        text("shadow"),
        Reply::Geometry { width: 900, height: 25 },
        Reply::Done,
        Reply::Done,
    ]);
    assert_eq!(
        asked,
        vec![
            Request::QueryTree,
            Request::GetAttributes { window: 0x40_0001 },
            Request::GetProperty { window: 0x40_0001, property: Property::Class },
            Request::GetProperty { window: 0x40_0001, property: Property::Name },
            Request::GetGeometry { window: 0x40_0001 },
            Request::Unmap { window: 0x40_0001, width: 900, height: 25 },
            Request::Flush,
            Request::Finish { outcome: Ok(()) },
        ]
    );
    let unmaps = asked.iter().filter(|r| matches!(r, Request::Unmap { .. })).count();
    let flushes = asked.iter().filter(|r| matches!(r, Request::Flush)).count();
    assert_eq!(unmaps, 1);
    assert_eq!(flushes, 1);
}

#[test]
fn window_below_the_ratio_is_left_alone() {
    let asked = run(vec![
        Reply::Tree { children: vec![7] },
        viewable(),
        text("wxwork.exe.wxwork.exe"),
        text(""),
        Reply::Geometry { width: 800, height: 30 },
    ]);
    assert_eq!(asked[4], Request::GetGeometry { window: 7 });
    assert_eq!(asked[5], Request::Finish { outcome: Ok(()) });
    assert!(asked.iter().all(|r| !matches!(r, Request::Unmap { .. })));
}

#[test]
fn window_of_known_width_is_left_alone() {
    let asked = run(vec![
        Reply::Tree { children: vec![7] },
        viewable(),
        text("wxwork.exe"),
        text(""),
        Reply::Geometry { width: 640, height: 21 },
    ]);
    assert_eq!(asked[5], Request::Finish { outcome: Ok(()) });
}

#[test]
fn window_of_another_program_is_left_alone() {
    let asked = run(vec![
        Reply::Tree { children: vec![7, 8] },
        viewable(),
        text("Navigator.firefox"),
        text("wxwork.exe"),
        Reply::Geometry { width: 900, height: 25 },
    ]);
    assert_eq!(asked[5], Request::GetAttributes { window: 8 });
}

#[test]
fn class_is_read_without_case_and_whitespace() {
    let asked = run(vec![
        Reply::Tree { children: vec![7] },
        viewable(),
        text("  WXWork.EXE\0WXWork.exe\0 \n"),
        text("t"),
        Reply::Geometry { width: 900, height: 25 },
    ]);
    assert_eq!(asked[5], Request::Unmap { window: 7, width: 900, height: 25 });
}

#[test]
fn class_that_is_not_utf8_does_not_stop_the_scan() {
    let asked = run(vec![
        Reply::Tree { children: vec![7, 8] },
        viewable(),
        Reply::Text { value: vec![0xff, 0xfe, b'w', b'x', b'w', b'o', b'r', b'k', b'.', b'e', b'x', b'e', 0xc3] },
        Reply::Text { value: vec![0x80] },
        Reply::Geometry { width: 900, height: 25 },
    ]);
    assert_eq!(asked[5], Request::Unmap { window: 7, width: 900, height: 25 });
}

#[test]
fn window_without_class_is_left_alone() {
    let asked = run(vec![
        Reply::Tree { children: vec![7] },
        viewable(),
        Reply::Text { value: vec![] },
        Reply::Text { value: vec![] },
        Reply::Geometry { width: 900, height: 25 },
    ]);
    assert_eq!(asked[2], Request::GetProperty { window: 7, property: Property::Class });
    assert_eq!(asked[3], Request::GetProperty { window: 7, property: Property::Name });
    assert_eq!(asked[5], Request::Finish { outcome: Ok(()) });
}

#[test]
fn window_that_is_not_viewable_is_asked_nothing_more() {
    let asked = run(vec![
        Reply::Tree { children: vec![1, 2, 3] },
        Reply::Attributes { map_state: MapState::Unmapped },
        Reply::Attributes { map_state: MapState::Other },
        viewable(),
    ]);
    assert_eq!(
        asked,
        vec![
            Request::QueryTree,
            Request::GetAttributes { window: 1 },
            Request::GetAttributes { window: 2 },
            Request::GetAttributes { window: 3 },
            Request::GetProperty { window: 3, property: Property::Class },
        ]
    );
}

#[test]
fn tree_that_cannot_be_had_ends_the_scan_with_an_error() {
    let (scan, _) = Scan::start(default_targets());
    let (scan, request) = scan.step(Reply::Failed);
    assert_eq!(request, Request::Finish { outcome: Err(ScanError::TreeUnavailable) });
    assert!(scan.is_over());
    let (scan, request) = scan.step(Reply::Tree { children: vec![1] });
    assert_eq!(request, Request::Finish { outcome: Err(ScanError::TreeUnavailable) });
    assert!(scan.is_over());
}

#[test]
fn empty_tree_ends_the_scan_well() {
    let (scan, _) = Scan::start(default_targets());
    let (scan, request) = scan.step(Reply::Tree { children: vec![] });
    assert_eq!(request, Request::Finish { outcome: Ok(()) });
    assert!(scan.is_over());
    let (scan, request) = scan.step(Reply::Done);
    assert_eq!(request, Request::Finish { outcome: Ok(()) });
    assert!(scan.is_over());
}

#[test]
fn failure_at_any_step_skips_that_window_only() {
    let before_failure: Vec<Vec<Reply>> = vec![
        vec![],
        vec![viewable()],
        vec![viewable(), text("wxwork.exe")],
        vec![viewable(), text("wxwork.exe"), text("n")],
        vec![viewable(), text("wxwork.exe"), text("n"), Reply::Geometry { width: 900, height: 25 }],
        vec![
            viewable(),
            text("wxwork.exe"),
            text("n"),
            Reply::Geometry { width: 900, height: 25 },
            Reply::Done,
        ],
    ];
    for answers in before_failure {
        let mut replies = vec![Reply::Tree { children: vec![11, 12] }];
        replies.extend(answers);
        replies.push(Reply::Failed);
        let asked = run(replies);
        assert_eq!(asked.last(), Some(&Request::GetAttributes { window: 12 }), "{:?}", asked);
    }
}

#[test]
fn failed_unmap_is_not_an_error_of_the_scan() {
    let asked = run(vec![
        Reply::Tree { children: vec![11] },
        viewable(),
        text("wxwork.exe"),
        text("n"),
        Reply::Geometry { width: 900, height: 25 },
        Reply::Failed,
    ]);
    assert_eq!(asked[5], Request::Unmap { window: 11, width: 900, height: 25 });
    assert_eq!(asked[6], Request::Finish { outcome: Ok(()) });
}

#[test]
fn window_found_unmapped_is_not_unmapped_again() {
    let asked = run(vec![
        Reply::Tree { children: vec![11] },
        viewable(),
        text("wxwork.exe"),
        text("n"),
        Reply::Geometry { width: 900, height: 25 },
        Reply::Done,
        Reply::Done,
    ]);
    assert_eq!(asked.iter().filter(|r| matches!(r, Request::Unmap { .. })).count(), 1);
    let again = run(vec![
        Reply::Tree { children: vec![11] },
        Reply::Attributes { map_state: MapState::Unmapped },
    ]);
    assert_eq!(
        again,
        vec![
            Request::QueryTree,
            Request::GetAttributes { window: 11 },
            Request::Finish { outcome: Ok(()) },
        ]
    );
}

#[test]
fn answer_that_was_not_asked_for_counts_as_failure() {
    let asked = run(vec![Reply::Tree { children: vec![1, 2] }, text("wxwork.exe")]);
    assert_eq!(asked[2], Request::GetAttributes { window: 2 });
    let asked = run(vec![Reply::Tree { children: vec![1, 2] }, viewable(), viewable()]);
    assert_eq!(asked[3], Request::GetAttributes { window: 2 });
    let asked = run(vec![Reply::Geometry { width: 900, height: 25 }]);
    assert_eq!(asked[1], Request::Finish { outcome: Err(ScanError::TreeUnavailable) });
}

#[test]
fn children_are_taken_in_the_order_of_the_tree() {
    let asked = run(vec![
        Reply::Tree { children: vec![30, 10, 20] },
        Reply::Attributes { map_state: MapState::Unmapped },
        Reply::Attributes { map_state: MapState::Unmapped },
        Reply::Attributes { map_state: MapState::Unmapped },
    ]);
    assert_eq!(
        asked,
        vec![
            Request::QueryTree,
            Request::GetAttributes { window: 30 },
            Request::GetAttributes { window: 10 },
            Request::GetAttributes { window: 20 },
            Request::Finish { outcome: Ok(()) },
        ]
    );
}

#[test]
fn each_shadow_among_several_windows_is_unmapped() {
    let asked = run(vec![
        Reply::Tree { children: vec![1, 2, 3] },
        viewable(),
        text("wxwork.exe"),
        text("a"),
        Reply::Geometry { width: 900, height: 25 },
        Reply::Done,
        Reply::Done,
        viewable(),
        text("wxwork.exe"),
        text("main"),
        Reply::Geometry { width: 640, height: 480 },
        viewable(),
        text("wxwork.exe"),
        text("b"),
        Reply::Geometry { width: 3000, height: 99 },
        Reply::Done,
        Reply::Done,
    ]);
    let unmapped: Vec<&Request> = asked.iter().filter(|r| matches!(r, Request::Unmap { .. })).collect();
    assert_eq!(
        unmapped,
        vec![
            &Request::Unmap { window: 1, width: 900, height: 25 },
            &Request::Unmap { window: 3, width: 3000, height: 99 },
        ]
    );
    assert_eq!(asked.last(), Some(&Request::Finish { outcome: Ok(()) }));
}

#[test]
fn scan_uses_the_targets_it_was_started_with() {
    let (scan, _) = Scan::start(parse_targets("other.exe\n"));
    let (scan, _) = scan.step(Reply::Tree { children: vec![5] });
    let (scan, _) = scan.step(viewable());
    let (scan, _) = scan.step(text("wxwork.exe"));
    let (scan, _) = scan.step(text(""));
    let (_, request) = scan.step(Reply::Geometry { width: 900, height: 25 });
    assert_eq!(request, Request::Finish { outcome: Ok(()) });

    let (scan, _) = Scan::start(parse_targets("other.exe\n"));
    let (scan, _) = scan.step(Reply::Tree { children: vec![5] });
    let (scan, _) = scan.step(viewable());
    let (scan, _) = scan.step(text("Other.EXE"));
    let (scan, _) = scan.step(text(""));
    let (_, request) = scan.step(Reply::Geometry { width: 900, height: 25 });
    assert_eq!(request, Request::Unmap { window: 5, width: 900, height: 25 });
}

#[test]
fn scan_of_n_windows_ends_within_six_answers_each() {
    let children: Vec<u32> = (1..=4).collect();
    let (mut scan, _) = Scan::start(default_targets());
    let (next, mut request) = scan.step(Reply::Tree { children: children.clone() });
    scan = next;
    let mut answers = 1;
    while !scan.is_over() {
        let reply = match request {
            Request::GetAttributes { .. } => viewable(),
            Request::GetProperty { .. } => text("wxwork.exe"),
            Request::GetGeometry { .. } => Reply::Geometry { width: 900, height: 25 },
            Request::Unmap { .. } | Request::Flush => Reply::Done,
            Request::QueryTree | Request::Finish { .. } => unreachable!(),
        };
        let (next, asked) = scan.step(reply);
        scan = next;
        request = asked;
        answers += 1;
    }
    assert_eq!(answers, 1 + 6 * children.len());
    assert_eq!(request, Request::Finish { outcome: Ok(()) });
}

#[test]
fn property_reads_are_bounded() {
    assert_eq!(MAX_PROPERTY_WORDS, 1024);
}
