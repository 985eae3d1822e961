use overrider::build_table;
use overrider::names::accept_list_chars;
use overrider::names::final_env_chars;
use overrider::names::predicate_name_chars;
use overrider::resolve::PredicateTable;
use overrider::rewrite::override_default;
use overrider::rewrite::override_final;
use overrider::rewrite::override_flag;
use overrider::rewrite::select_branch;
use overrider::rewrite::FinalAdvice;
use overrider::scan::extract;
use overrider::scan::get_priority;
use overrider::scan::Attr;
use overrider::scan::ImplMember;
use overrider::scan::MemberKind;
use overrider::scan::SourceItem;
use overrider::scan::Status;
use overrider::OverrideError;

fn cv(s: &str) -> Vec<char> {
    s.chars().collect()
}

fn string_of(v: &[char]) -> String {
    v.iter().collect()
}

fn attr(name: &str, args: &str) -> Attr {
    Attr { name: cv(name), args: cv(args) }
}

fn func(name: &str, attrs: Vec<Attr>) -> SourceItem {
    SourceItem::Function { name: cv(name), attrs }
}

fn impl_block(self_type: &str, attrs: Vec<Attr>, members: Vec<(MemberKind, &str)>) -> SourceItem {
    SourceItem::ImplBlock {
        self_type: cv(self_type),
        attrs,
        members: members
            .into_iter()
            .map(|(kind, name)| ImplMember { kind, name: cv(name) })
            .collect(),
    }
}

fn excluded_names(t: &PredicateTable) -> Vec<String> {
    t.excluded
        .iter()
        .map(|p| string_of(&predicate_name_chars(p)))
        .collect()
}

#[test]
fn classify_first_recognized_attribute() {
    let st = get_priority(&vec![attr("inline", ""), attr("default", "")]).unwrap();
    assert!(matches!(st, Status::Norm { priority: 0 }));
    let st = get_priority(&vec![attr("override_default", "priority = 3")]).unwrap();
    assert!(matches!(st, Status::Norm { priority: 3 }));
    let st = get_priority(&vec![attr("override_default", "")]).unwrap();
    assert!(matches!(st, Status::Norm { priority: 1 }));
    let st = get_priority(&vec![attr("override_final", "")]).unwrap();
    assert!(matches!(st, Status::FinalMark));
    let st = get_priority(&vec![attr("derive", "Debug")]).unwrap();
    assert!(matches!(st, Status::Empty));
    let st = get_priority(&vec![attr("override_flag", "flag = a, invert = true")]).unwrap();
    match st {
        Status::Flagged { flag, priority, invert } => {
            assert_eq!(flag, cv("a"));
            assert_eq!(priority, 1);
            assert!(invert);
        },
        _ => panic!("expected a flagged status"),
    }
}

#[test]
fn classify_rejects_malformed_arguments() {
    let e = get_priority(&vec![attr("default", "x")]).unwrap_err();
    assert_eq!(e, OverrideError::MalformedArguments);
    let e = get_priority(&vec![attr("override_default", "priority = z")]).unwrap_err();
    assert_eq!(e, OverrideError::InvalidLiteral);
}

#[test]
fn scan_aborts_on_first_malformed_attribute() {
    let items = vec![
        func("good", vec![attr("default", "")]),
        func("bad", vec![attr("override_flag", "flag = a, flag = b")]),
    ];
    assert_eq!(
        build_table(&items).unwrap_err(),
        OverrideError::MalformedArguments
    );
}

#[test]
fn highest_priority_wins_others_excluded() {
    // the two losing candidates of `foo` are excluded; the priority-2
    // winner gets no predicate
    let items = vec![
        func("foo", vec![attr("default", "")]),
        func("foo", vec![attr("override_default", "")]),
        func("foo", vec![attr("override_default", "priority = 2")]),
    ];
    let t = build_table(&items).unwrap();
    assert_eq!(
        excluded_names(&t),
        vec![
            "__override_priority_0_func_foo".to_string(),
            "__override_priority_1_func_foo".to_string(),
        ]
    );
    assert_eq!(t.finals.len(), 0);
    assert_eq!(t.accepts.len(), 0);
}

#[test]
fn exclusion_lookup_marks_exactly_the_losers() {
    let items = vec![
        func("foo", vec![attr("default", "")]),
        func("foo", vec![attr("override_default", "priority = 2")]),
    ];
    let t = build_table(&items).unwrap();
    let loser = overrider::resolve::Predicate {
        key: overrider::keys::ItemKey::Func { name: cv("foo") },
        flag: None,
        priority: 0,
    };
    let winner = overrider::resolve::Predicate {
        key: overrider::keys::ItemKey::Func { name: cv("foo") },
        flag: None,
        priority: 2,
    };
    let other = overrider::resolve::Predicate {
        key: overrider::keys::ItemKey::Func { name: cv("bar") },
        flag: None,
        priority: 0,
    };
    assert!(overrider::resolve::is_excluded(&t, &loser));
    assert!(!overrider::resolve::is_excluded(&t, &winner));
    assert!(!overrider::resolve::is_excluded(&t, &other));
}

#[test]
fn lone_default_is_never_excluded() {
    let items = vec![func("foo", vec![attr("default", "")])];
    let t = build_table(&items).unwrap();
    assert_eq!(t.excluded.len(), 0);
    assert_eq!(t.finals.len(), 0);
}

#[test]
fn chains_are_independent_per_key() {
    let items = vec![
        func("foo", vec![attr("default", "")]),
        func("bar", vec![attr("default", "")]),
        func("foo", vec![attr("override_default", "")]),
    ];
    let t = build_table(&items).unwrap();
    assert_eq!(
        excluded_names(&t),
        vec!["__override_priority_0_func_foo".to_string()]
    );
}

#[test]
fn impl_block_members_each_get_a_candidate() {
    let items = vec![
        impl_block(
            "Dummy",
            vec![attr("default", "")],
            vec![(MemberKind::Method, "foo"), (MemberKind::ConstMember, "MAX")],
        ),
        impl_block(
            "Dummy",
            vec![attr("override_default", "priority = 5")],
            vec![(MemberKind::Method, "foo")],
        ),
    ];
    let t = build_table(&items).unwrap();
    assert_eq!(
        excluded_names(&t),
        vec!["__override_priority_0_method_Dummy_foo".to_string()]
    );
}

#[test]
fn final_requirement_is_winner_plus_one() {
    // the only competitor has priority 5, so the marker must ask for 6
    let items = vec![
        func("foo", vec![attr("override_default", "priority = 5")]),
        func("foo", vec![attr("override_final", "")]),
    ];
    let t = build_table(&items).unwrap();
    assert_eq!(t.finals.len(), 1);
    assert_eq!(string_of(&final_env_chars(&t.finals[0].key)), "__override_final_func_foo");
    assert_eq!(t.finals[0].required, 6);

    let reports = override_final(
        &cv(""),
        &func("foo", vec![attr("override_final", "")]),
        &t,
    )
    .unwrap();
    assert_eq!(reports.len(), 1);
    assert_eq!(reports[0].advice, FinalAdvice::UsePriority(6));
}

#[test]
fn unchallenged_final_requires_one() {
    let items = vec![func("foo", vec![attr("override_final", "")])];
    let t = build_table(&items).unwrap();
    assert_eq!(t.finals.len(), 1);
    assert_eq!(t.finals[0].required, 1);
    let reports = override_final(
        &cv(""),
        &func("foo", vec![attr("override_final", "")]),
        &t,
    )
    .unwrap();
    assert_eq!(reports[0].advice, FinalAdvice::UseOverrideDefault);
}

#[test]
fn final_reports_every_impl_member() {
    let items = vec![
        impl_block(
            "Dummy",
            vec![attr("default", "")],
            vec![(MemberKind::Method, "foo"), (MemberKind::Method, "bar")],
        ),
        impl_block(
            "Dummy",
            vec![attr("override_final", "")],
            vec![(MemberKind::Method, "foo"), (MemberKind::Method, "bar")],
        ),
    ];
    let t = build_table(&items).unwrap();
    let item = impl_block(
        "Dummy",
        vec![],
        vec![(MemberKind::Method, "foo"), (MemberKind::Method, "bar")],
    );
    let reports = override_final(&cv(""), &item, &t).unwrap();
    assert_eq!(reports.len(), 2);
    assert_eq!(reports[0].advice, FinalAdvice::UseOverrideDefault);
    assert_eq!(reports[1].advice, FinalAdvice::UseOverrideDefault);
}

#[test]
fn final_without_scan_is_missing_build_step() {
    let t = build_table(&vec![]).unwrap();
    let e = override_final(&cv(""), &func("foo", vec![]), &t).unwrap_err();
    assert_eq!(e, OverrideError::MissingBuildStep);
}

#[test]
fn flag_subchains_resolve_independently() {
    // flag `a` has competitors at priorities 1 and 3; flag `b` only one.
    // only the losing `a` candidate is excluded, whatever happens to `b`.
    let items = vec![
        func("foo", vec![attr("default", "")]),
        func("foo", vec![attr("override_flag", "flag = a")]),
        func("foo", vec![attr("override_flag", "flag = a, priority = 3")]),
        func("foo", vec![attr("override_flag", "flag = b")]),
    ];
    let t = build_table(&items).unwrap();
    assert_eq!(
        excluded_names(&t),
        vec!["__override_priority_1_flag__a_func_foo".to_string()]
    );

    let mut more = items;
    more.push(func("foo", vec![attr("override_flag", "flag = b, priority = 7")]));
    let t2 = build_table(&more).unwrap();
    // the winner of `a` is unchanged; only `b` gained an exclusion
    assert!(excluded_names(&t2).contains(&"__override_priority_1_flag__a_func_foo".to_string()));
    assert!(excluded_names(&t2).contains(&"__override_priority_1_flag__b_func_foo".to_string()));
    assert!(!excluded_names(&t2).contains(&"__override_priority_3_flag__a_func_foo".to_string()));
}

#[test]
fn inverted_and_plain_flags_form_distinct_subchains() {
    let items = vec![
        func("foo", vec![attr("override_flag", "flag = a")]),
        func("foo", vec![attr("override_flag", "flag = a, invert = true")]),
    ];
    let t = build_table(&items).unwrap();
    // both win their own sub-chain: nothing is excluded
    assert_eq!(t.excluded.len(), 0);
    assert_eq!(t.accepts.len(), 1);
    assert_eq!(string_of(&accept_list_chars(&t.accepts[0].flags)), "_a i_a");
}

#[test]
fn dispatcher_tests_flags_in_source_order() {
    // `foo` accepts flags `a` then `b`; the dispatcher checks `a` first,
    // falls through to `b`, then to the plain default
    let items = vec![
        func("foo", vec![attr("default", "")]),
        func("foo", vec![attr("override_flag", "flag = a")]),
        func("foo", vec![attr("override_flag", "flag = b")]),
    ];
    let t = build_table(&items).unwrap();
    assert_eq!(t.accepts.len(), 1);
    assert_eq!(string_of(&accept_list_chars(&t.accepts[0].flags)), "_a _b");

    let plans = overrider::rewrite::default(&cv(""), &func("foo", vec![]), &t).unwrap();
    assert_eq!(plans.len(), 1);
    let branches = plans[0].dispatch.as_ref().unwrap();
    assert_eq!(branches.len(), 2);
    assert_eq!(branches[0].name, cv("a"));
    assert_eq!(branches[1].name, cv("b"));

    assert_eq!(select_branch(branches, &vec![1, 0]), Some(0));
    assert_eq!(select_branch(branches, &vec![0, 1]), Some(1));
    assert_eq!(select_branch(branches, &vec![1, 1]), Some(0));
    assert_eq!(select_branch(branches, &vec![0, 0]), None);
}

#[test]
fn inverted_branch_fires_when_flag_is_absent() {
    let items = vec![
        func("foo", vec![attr("default", "")]),
        func("foo", vec![attr("override_flag", "flag = disable, invert = true")]),
    ];
    let t = build_table(&items).unwrap();
    let plans = overrider::rewrite::default(&cv(""), &func("foo", vec![]), &t).unwrap();
    let branches = plans[0].dispatch.as_ref().unwrap();
    assert_eq!(select_branch(branches, &vec![0]), Some(0));
    assert_eq!(select_branch(branches, &vec![2]), None);
}

#[test]
fn rescan_of_identical_input_reproduces_the_table() {
    let items = vec![
        func("foo", vec![attr("default", "")]),
        func("foo", vec![attr("override_default", "priority = 2")]),
        func("foo", vec![attr("override_flag", "flag = a")]),
        func("bar", vec![attr("override_final", "")]),
        impl_block(
            "Dummy",
            vec![attr("default", "")],
            vec![(MemberKind::Method, "foo"), (MemberKind::ConstMember, "MAX")],
        ),
    ];
    let t1 = build_table(&items).unwrap();
    let t2 = build_table(&items).unwrap();
    assert_eq!(excluded_names(&t1), excluded_names(&t2));
    assert_eq!(t1.finals.len(), t2.finals.len());
    for (a, b) in t1.finals.iter().zip(t2.finals.iter()) {
        assert!(a.key.key_eq(&b.key));
        assert_eq!(a.required, b.required);
    }
    assert_eq!(t1.accepts.len(), t2.accepts.len());
    for (a, b) in t1.accepts.iter().zip(t2.accepts.iter()) {
        assert!(a.key.key_eq(&b.key));
        assert_eq!(
            string_of(&accept_list_chars(&a.flags)),
            string_of(&accept_list_chars(&b.flags))
        );
    }
}

#[test]
fn rewrite_rejects_unsupported_items() {
    let t = build_table(&vec![]).unwrap();
    assert_eq!(
        overrider::rewrite::default(&cv(""), &SourceItem::Unparsed, &t).unwrap_err(),
        OverrideError::UnsupportedItemKind
    );
    assert_eq!(
        override_flag(
            &cv("flag = a"),
            &impl_block("Dummy", vec![], vec![(MemberKind::ConstMember, "MAX")]),
        )
        .unwrap_err(),
        OverrideError::UnsupportedItemKind
    );
}

#[test]
fn override_flag_renames_each_method() {
    let decls = override_flag(
        &cv("flag = a, priority = 2"),
        &impl_block(
            "Dummy",
            vec![],
            vec![(MemberKind::Method, "foo"), (MemberKind::Method, "bar")],
        ),
    )
    .unwrap();
    assert_eq!(decls.len(), 2);
    assert_eq!(decls[0].flag, cv("a"));
    assert_eq!(decls[0].priority, 2);
    assert!(!decls[0].invert);
    assert!(decls[0].key.key_eq(&overrider::keys::ItemKey::Method {
        owner: cv("Dummy"),
        name: cv("foo")
    }));
    assert!(decls[1].key.key_eq(&overrider::keys::ItemKey::Method {
        owner: cv("Dummy"),
        name: cv("bar")
    }));
}

#[test]
fn override_default_tags_every_member() {
    let items = vec![func("quux", vec![attr("default", "")])];
    let t = build_table(&items).unwrap();
    let plans = override_default(
        &cv("priority = 4"),
        &impl_block("Dummy", vec![], vec![(MemberKind::Method, "foo")]),
        &t,
    )
    .unwrap();
    assert_eq!(plans.len(), 1);
    assert_eq!(plans[0].priority, 4);
    assert!(plans[0].dispatch.is_none());
}

#[test]
fn extraction_collects_in_source_order() {
    let items = vec![
        func("a", vec![attr("default", "")]),
        func("b", vec![attr("override_flag", "flag = x")]),
        func("c", vec![attr("override_final", "")]),
        SourceItem::Unparsed,
    ];
    let ex = extract(&items).unwrap();
    assert_eq!(ex.overrides.len(), 1);
    assert_eq!(ex.flags.len(), 1);
    assert_eq!(ex.finals.len(), 1);
    assert_eq!(ex.overrides[0].priority, 0);
    assert_eq!(ex.flags[0].flag, cv("x"));
}
