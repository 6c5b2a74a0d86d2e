use better_ustc::activity::{Attr, SecondClass};
use better_ustc::filter::SCFilter;
use better_ustc::paging::Pager;
use better_ustc::participant::{SignInfo, User};
use better_ustc::recommend::Recommender;
use better_ustc::registration::{split_by_phase, ApplyPlan, SignPayload, SubmitOutcome};
use better_ustc::retrieval::Retrieval;
use better_ustc::site::generate_url;
use better_ustc::status::Status;
use better_ustc::tags::{Department, Label};
use better_ustc::text::{join_commas, normalize_spaces, same_text, split_commas};
use better_ustc::time::{TimeError, TimePeriod};

fn text(s: &str) -> Attr {
    Attr::Text(s.to_string())
}

fn activity(id: &str, name: &str, code: i32) -> SecondClass {
    SecondClass {
        id: id.into(),
        name: name.into(),
        status_code: code,
        apply_num: Some(1),
        apply_limit: Some(10),
        boolean_registration: Some(0),
        need_sign_info_str: Some("0".into()),
        conceive: None,
        base_content: None,
        item_category: Some("0".into()),
        create_time_str: None,
        apply_start: None,
        apply_end: None,
        start_time: Some("2024-05-01 10:00:00".into()),
        end_time: Some("2024-05-01 12:00:00".into()),
        tel: None,
        raw: vec![],
    }
}

fn at(s: &str) -> i64 {
    TimePeriod::parse(s).unwrap()
}

fn ids(v: &[SecondClass]) -> Vec<String> {
    v.iter().map(|c| c.id.clone()).collect()
}

#[test]
fn period_relations_on_values() {
    let a = TimePeriod::new(10, 20).unwrap();
    let b = TimePeriod::new(12, 15).unwrap();
    let c = TimePeriod::new(18, 30).unwrap();
    assert!(a.is_contain(&b) && a.is_overlap(&b));
    assert!(a.is_overlap(&c) && c.is_overlap(&a));
    assert!(!a.is_contain(&c));
    assert!(a.is_contain(&a) && a.is_overlap(&a));
}

#[test]
fn period_construction() {
    assert_eq!(TimePeriod::new(5, 3), Err(TimeError::StartAfterEnd));
    let p = TimePeriod::new(3, 5).unwrap();
    assert_eq!((p.start, p.end), (3, 5));
    let q = TimePeriod::new(7, 7).unwrap();
    assert_eq!((q.start, q.end), (7, 7));
}

#[test]
fn timestamp_parsing() {
    assert_eq!(at("1970-01-01 00:01:40"), 100);
    assert_eq!(at("2024-03-01 11:00:00") - at("2024-03-01 10:00:00"), 3600);
    assert_eq!(TimePeriod::parse("2024/03/01 10:00"), Err(TimeError::BadTimestamp));
    assert_eq!(TimePeriod::parse(""), Err(TimeError::BadTimestamp));
    let p = TimePeriod::parse_period("2024-03-01 10:00:00", None).unwrap();
    assert_eq!(p.start, p.end);
    assert_eq!(
        TimePeriod::parse_period("2024-03-01 10:00:00", Some("2024-03-01 09:00:00")),
        Err(TimeError::StartAfterEnd)
    );
    assert_eq!(
        TimePeriod::parse_period("2024-03-01 10:00:00", Some("soon")),
        Err(TimeError::BadTimestamp)
    );
}

#[test]
fn status_round_trip() {
    for code in [26, 28, 30, 31, 32, 33, 34, 35, 40, -3, -1, 0, 27, 99, i32::MIN, i32::MAX] {
        let s = Status::from(code);
        assert_eq!(Status::from(s.code()), s);
    }
    assert_eq!(Status::from(26), Status::Applying);
    assert_eq!(Status::from(-3), Status::AbnormalFinished);
    assert_eq!(Status::from(12345), Status::Unknown);
    assert_eq!(Status::Unknown.code(), -1);
    assert_eq!(Status::Applying.text(), "报名中");
    assert_eq!(Status::Finished.text(), "结项");
}

#[test]
fn applyable_conditions() {
    let open = activity("a", "x", 26);
    assert!(open.applyable());
    let ended = activity("b", "x", 28);
    assert!(!ended.applyable());
    let mut applied = activity("c", "x", 26);
    applied.boolean_registration = Some(1);
    assert!(applied.applied());
    assert!(!applied.applyable());
    let mut full = activity("d", "x", 26);
    full.apply_num = Some(10);
    assert!(!full.applyable());
    let mut no_limit = activity("e", "x", 26);
    no_limit.apply_limit = None;
    no_limit.apply_num = None;
    assert!(!no_limit.applyable());
}

#[test]
fn flags_and_times() {
    let mut a = activity("a", "x", 26);
    assert!(!a.is_series() && !a.need_sign_info());
    a.item_category = Some("1".into());
    a.need_sign_info_str = Some("1".into());
    assert!(a.is_series() && a.need_sign_info());
    assert_eq!(a.hold_time().unwrap(), TimePeriod::new(at("2024-05-01 10:00:00"), at("2024-05-01 12:00:00")).unwrap());
    assert_eq!(a.apply_time(), Err(TimeError::BadTimestamp));
    assert_eq!(a.create_time(), Err(TimeError::BadTimestamp));
    a.end_time = None;
    let p = a.hold_time().unwrap();
    assert_eq!(p.start, p.end);
}

#[test]
fn attribute_projections() {
    let mut a = activity("a", "x", 26);
    assert!(a.module().is_none() && a.department().is_none() && a.labels().is_empty());
    a.raw = vec![
        ("module".into(), text("m")),
        ("module_dictText".into(), text("美")),
        ("businessDeptId".into(), text("d1")),
        ("bussinessDeptName".into(), text("third")),
        ("businessDeptName".into(), text("second")),
        ("itemLable".into(), text("l1,l2,l3")),
        ("lableNames".into(), Attr::List(vec![Some("one".into()), None])),
        ("module".into(), text("shadowed")),
    ];
    let m = a.module().unwrap();
    assert_eq!((m.value.as_str(), m.text.as_str()), ("m", "美"));
    let d = a.department().unwrap();
    assert_eq!((d.id.as_str(), d.name.as_str(), d.level), ("d1", "second", -1));
    let labels = a.labels();
    assert_eq!(labels.len(), 1);
    assert_eq!((labels[0].id.as_str(), labels[0].name.as_str()), ("l1", "one"));
    a.raw[0].1 = Attr::Other;
    assert!(a.module().is_none());
}

#[test]
fn filter_name_matching() {
    let a = activity("a", "Python Workshop", 26);
    assert!(!SCFilter::new().name("Java Workshop").check(&a, false));
    assert!(SCFilter::new().name("Java Workshop").check(&a, true));
    let fuzzy = SCFilter { fuzzy_name: true, ..SCFilter::new() }.name("python");
    assert!(fuzzy.check(&a, false));
    let fuzzy_miss = SCFilter { fuzzy_name: true, ..SCFilter::new() }.name("rust");
    assert!(!fuzzy_miss.check(&a, false));
}

#[test]
fn filter_label_matching() {
    let mut a = activity("a", "n", 26);
    a.raw = vec![
        ("itemLable".into(), text("l1,l2")),
        ("lableNames".into(), Attr::List(vec![Some("one".into()), Some("two".into())])),
    ];
    let base = SCFilter::new().name("n");
    assert!(base.check(&a, false));
    let hit = SCFilter::new().name("n").add_label(Label { id: "zz".into(), name: "z".into() }).add_label(Label {
        id: "l2".into(),
        name: "two".into(),
    });
    assert!(hit.check(&a, false));
    let miss = SCFilter::new().name("n").add_label(Label { id: "zz".into(), name: "z".into() });
    assert!(!miss.check(&a, false));
}

#[test]
fn filter_time_window() {
    let a = activity("a", "n", 26);
    let wide = TimePeriod::new(at("2024-05-01 09:00:00"), at("2024-05-01 13:00:00")).unwrap();
    let part = TimePeriod::new(at("2024-05-01 11:00:00"), at("2024-05-01 13:00:00")).unwrap();
    let away = TimePeriod::new(at("2024-06-01 11:00:00"), at("2024-06-01 13:00:00")).unwrap();
    assert!(SCFilter::new().time_period(wide).strict_time(true).check(&a, true));
    assert!(!SCFilter::new().time_period(part).strict_time(true).check(&a, true));
    assert!(SCFilter::new().time_period(part).check(&a, true));
    assert!(!SCFilter::new().time_period(away).check(&a, true));
    let mut no_time = activity("b", "n", 26);
    no_time.start_time = None;
    assert!(SCFilter::new().time_period(away).check(&no_time, true));
}

#[test]
fn filter_params() {
    assert!(SCFilter::new().to_params().is_empty());
    let f = SCFilter::new()
        .name("x")
        .department(Department { id: "d".into(), name: "D".into(), children: vec![], level: 0 })
        .add_label(Label { id: "a".into(), name: "A".into() })
        .add_label(Label { id: "b".into(), name: "B".into() });
    let p = f.to_params();
    let pairs: Vec<(&str, &str)> = p.iter().map(|(k, v)| (k.as_str(), v.as_str())).collect();
    assert_eq!(pairs, vec![("itemName", "x"), ("businessDeptId", "d"), ("itemLable", "a,b")]);
}

fn dept(id: &str, name: &str, level: i32, children: Vec<Department>) -> Department {
    Department { id: id.into(), name: name.into(), children, level }
}

#[test]
fn department_search() {
    let tree = dept(
        "0",
        "学校",
        0,
        vec![
            dept("1", "物理学院", 1, vec![dept("11", "物理系", 2, vec![])]),
            dept("2", "化学学院", 1, vec![]),
        ],
    );
    let found: Vec<&str> = tree.find("学院", -1).iter().map(|d| d.id.as_str()).collect();
    assert_eq!(found, vec!["1", "2"]);
    let all: Vec<&str> = tree.find("", -1).iter().map(|d| d.id.as_str()).collect();
    assert_eq!(all, vec!["0", "1", "11", "2"]);
    let shallow: Vec<&str> = tree.find("", 1).iter().map(|d| d.id.as_str()).collect();
    assert_eq!(shallow, vec!["0", "1", "2"]);
    assert_eq!(tree.find_one("物理", -1).unwrap().id, "1");
    assert!(tree.find_one("生物", -1).is_none());
}

#[test]
fn text_helpers() {
    let p: Vec<String> = split_commas("a,,b");
    assert_eq!(p, vec!["a", "", "b"]);
    assert_eq!(split_commas(""), vec![""]);
    assert_eq!(join_commas(&vec!["x".to_string(), "y".to_string()]), "x,y");
    assert!(same_text("abc", "abc") && !same_text("abc", "abd"));
    assert_eq!(normalize_spaces("a\u{A0}b"), "a b");
    assert_eq!(Recommender::strip_html("<p>hi <b>there</b></p>"), "hi there");
}

#[test]
fn url_sites() {
    assert_eq!(generate_url("id", "cas/login").unwrap(), "https://id.ustc.edu.cn/cas/login");
    assert_eq!(generate_url("edu_system", "x").unwrap(), "https://jw.ustc.edu.cn/x");
}

fn series(id: &str) -> SecondClass {
    let mut s = activity(id, "series", 26);
    s.item_category = Some("1".into());
    s
}

/// Drives a retrieval the way the service does, with children served from memory.
fn run_find(
    records: Vec<SecondClass>,
    children: &dyn Fn(&str) -> Vec<SecondClass>,
    include_ended: bool,
    expand: bool,
    max: i32,
) -> Vec<SecondClass> {
    let mut r = Retrieval::new(SCFilter::new(), include_ended, expand, max);
    if !r.wants_records() {
        return r.into_results();
    }
    r.take_records(records);
    while let Some(id) = r.next_series() {
        r.add_children(children(&id));
    }
    r.into_results()
}

#[test]
fn series_expansion() {
    let kids = |id: &str| {
        assert_eq!(id, "p");
        vec![activity("open", "c1", 26), activity("closed", "c2", 28)]
    };
    let open = run_find(vec![series("p")], &kids, false, true, -1);
    assert_eq!(ids(&open), vec!["open"]);
    let ended = run_find(vec![series("p")], &kids, true, true, -1);
    assert_eq!(ids(&ended), vec!["closed"]);
    let kept = run_find(vec![series("p")], &kids, false, false, -1);
    assert_eq!(ids(&kept), vec!["p"]);
}

#[test]
fn max_results_capping() {
    let none = |_: &str| -> Vec<SecondClass> { panic!("no series here") };
    let recs = || vec![activity("a", "x", 26), activity("b", "x", 26), activity("c", "x", 26)];
    assert_eq!(ids(&run_find(recs(), &none, false, true, 2)), vec!["a", "b"]);
    assert_eq!(ids(&run_find(recs(), &none, false, true, -1)), vec!["a", "b", "c"]);
    assert!(run_find(recs(), &none, false, true, 0).is_empty());
    let kids = |_: &str| vec![activity("k1", "x", 26), activity("k2", "x", 26)];
    let mixed = vec![activity("a", "x", 26), series("s"), activity("b", "x", 26)];
    assert_eq!(ids(&run_find(mixed, &kids, false, true, 2)), vec!["a", "k1"]);
}

#[test]
fn retrieval_endpoints() {
    assert_eq!(Retrieval::new(SCFilter::new(), true, false, -1).endpoint(), "item/scItem/endList");
    assert_eq!(Retrieval::new(SCFilter::new(), false, false, -1).endpoint(), "item/scItem/enrolmentList");
}

#[test]
fn paging_decisions() {
    let mut p = Pager::new(3, 2);
    let mut out: Vec<i32> = Vec::new();
    assert_eq!(p.next_page(), Some(1));
    p.take_page(vec![1, 2], 10, &mut out);
    assert_eq!(p.next_page(), Some(2));
    p.take_page(vec![3, 4], 10, &mut out);
    assert_eq!(out, vec![1, 2, 3]);
    assert_eq!(p.next_page(), None);
    let mut q = Pager::new(-1, 20);
    let mut all: Vec<i32> = Vec::new();
    q.take_page(vec![1; 20], 25, &mut all);
    assert_eq!(q.next_page(), Some(2));
    q.take_page(vec![2; 5], 25, &mut all);
    assert_eq!(all.len(), 25);
    assert_eq!(q.next_page(), None);
    assert_eq!(Pager::new(0, 20).next_page(), None);
}

#[test]
fn conflict_retry_flow() {
    let mut me = activity("me", "x", 26);
    me.start_time = Some("2024-05-01 11:00:00".into());
    me.end_time = Some("2024-05-01 13:00:00".into());
    let mut far = activity("far", "x", 26);
    far.start_time = Some("2024-07-01 11:00:00".into());
    far.end_time = Some("2024-07-01 13:00:00".into());
    let participated = vec![activity("near", "x", 26), far];

    let mut cancels: Vec<String> = Vec::new();
    let mut submits = 0;
    let mut submit = || {
        submits += 1;
        if submits == 1 { Err("报名失败：时间冲突".to_string()) } else { Ok(true) }
    };
    let first = SecondClass::after_submit(submit(), true);
    assert_eq!(first, SubmitOutcome::ResolveConflict);
    for i in me.conflicting(&participated).unwrap() {
        cancels.push(participated[i].id.clone());
    }
    let second = SecondClass::after_submit(submit(), false);
    assert_eq!(second, SubmitOutcome::Done(true));
    assert_eq!(cancels, vec!["near"]);
    assert_eq!(submits, 2);

    let again = SecondClass::after_submit(Err("时间冲突".into()), false);
    assert_eq!(again, SubmitOutcome::Fail("时间冲突".into()));
    let other = SecondClass::after_submit(Err("名额已满".into()), true);
    assert_eq!(other, SubmitOutcome::Fail("名额已满".into()));
}

#[test]
fn conflict_needs_own_time() {
    let mut me = activity("me", "x", 26);
    me.start_time = Some("bad".into());
    assert_eq!(me.conflicting(&vec![]).unwrap_err(), TimeError::BadTimestamp);
}

#[test]
fn apply_plans() {
    let closed = activity("c", "x", 28);
    assert!(matches!(closed.apply_plan(false, None), ApplyPlan::Skip));
    assert!(matches!(closed.apply_plan(true, None), ApplyPlan::Submit(SignPayload::Empty)));
    let mut needs = activity("n", "x", 26);
    needs.need_sign_info_str = Some("1".into());
    assert!(matches!(needs.apply_plan(false, None), ApplyPlan::Submit(SignPayload::OwnProfile)));
    let given = SignInfo {
        college: "c".into(),
        classes: "k".into(),
        phone: "p".into(),
        email: String::new(),
        remarks: String::new(),
    };
    match needs.apply_plan(false, Some(given)) {
        ApplyPlan::Submit(SignPayload::Given(s)) => assert_eq!(s.phone, "p"),
        _ => panic!("expected the given details"),
    }
    assert_eq!(needs.apply_path(), "mobile/item/enter/n");
    assert_eq!(needs.cancel_path(), "mobile/item/cancellRegistration/n");
}

fn user() -> User {
    User {
        id: "PB1".into(),
        name: "n".into(),
        gender: "g".into(),
        avatar: None,
        grade: "2023".into(),
        college: None,
        classes: "c1".into(),
        scientific_value: 0,
        birthday: None,
        phone: None,
    }
}

#[test]
fn sign_info_and_phone() {
    let info = SignInfo::from_profile(user(), Some("123".into()));
    assert_eq!((info.college.as_str(), info.classes.as_str(), info.phone.as_str()), ("", "c1", "123"));
    assert!(info.email.is_empty() && info.remarks.is_empty());
    let mut u = user();
    assert_eq!(u.settle_phone(Ok(Some("9".into()))), Ok(Some("9".into())));
    assert_eq!(u.phone.as_deref(), Some("9"));
    assert_eq!(u.settle_phone(Err("验证失败".into())), Ok(None));
    assert_eq!(u.phone, None);
    assert_eq!(u.settle_phone(Err("boom".into())), Err("boom".to_string()));
}

fn with_dept(mut a: SecondClass, dept: &str, module: &str) -> SecondClass {
    a.raw = vec![
        ("businessDeptId".into(), text(dept)),
        ("businessDeptName".into(), text(dept)),
        ("module".into(), text(module)),
        ("module_dictText".into(), text(module)),
    ];
    a
}

#[test]
fn recommend_cold_start() {
    let r = Recommender::new();
    let cands = vec![activity("a", "x", 26), activity("b", "y", 26), activity("c", "z", 26)];
    assert_eq!(ids(&r.recommend(&vec![], cands.clone(), 2)), vec!["a", "b"]);
    assert_eq!(ids(&r.recommend(&vec![], cands, 10)), vec!["a", "b", "c"]);
}

#[test]
fn recommend_excludes_history_and_ranks() {
    let r = Recommender::new();
    let history = vec![with_dept(activity("h1", "古琴音乐会", 40), "琴社", "m"), with_dept(activity("b", "篮球比赛", 40), "体育部", "t")];
    let cands = vec![
        with_dept(activity("a", "数学讲座", 26), "数学院", "z"),
        with_dept(activity("b", "篮球比赛", 26), "体育部", "t"),
        with_dept(activity("c", "古琴音乐会", 26), "琴社", "m"),
    ];
    let out = r.recommend(&history, cands, 10);
    assert_eq!(ids(&out), vec!["c", "a"]);
}

#[test]
fn token_extraction() {
    let r = Recommender::new();
    let mut a = activity("a", "古琴音乐会", 26);
    a.conceive = Some("<b>演出</b>".into());
    let words = r.extract_tokens(&a);
    assert!(!words.is_empty());
    assert!(words.iter().all(|w| w.chars().count() > 1));
    assert!(words.iter().all(|w| !w.contains('<') && !w.contains(' ')));
    assert!(words.iter().any(|w| w == "演出"));
    assert!(words.len() >= 2);
}

#[test]
fn registrations_by_phase() {
    let all = vec![activity("a", "x", 26), activity("b", "x", 40), activity("c", "x", 28), activity("d", "x", 34)];
    let (open, done) = split_by_phase(all);
    assert_eq!(ids(&open), vec!["a", "c"]);
    assert_eq!(ids(&done), vec!["b", "d"]);
}

#[test]
fn score_values() {
    let r = Recommender::new();
    let history = vec![activity("h", "古琴", 40)];
    assert_eq!(r.score(&activity("c", "古琴", 26), &history), 5_000_000);
    assert_eq!(r.score(&activity("d", "篮球", 26), &history), 0);
    assert_eq!(r.score(&activity("e", "古琴", 26), &vec![]), 0);
    let tagged = vec![with_dept(activity("h1", "x", 40), "A", "m"), with_dept(activity("h2", "y", 40), "A", "n")];
    assert_eq!(r.score(&with_dept(activity("c", "z", 26), "A", "m"), &tagged), 2 * 500_000 + 200_000);
}

#[test]
fn recommend_by_text() {
    let r = Recommender::new();
    let history = vec![activity("h", "古琴音乐会", 40)];
    let cands = vec![activity("a", "篮球比赛", 26), activity("b", "古琴讲座", 26), activity("c", "足球比赛", 26)];
    assert_eq!(ids(&r.recommend(&history, cands, 2)), vec!["b", "a"]);
}
