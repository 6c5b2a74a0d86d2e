use better_ustc::activity::{Attr, SecondClass};
use better_ustc::filter::SCFilter;
use better_ustc::site::generate_url;
use better_ustc::status::Status;
use better_ustc::tags::{Label, Module};
use better_ustc::time::TimePeriod;

fn text(s: &str) -> Attr {
    Attr::Text(s.to_string())
}

fn sample_activity() -> SecondClass {
    SecondClass {
        id: "1".into(),
        name: "艺术赏析课".into(),
        status_code: Status::Applying.code(),
        apply_num: Some(5),
        apply_limit: Some(20),
        boolean_registration: Some(0),
        need_sign_info_str: Some("0".into()),
        conceive: None,
        base_content: None,
        item_category: Some("0".into()),
        create_time_str: Some("2024-01-01 00:00:00".into()),
        apply_start: Some("2024-02-01 00:00:00".into()),
        apply_end: Some("2024-02-05 00:00:00".into()),
        start_time: Some("2024-02-10 18:00:00".into()),
        end_time: Some("2024-02-10 20:00:00".into()),
        tel: None,
        raw: vec![
            ("module".to_string(), text("m")),
            ("module_dictText".to_string(), text("美")),
            ("businessDeptId".to_string(), text("dept-1")),
            ("businessDeptName".to_string(), text("艺术中心")),
            ("itemLable".to_string(), text("lab1,lab2")),
            (
                "lableNames".to_string(),
                Attr::List(vec![Some("社团".to_string()), Some("演出".to_string())]),
            ),
        ],
    }
}

fn at(s: &str) -> i64 {
    TimePeriod::parse(s).unwrap()
}

#[test]
fn time_period_overlap_and_contain() {
    let a = TimePeriod::new(at("2024-03-01 10:00:00"), at("2024-03-01 12:00:00")).unwrap();
    let b = TimePeriod::new(at("2024-03-01 11:00:00"), at("2024-03-01 11:30:00")).unwrap();

    assert!(a.is_overlap(&b));
    assert!(a.is_contain(&b));

    let c = TimePeriod::new(at("2024-03-01 12:30:00"), at("2024-03-01 13:00:00")).unwrap();

    assert!(!a.is_overlap(&c));
    assert!(!a.is_contain(&c));
}

#[test]
fn scfilter_check_and_applyable() {
    let activity = sample_activity();

    let filter = SCFilter::new().name("艺术赏析课");
    assert!(filter.check(&activity, false));

    let filter = SCFilter {
        fuzzy_name: true,
        ..SCFilter::new()
    }
    .module(Module {
        value: "m".into(),
        text: "美".into(),
    })
    .add_label(Label {
        id: "lab1".into(),
        name: "社团".into(),
    });
    assert!(filter.check(&activity, false));

    let time_filter = TimePeriod::new(at("2024-02-10 17:00:00"), at("2024-02-10 21:00:00")).unwrap();
    let filter = SCFilter {
        fuzzy_name: true,
        strict_time: true,
        time_period: Some(time_filter.clone()),
        ..SCFilter::default()
    };
    let ht = activity.hold_time().expect("hold_time should parse");
    assert!(time_filter.is_contain(&ht));
    assert!(filter.check(&activity, true));

    assert!(activity.applyable());

    let mut closed = activity.clone();
    closed.status_code = Status::ApplyEnded.code();
    assert!(!closed.applyable());

    let mut already = activity.clone();
    already.boolean_registration = Some(1);
    assert!(!already.applyable());
}

#[test]
fn url_generation() {
    let url = generate_url("young", "item/scItem/enrolmentList").unwrap();
    assert!(url.starts_with("https://young.ustc.edu.cn/item/scItem/enrolmentList"));
}
