use entmoot::config::StalenessRule;
use entmoot::staleness::StalenessPolicy;

#[test]
fn falls_back_to_default_when_no_rule_matches() {
    let p = StalenessPolicy::new(vec![], 30);
    assert_eq!(p.bound_secs("plant/kiln1/temp"), 30);
}

#[test]
fn first_matching_rule_wins() {
    let p = StalenessPolicy::new(
        vec![
            StalenessRule { filter: "plant/kiln1/#".into(), bound_secs: 5 },
            StalenessRule { filter: "plant/#".into(), bound_secs: 60 },
        ],
        30,
    );
    assert_eq!(p.bound_secs("plant/kiln1/temp"), 5);
    assert_eq!(p.bound_secs("plant/oven2/temp"), 60);
    assert_eq!(p.bound_secs("other/x"), 30);
}

#[test]
fn zero_disables() {
    let p = StalenessPolicy::new(vec![], 0);
    assert_eq!(p.bound_secs("anything"), 0);
}
