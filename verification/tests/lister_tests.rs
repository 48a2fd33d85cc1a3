use panty::gvim::ServerProbe;
use panty::lister::{condition_match, list, parse_condition, Condition, ConditionSet};

fn sorted(set: &ConditionSet) -> Vec<String> {
    let mut v: Vec<String> = set.to_vec().iter().map(|c| format!("{:?}", c)).collect();
    v.sort();
    v
}

#[test]
fn parse_condition_reads_names_and_inversions() {
    let set = parse_condition("v,!s,panty").ok().unwrap();
    assert_eq!(set.len(), 3);
    assert!(set.contains(Condition::Visible(false)));
    assert!(set.contains(Condition::Stocked(true)));
    assert!(set.contains(Condition::Panty(false)));
    let long = parse_condition("visible,stocked,!p").ok().unwrap();
    assert!(long.contains(Condition::Visible(false)));
    assert!(long.contains(Condition::Stocked(false)));
    assert!(long.contains(Condition::Panty(true)));
}

#[test]
fn parse_condition_reports_the_first_unknown_name() {
    assert_eq!(parse_condition("visible,x,y").err().unwrap(), "Invalid condition name: x");
    assert_eq!(parse_condition("!hidden").err().unwrap(), "Invalid condition name: hidden");
    assert_eq!(parse_condition(",v").err().unwrap(), "Invalid condition name: ");
    assert_eq!(parse_condition("!").err().unwrap(), "Invalid condition name: ");
}

#[test]
fn parse_condition_of_nothing_is_empty() {
    assert_eq!(parse_condition("").ok().unwrap().len(), 0);
    let one = parse_condition("v,").ok().unwrap();
    assert_eq!(one.len(), 1);
    assert!(one.contains(Condition::Visible(false)));
}

#[test]
fn parse_condition_keeps_each_condition_once() {
    let set = parse_condition("v,visible,v").ok().unwrap();
    assert_eq!(set.len(), 1);
}

#[test]
fn joined_condition_lists_select_the_union() {
    let a = parse_condition("v,!p").ok().unwrap();
    let b = parse_condition("s").ok().unwrap();
    let joined = parse_condition("v,!p,s").ok().unwrap();
    let mut union = sorted(&a);
    union.extend(sorted(&b));
    union.sort();
    union.dedup();
    assert_eq!(sorted(&joined), union);
}

#[test]
fn condition_set_insert_tells_whether_new() {
    let mut set = ConditionSet::new();
    assert!(set.insert(Condition::Panty(true)));
    assert!(!set.insert(Condition::Panty(true)));
    assert!(set.insert(Condition::Panty(false)));
    assert_eq!(set.len(), 2);
}

#[test]
fn condition_match_needs_every_condition() {
    let set = parse_condition("v,!s").ok().unwrap();
    assert!(condition_match(&set, true, false, false));
    assert!(!condition_match(&set, false, false, false));
    assert!(!condition_match(&set, true, true, false));
    assert!(condition_match(&ConditionSet::new(), false, true, false));
}

fn probe(name: &str, window: Option<u64>, visible: bool, panty: bool, title: Option<&str>) -> ServerProbe {
    ServerProbe {
        servername: name.to_string(),
        window,
        visible,
        panty,
        title: title.map(|t| t.to_string()),
    }
}

#[test]
fn list_keeps_the_servers_that_meet_the_conditions() {
    let probes = vec![
        probe("A", Some(1), true, true, Some("a.txt")),
        probe("B", Some(2), false, true, Some("b.txt")),
        probe("C", None, true, true, Some("c.txt")),
        probe("D", Some(4), true, false, None),
        probe("E", Some(5), true, false, Some("e.txt")),
    ];
    let stocked = vec!["B".to_string()];
    let visible = parse_condition("v").ok().unwrap();
    let found = list(&stocked, &visible, &probes);
    let names: Vec<&str> = found.iter().map(|i| i.servername.as_str()).collect();
    assert_eq!(names, vec!["A", "E"]);
    assert_eq!(found[0].window, 1);
    assert_eq!(found[0].title, "a.txt");
    let stocked_only = parse_condition("s").ok().unwrap();
    let found = list(&stocked, &stocked_only, &probes);
    assert_eq!(found.len(), 1);
    assert_eq!(found[0].servername, "B");
    let not_panty = parse_condition("!p").ok().unwrap();
    let found = list(&stocked, &not_panty, &probes);
    assert_eq!(found.len(), 1);
    assert_eq!(found[0].servername, "E");
}
