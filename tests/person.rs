use reflib::{Person, PersonGraph, PersonRef};

#[test]
fn new_person() {
    let person = Person::new(18, String::from("Alex"));
    assert_eq!(person.to_string(), String::from("Person <Alex, 18>"));
}

#[test]
fn display_of_ages_at_the_edges() {
    assert_eq!(Person::new(0, String::from("Zed")).to_string(), "Person <Zed, 0>");
    assert_eq!(Person::new(9, String::from("Nia")).to_string(), "Person <Nia, 9>");
    assert_eq!(Person::new(10, String::from("Ten")).to_string(), "Person <Ten, 10>");
    assert_eq!(Person::new(100, String::from("Old")).to_string(), "Person <Old, 100>");
    assert_eq!(Person::new(255, String::from("Max")).to_string(), "Person <Max, 255>");
    assert_eq!(Person::new(40, String::new()).to_string(), "Person <, 40>");
}

#[test]
fn display_ignores_relations() {
    let mut graph = PersonGraph::new();
    let kid = graph.insert(Person::new(3, String::from("Kid")));
    let mut p = Person::new(31, String::from("Ada"));
    p.add_child(kid);
    p.add_parent(kid);
    assert_eq!(p.to_string(), "Person <Ada, 31>");
}

#[test]
fn no_children_resolve_to_empty() {
    let graph = PersonGraph::new();
    let p = Person::new(50, String::from("Solo"));
    assert!(p.get_children(&graph).is_empty());
}

#[test]
fn add_child_appends_one_resolved_entry() {
    let mut graph = PersonGraph::new();
    let a = graph.insert(Person::new(7, String::from("A")));
    let mut parent = Person::new(30, String::from("P"));
    assert_eq!(parent.get_children(&graph).len(), 0);
    parent.add_child(a);
    let kids = parent.get_children(&graph);
    assert_eq!(kids.len(), 1);
    assert_eq!(kids[0].to_string(), "Person <A, 7>");
}

#[test]
fn children_come_back_in_order_added() {
    let mut graph = PersonGraph::new();
    let a = graph.insert(Person::new(1, String::from("A")));
    let b = graph.insert(Person::new(2, String::from("B")));
    let c = graph.insert(Person::new(3, String::from("C")));
    let mut parent = Person::new(30, String::from("P"));
    parent.add_child(c);
    parent.add_child(a);
    parent.add_child(b);
    let names: Vec<String> = parent.get_children(&graph).iter().map(|p| p.to_string()).collect();
    assert_eq!(names, vec!["Person <C, 3>", "Person <A, 1>", "Person <B, 2>"]);
}

#[test]
fn same_child_twice_is_kept_twice() {
    let mut graph = PersonGraph::new();
    let a = graph.insert(Person::new(1, String::from("A")));
    let mut parent = Person::new(30, String::from("P"));
    parent.add_child(a);
    parent.add_child(a);
    assert_eq!(parent.get_children(&graph).len(), 2);
}

#[test]
fn released_child_is_skipped() {
    let mut graph = PersonGraph::new();
    let a = graph.insert(Person::new(1, String::from("A")));
    let b = graph.insert(Person::new(2, String::from("B")));
    let c = graph.insert(Person::new(3, String::from("C")));
    let mut parent = Person::new(30, String::from("P"));
    parent.add_child(a);
    parent.add_child(b);
    parent.add_child(c);
    assert_eq!(parent.get_children(&graph).len(), 3);
    assert!(graph.release(b));
    let names: Vec<String> = parent.get_children(&graph).iter().map(|p| p.to_string()).collect();
    assert_eq!(names, vec!["Person <A, 1>", "Person <C, 3>"]);
}

#[test]
fn child_with_two_holders_survives_one_release() {
    let mut graph = PersonGraph::new();
    let a = graph.insert(Person::new(1, String::from("A")));
    assert_eq!(graph.holder_count(a), 1);
    assert!(graph.hold(a));
    assert_eq!(graph.holder_count(a), 2);
    let mut parent = Person::new(30, String::from("P"));
    parent.add_child(a);
    assert!(graph.release(a));
    assert!(graph.contains(a));
    assert_eq!(parent.get_children(&graph).len(), 1);
    assert!(graph.release(a));
    assert!(!graph.contains(a));
    assert_eq!(graph.holder_count(a), 0);
    assert!(parent.get_children(&graph).is_empty());
}

#[test]
fn dead_or_unknown_references_change_nothing() {
    let mut graph = PersonGraph::new();
    let a = graph.insert(Person::new(1, String::from("A")));
    let unknown = PersonRef { id: 99 };
    assert!(!graph.contains(unknown));
    assert!(graph.resolve(unknown).is_none());
    assert!(!graph.hold(unknown));
    assert!(!graph.release(unknown));
    assert!(!graph.link_child(unknown, a));
    assert!(!graph.link_parent(unknown, a));
    assert!(graph.release(a));
    assert!(!graph.release(a));
    assert!(!graph.hold(a));
    assert!(graph.resolve(a).is_none());
}

#[test]
fn released_place_is_not_reused() {
    let mut graph = PersonGraph::new();
    let a = graph.insert(Person::new(1, String::from("A")));
    assert!(graph.release(a));
    let b = graph.insert(Person::new(2, String::from("B")));
    assert_ne!(a, b);
    assert!(graph.resolve(a).is_none());
    assert_eq!(graph.resolve(b).unwrap().to_string(), "Person <B, 2>");
}

#[test]
fn clone_keeps_relations_to_same_people() {
    let mut graph = PersonGraph::new();
    let a = graph.insert(Person::new(1, String::from("A")));
    let mut parent = Person::new(30, String::from("P"));
    parent.add_child(a);
    let copy = parent.clone();
    assert_eq!(copy.to_string(), "Person <P, 30>");
    assert_eq!(copy.get_children(&graph)[0].to_string(), "Person <A, 1>");
    assert!(graph.release(a));
    assert!(copy.get_children(&graph).is_empty());
}

#[test]
fn andrew_and_matt() {
    let mut graph = PersonGraph::new();
    let andrew = graph.insert(Person::new(40, String::from("Andrew")));
    let matt = graph.insert(Person::new(18, String::from("Matt")));
    assert!(graph.link_child(andrew, matt));
    assert!(graph.link_parent(matt, andrew));
    let a = graph.resolve(andrew).unwrap();
    assert_eq!(a.to_string(), "Person <Andrew, 40>");
    let kids = a.get_children(&graph);
    assert_eq!(kids.len(), 1);
    assert_eq!(kids[0].to_string(), graph.resolve(matt).unwrap().to_string());
    assert_eq!(kids[0].to_string(), "Person <Matt, 18>");
}

#[test]
fn andrew_after_matt_is_released() {
    let mut graph = PersonGraph::new();
    let andrew = graph.insert(Person::new(40, String::from("Andrew")));
    let matt = graph.insert(Person::new(18, String::from("Matt")));
    assert!(graph.link_child(andrew, matt));
    assert!(graph.link_parent(matt, andrew));
    assert!(graph.release(matt));
    assert!(graph.resolve(andrew).unwrap().get_children(&graph).is_empty());
}
