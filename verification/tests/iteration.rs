use wiring_register::Register;

fn collect<'a>(register: &'a Register<str>) -> Vec<(&'a str, &'a str)> {
    register.objects.iter().collect()
}

fn declare(register: &mut Register<str>, name: &str) {
    match name {
        "a" => register.add_single("a".to_string(), "x".into()),
        "b" => {
            register.add_option("b".to_string());
            register.add_alternative("b", "w".to_string(), "unwired".into());
        },
        "c" => {
            register.add_option("c".to_string());
            register.add_alternative("c", "x".to_string(), "first".into());
            register.add_alternative("c", "y".to_string(), "second".into());
            register.wire_alternative("c", "y");
        },
        _ => panic!("no such option in this test"),
    }
}

#[test]
fn a_walk_yields_the_resolved_options_in_name_order() {
    let mut register: Register<str> = Register::new();
    declare(&mut register, "a");
    declare(&mut register, "b");
    declare(&mut register, "c");
    assert_eq!(collect(&register), vec![("a", "x"), ("c", "second")]);
}

#[test]
fn a_walk_does_not_depend_on_the_order_of_declaration() {
    let orders = [
        ["a", "b", "c"],
        ["a", "c", "b"],
        ["b", "a", "c"],
        ["b", "c", "a"],
        ["c", "a", "b"],
        ["c", "b", "a"],
    ];
    for order in orders {
        let mut register: Register<str> = Register::new();
        for name in order {
            declare(&mut register, name);
        }
        assert_eq!(collect(&register), vec![("a", "x"), ("c", "second")]);
    }
}

#[test]
fn a_walk_over_nothing_yields_nothing() {
    let mut register: Register<str> = Register::new();
    assert_eq!(collect(&register), vec![]);
    declare(&mut register, "b");
    assert_eq!(collect(&register), vec![]);
}

#[test]
fn a_walk_can_be_started_again() {
    let mut register: Register<str> = Register::new();
    declare(&mut register, "c");
    declare(&mut register, "a");
    let first = collect(&register);
    let second = collect(&register);
    assert_eq!(first, second);
    assert_eq!(first.len(), 2);
}

#[test]
fn a_finished_walk_stays_finished() {
    let mut register: Register<str> = Register::new();
    declare(&mut register, "a");
    let mut walk = register.objects.iter();
    assert_eq!(walk.next(), Some(("a", "x")));
    assert_eq!(walk.next(), None);
    assert_eq!(walk.next(), None);
}

#[test]
fn a_walk_sees_the_wiring_of_the_moment() {
    let mut register: Register<str> = Register::new();
    declare(&mut register, "b");
    declare(&mut register, "c");
    assert_eq!(collect(&register), vec![("c", "second")]);
    register.wire_alternative("b", "w");
    assert_eq!(collect(&register), vec![("b", "unwired"), ("c", "second")]);
    register.wire_alternative("c", "x");
    assert_eq!(collect(&register), vec![("b", "unwired"), ("c", "first")]);
}

#[test]
fn a_mutable_walk_lends_every_resolved_object() {
    let mut register: Register<u32> = Register::new();
    register.add_single("two".to_string(), Box::new(2));
    register.add_option("none".to_string());
    register.add_alternative("none", "idle".to_string(), Box::new(100));
    register.add_option("one".to_string());
    register.add_alternative("one", "low".to_string(), Box::new(1));
    register.add_alternative("one", "high".to_string(), Box::new(1000));
    register.wire_alternative("one", "low");
    {
        let mut names = Vec::new();
        for (name, obj) in register.objects.iter_mut() {
            names.push(name);
            *obj *= 3;
        }
        assert_eq!(names, vec!["one", "two"]);
    }
    assert_eq!(register.objects.get_object("one"), Some(&3));
    assert_eq!(register.objects.get_object("two"), Some(&6));
    register.wire_alternative("none", "idle");
    assert_eq!(register.objects.get_object("none"), Some(&100));
    register.wire_alternative("one", "high");
    assert_eq!(register.objects.get_object("one"), Some(&1000));
}

#[test]
fn a_mutable_walk_lends_all_objects_at_once() {
    let mut register: Register<u32> = Register::new();
    register.add_single("b".to_string(), Box::new(2));
    register.add_single("a".to_string(), Box::new(1));
    register.add_single("c".to_string(), Box::new(3));
    let mut walk = register.objects.iter_mut();
    let first = walk.next();
    let second = walk.next();
    let third = walk.next();
    assert!(walk.next().is_none());
    match (first, second, third) {
        (Some((a, x)), Some((b, y)), Some((c, z))) => {
            assert_eq!((a, b, c), ("a", "b", "c"));
            std::mem::swap(x, z);
            *y += *x + *z;
        },
        _ => panic!("three options resolve"),
    }
    assert_eq!(register.objects.get_object("a"), Some(&3));
    assert_eq!(register.objects.get_object("b"), Some(&6));
    assert_eq!(register.objects.get_object("c"), Some(&1));
}

#[test]
fn a_copied_walk_goes_on_from_where_the_first_stands() {
    let mut register: Register<str> = Register::new();
    declare(&mut register, "a");
    declare(&mut register, "c");
    let mut first = register.objects.iter();
    assert_eq!(first.next(), Some(("a", "x")));
    let mut second = first.clone();
    assert_eq!(first.next(), Some(("c", "second")));
    assert_eq!(first.next(), None);
    assert_eq!(second.next(), Some(("c", "second")));
    assert_eq!(second.next(), None);
}
