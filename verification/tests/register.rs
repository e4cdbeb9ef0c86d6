use wiring_register::Register;

fn sample() -> Register<u32> {
    let mut register: Register<u32> = Register::new();
    register.add_option("speed".to_string());
    register.add_alternative("speed", "slow".to_string(), Box::new(10));
    register.add_alternative("speed", "fast".to_string(), Box::new(90));
    register.add_single("answer".to_string(), Box::new(42));
    register.add_option("empty".to_string());
    register
}

#[test]
fn a_new_register_holds_nothing() {
    let register: Register<u32> = Register::new();
    assert!(!register.objects.contains_option("speed"));
    assert!(register.objects.get_object("speed").is_none());
    assert!(register.objects.iter().next().is_none());
}

#[test]
fn a_declared_name_is_taken() {
    let register = sample();
    assert!(register.objects.contains_option("speed"));
    assert!(register.objects.contains_option("answer"));
    assert!(register.objects.contains_option("empty"));
    assert!(!register.objects.contains_option("spee"));
    assert!(!register.objects.contains_option("speeds"));
    assert!(!register.objects.contains_option("Speed"));
}

#[test]
fn an_option_knows_its_kind() {
    let register = sample();
    assert!(register.objects.is_multi("speed"));
    assert!(register.objects.is_multi("empty"));
    assert!(!register.objects.is_multi("answer"));
    assert!(!register.objects.is_multi("absent"));
}

#[test]
fn an_added_alternative_is_taken() {
    let register = sample();
    assert!(register.objects.has_alternative("speed", "slow"));
    assert!(register.objects.has_alternative("speed", "fast"));
    assert!(!register.objects.has_alternative("speed", "medium"));
    assert!(!register.objects.has_alternative("empty", "slow"));
    assert!(!register.objects.has_alternative("answer", "slow"));
    assert!(!register.objects.has_alternative("absent", "slow"));
}

#[test]
fn a_declared_option_resolves_to_nothing_until_wired() {
    let mut register = sample();
    assert!(register.objects.get_object("speed").is_none());
    assert!(register.objects.get_object_mut("speed").is_none());
    assert!(register.objects.get_object("empty").is_none());
    register.wire_alternative("speed", "fast");
    assert_eq!(register.objects.get_object("speed"), Some(&90));
    assert!(register.objects.get_object("empty").is_none());
}

#[test]
fn a_single_option_resolves_at_once() {
    let register = sample();
    assert_eq!(register.objects.get_object("answer"), Some(&42));
}

#[test]
fn an_absent_name_resolves_to_nothing() {
    let mut register = sample();
    assert!(register.objects.get_object("absent").is_none());
    assert!(register.objects.get_object_mut("absent").is_none());
}

#[test]
fn rewiring_is_always_allowed() {
    let mut register = sample();
    register.wire_alternative("speed", "slow");
    assert_eq!(register.objects.get_object("speed"), Some(&10));
    register.wire_alternative("speed", "fast");
    assert_eq!(register.objects.get_object("speed"), Some(&90));
    register.wire_alternative("speed", "fast");
    assert_eq!(register.objects.get_object("speed"), Some(&90));
    register.wire_alternative("speed", "slow");
    assert_eq!(register.objects.get_object("speed"), Some(&10));
}

#[test]
fn adding_an_alternative_leaves_the_wiring_alone() {
    let mut register = sample();
    register.wire_alternative("speed", "slow");
    register.add_alternative("speed", "medium".to_string(), Box::new(50));
    assert_eq!(register.objects.get_object("speed"), Some(&10));
    register.wire_alternative("speed", "medium");
    assert_eq!(register.objects.get_object("speed"), Some(&50));
}

#[test]
fn options_do_not_disturb_each_other() {
    let mut register = sample();
    register.add_option("colour".to_string());
    register.add_alternative("colour", "slow".to_string(), Box::new(1));
    register.wire_alternative("colour", "slow");
    assert_eq!(register.objects.get_object("colour"), Some(&1));
    assert!(register.objects.get_object("speed").is_none());
    assert_eq!(register.objects.get_object("answer"), Some(&42));
    register.wire_alternative("speed", "slow");
    assert_eq!(register.objects.get_object("speed"), Some(&10));
    assert_eq!(register.objects.get_object("colour"), Some(&1));
}

#[test]
fn objects_can_be_changed_through_the_map() {
    let mut register = sample();
    register.wire_alternative("speed", "fast");
    match register.objects.get_object_mut("speed") {
        Some(speed) => *speed += 5,
        None => panic!("an alternative is wired"),
    }
    match register.objects.get_object_mut("answer") {
        Some(answer) => *answer = 43,
        None => panic!("a single option is always wired"),
    }
    assert_eq!(register.objects.get_object("speed"), Some(&95));
    assert_eq!(register.objects.get_object("answer"), Some(&43));
    register.wire_alternative("speed", "slow");
    assert_eq!(register.objects.get_object("speed"), Some(&10));
    register.wire_alternative("speed", "fast");
    assert_eq!(register.objects.get_object("speed"), Some(&95));
}

#[test]
fn indexed_access_gives_the_wired_object() {
    let mut register = sample();
    register.wire_alternative("speed", "slow");
    assert_eq!(register.objects["speed"], 10);
    assert_eq!(register.objects["answer"], 42);
    *register.objects.index_mut("speed") = 11;
    assert_eq!(register.objects["speed"], 11);
    assert_eq!(register.objects["answer"], 42);
}

#[test]
fn many_options_are_all_found() {
    let mut register: Register<u32> = Register::new();
    let names = [
        "m", "c", "x", "a", "q", "e", "z", "b", "o", "k", "y", "d", "w", "f", "s", "h", "u", "j",
        "n", "l",
    ];
    for (i, name) in names.iter().enumerate() {
        if i % 2 == 0 {
            register.add_single(name.to_string(), Box::new(i as u32));
        } else {
            register.add_option(name.to_string());
            register.add_alternative(name, "only".to_string(), Box::new(i as u32));
            register.wire_alternative(name, "only");
        }
    }
    for (i, name) in names.iter().enumerate() {
        assert!(register.objects.contains_option(name));
        assert_eq!(register.objects.get_object(name), Some(&(i as u32)));
    }
    assert!(!register.objects.contains_option("g"));
    assert!(!register.objects.contains_option("mm"));
    assert!(!register.objects.contains_option(""));
}
