use std::collections::BTreeMap;

use wiring_register::Register;

/// What the register is expected to hold for one option.
enum Expected {
    Single(u32),
    Multi { wired: Option<usize>, alternatives: Vec<(String, u32)> },
}

impl Expected {
    fn resolved(&self) -> Option<u32> {
        match self {
            Expected::Single(value) => Some(*value),
            Expected::Multi { wired, alternatives } => wired.map(|at| alternatives[at].1),
        }
    }
}

struct Steps(u64);

impl Steps {
    fn next(&mut self, bound: u64) -> u64 {
        self.0 = self.0.wrapping_mul(6364136223846793005).wrapping_add(1442695040888963407);
        (self.0 >> 33) % bound
    }
}

fn compare(register: &Register<u32>, expected: &BTreeMap<String, Expected>, names: &[String]) {
    for name in names {
        let option = expected.get(name);
        assert_eq!(register.objects.contains_option(name), option.is_some());
        assert_eq!(
            register.objects.is_multi(name),
            matches!(option, Some(Expected::Multi { .. }))
        );
        assert_eq!(
            register.objects.get_object(name).copied(),
            option.and_then(|o| o.resolved())
        );
    }
    let walked: Vec<(String, u32)> =
        register.objects.iter().map(|(name, value)| (name.to_string(), *value)).collect();
    let resolved: Vec<(String, u32)> = expected
        .iter()
        .filter_map(|(name, option)| option.resolved().map(|value| (name.clone(), value)))
        .collect();
    assert_eq!(walked, resolved);
}

#[test]
fn the_register_behaves_like_an_ordered_map_of_options() {
    let names: Vec<String> = [
        "", "a", "aa", "ab", "b", "B", "ba", "log", "logger", "clock", "z", "zz", "\u{e9}", "caf\u{e9}",
        "cafe", "0", "10", "2",
    ]
    .iter()
    .map(|name| name.to_string())
    .collect();
    for seed in 0..20u64 {
        let mut steps = Steps(seed);
        let mut register: Register<u32> = Register::new();
        let mut expected: BTreeMap<String, Expected> = BTreeMap::new();
        for step in 0..300u32 {
            let name = &names[steps.next(names.len() as u64) as usize];
            let alt = &names[steps.next(6) as usize];
            match steps.next(5) {
                0 => {
                    if !register.objects.contains_option(name) {
                        register.add_option(name.clone());
                        expected.insert(
                            name.clone(),
                            Expected::Multi { wired: None, alternatives: Vec::new() },
                        );
                    }
                },
                1 => {
                    if !register.objects.contains_option(name) {
                        register.add_single(name.clone(), Box::new(step));
                        expected.insert(name.clone(), Expected::Single(step));
                    }
                },
                2 => {
                    if register.objects.is_multi(name)
                        && !register.objects.has_alternative(name, alt)
                    {
                        register.add_alternative(name, alt.clone(), Box::new(step));
                        match expected.get_mut(name) {
                            Some(Expected::Multi { alternatives, .. }) => {
                                assert!(alternatives.iter().all(|a| &a.0 != alt));
                                alternatives.push((alt.clone(), step));
                            },
                            _ => panic!("the register holds a multi option that is not expected"),
                        }
                    }
                },
                3 => {
                    let known = match expected.get(name) {
                        Some(Expected::Multi { alternatives, .. }) => {
                            alternatives.iter().position(|a| &a.0 == alt)
                        },
                        _ => None,
                    };
                    assert_eq!(register.objects.has_alternative(name, alt), known.is_some());
                    if let Some(at) = known {
                        register.wire_alternative(name, alt);
                        match expected.get_mut(name) {
                            Some(Expected::Multi { wired, .. }) => *wired = Some(at),
                            _ => panic!("a known alternative belongs to a multi option"),
                        }
                    }
                },
                _ => {
                    let change = match register.objects.get_object_mut(name) {
                        Some(value) => {
                            *value = value.wrapping_add(step);
                            Some(*value)
                        },
                        None => None,
                    };
                    match expected.get_mut(name) {
                        Some(Expected::Single(value)) => {
                            *value = value.wrapping_add(step);
                            assert_eq!(change, Some(*value));
                        },
                        Some(Expected::Multi { wired: Some(at), alternatives }) => {
                            alternatives[*at].1 = alternatives[*at].1.wrapping_add(step);
                            assert_eq!(change, Some(alternatives[*at].1));
                        },
                        _ => assert_eq!(change, None),
                    }
                },
            }
            if step % 25 == 0 {
                compare(&register, &expected, &names);
            }
        }
        compare(&register, &expected, &names);
        for (_, value) in register.objects.iter_mut() {
            *value = value.wrapping_mul(3);
        }
        for option in expected.values_mut() {
            match option {
                Expected::Single(value) => *value = value.wrapping_mul(3),
                Expected::Multi { wired: Some(at), alternatives } => {
                    alternatives[*at].1 = alternatives[*at].1.wrapping_mul(3)
                },
                Expected::Multi { wired: None, .. } => {},
            }
        }
        compare(&register, &expected, &names);
    }
}
