use statesync::text::{decimal_string, replace_slashes, string_before};

#[test]
fn decimal_renders_as_display_does() {
    for n in [0u64, 7, 10, 99, 100, 1234567890, u64::MAX] {
        assert_eq!(decimal_string(n), format!("{}", n));
    }
}

#[test]
fn slashes_become_dashes() {
    assert_eq!(replace_slashes(&"Ethernet1/2/3".to_string()), "Ethernet1-2-3");
    assert_eq!(replace_slashes(&"10.0.0.0/8".to_string()), "10.0.0.0-8");
    assert_eq!(replace_slashes(&"".to_string()), "");
    assert_eq!(replace_slashes(&"é/ü".to_string()), "é-ü");
}

#[test]
fn strings_compare_as_std_does() {
    let words = ["", "a", "b", "ab", "aa", "B", "é", "e", "z", "ä"];
    for x in words {
        for y in words {
            let (a, b) = (x.to_string(), y.to_string());
            assert_eq!(string_before(&a, &b), a < b, "{} {}", x, y);
        }
    }
}
