use oopsie_macros::fresh::fresh_name;

fn names(v: &[&str]) -> Vec<String> {
    v.iter().map(|s| s.to_string()).collect()
}

#[test]
fn base_name_is_kept_when_free() {
    assert_eq!(fresh_name("__request", &names(&["request", "source"])), "__request");
}

#[test]
fn taken_base_gets_the_first_free_suffix() {
    assert_eq!(fresh_name("__request", &names(&["__request"])), "__request_0");
    assert_eq!(fresh_name("__oopsie_fmt", &names(&["__oopsie_fmt_0", "__oopsie_fmt"])), "__oopsie_fmt_1");
    assert_eq!(fresh_name("__a", &names(&["__a", "__a_0", "__a_1", "b"])), "__a_2");
}

#[test]
fn suffixes_count_past_nine() {
    let mut taken = vec!["x".to_string()];
    for k in 0..10 {
        taken.push(format!("x_{k}"));
    }
    assert_eq!(fresh_name("x", &taken), "x_10");
}

#[test]
fn empty_scope_keeps_the_base() {
    assert_eq!(fresh_name("__a", &Vec::new()), "__a");
}
