use dynamism::Pipeline;

#[test]
fn inject_starts_with_empty_log() {
    let p = Pipeline::inject(5u32);
    assert_eq!(p.value, 5);
    assert!(p.logs.is_empty());
}

#[test]
fn bind_logs_description_before_the_step_log() {
    let mut start = Pipeline::inject(2u32);
    start.logs.push("earlier".to_string());
    let p = start.bind("doubling", |v| {
        let mut q = Pipeline::inject(v * 2);
        q.logs.push("inner".to_string());
        q
    });
    assert_eq!(p.value, 4);
    assert_eq!(p.logs, vec!["earlier", "doubling", "inner"]);
}

#[test]
fn map_logs_exactly_its_description() {
    let p = Pipeline::inject("abc").map("measuring", |s: &str| s.len());
    assert_eq!(p.value, 3);
    assert_eq!(p.logs, vec!["measuring"]);
    let q = p.map("squaring", |n| n * n);
    assert_eq!(q.value, 9);
    assert_eq!(q.logs, vec!["measuring", "squaring"]);
}

#[test]
fn bind_is_associative_on_logs() {
    let f = |v: u32| {
        let mut q = Pipeline::inject(v + 1);
        q.logs.push("f".to_string());
        q
    };
    let g = |v: u32| {
        let mut q = Pipeline::inject(v * 10);
        q.logs.push("g".to_string());
        q
    };
    let left = Pipeline::inject(1u32).bind("d1", f).bind("d2", g);
    let right = Pipeline::inject(1u32).bind("d1", |x| f(x).bind("d2", g));
    assert_eq!(left.value, right.value);
    assert_eq!(left.value, 20);
    assert_eq!(left.logs, right.logs);
    assert_eq!(left.logs, vec!["d1", "f", "d2", "g"]);
}

#[test]
fn after_step_completes_the_log() {
    let mut next = Pipeline::inject('x');
    next.logs.push("inside".to_string());
    let p = Pipeline::after_step(vec!["before".to_string()], "step", next);
    assert_eq!(p.value, 'x');
    assert_eq!(p.logs, vec!["before", "step", "inside"]);
}
