use pubsub_wire::comparators::compare;

#[test]
fn match_1() {
    let a = "a.b.c.d.e";
    let b = "a.b.c.d.e";
    assert!(compare(a, b))
}

#[test]
fn match_2() {
    let a = "a.b.*.d.*";
    let b = "a.*.c.d.*";
    assert!(compare(a, b))
}

#[test]
fn match_3() {
    let a = "#";
    let b = "a.b.c.d.e";
    assert!(compare(a, b))
}

#[test]
fn match_4() {
    let a = "#";
    let b = "#";
    assert!(compare(a, b))
}

#[test]
fn match_5() {
    let a = "a.b.c.#";
    let b = "a.b.c.d.e";
    assert!(compare(a, b))
}

#[test]
fn unmatch_1() {
    let a = "a.b.c.d.e";
    let b = "f.g.h.j.k";
    assert!(!compare(a, b))
}

#[test]
fn unmatch_2() {
    let a = "a.b.c.d";
    let b = "a.b.c.d.e";
    assert!(!compare(a, b))
}

#[test]
fn unmatch_3() {
    let a = "a.b.c.*";
    let b = "a.b.c.d.e";
    assert!(!compare(a, b))
}

#[test]
fn unmatch_4() {
    let a = "a.b.c.d.*";
    let b = "a.b.c.d";
    assert!(!compare(a, b))
}
