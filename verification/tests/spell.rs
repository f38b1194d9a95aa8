use scalp::spell::Spell;

#[test]
fn distances() {
    assert_eq!(Spell::new().distance(b"boba", b"boba"), 0);
    assert_eq!(Spell::new().distance(b"boba", b"bobo"), 1);
    assert_eq!(Spell::new().distance(b"boba", b"bobba"), 1);
    assert_eq!(Spell::new().distance(b"boba", b"boa"), 1);
    assert_eq!(Spell::new().distance(b"boba", b"fett"), 4);
}

#[test]
fn best() {
    let best = Spell::new().suggest(
        "poulaye",
        &[
            "poullayye",
            "poupou",
            "pilaye",
            "poulah",
            "piulaye",
            "paliyoo",
            "vladimarre",
            "poulaye",
            "p",
            "poullayye",
            "poulay",
        ],
        5,
    );
    println!("{best:?}");
}

#[test]
fn distance_does_not_depend_on_earlier_calls() {
    let mut spell = Spell::new();
    let _ = spell.suggest("poulaye", &["poullayye", "vladimarre", "p"], 10);
    let _ = spell.distance(b"a much longer word", b"another long one");
    assert_eq!(spell.distance(b"boba", b"fett"), Spell::new().distance(b"boba", b"fett"));
    assert_eq!(spell.distance(b"boba", b"bobba"), 1);
}
