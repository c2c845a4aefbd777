use colophon::format::{help, names, parse, ErreurFormat, Lecture};

#[test]
fn names_list_every_preset() {
    assert_eq!(
        names(),
        "carre-21, carre-30, portrait-a4, paysage-a4, paysage-28x21, portrait-20x25"
    );
}

#[test]
fn help_gives_each_preset_its_millimetres() {
    let h = help();
    assert_eq!(h.lines().count(), 6);
    assert_eq!(
        h.lines().next().unwrap(),
        "  carre-21        210 × 210 mm, carré 21 × 21, le format d'album courant"
    );
    assert!(h.contains("  portrait-20x25  203 × 254 mm, portrait 20 × 25, le 8 × 10 pouces"));
}

#[test]
fn a_preset_or_two_sides() {
    assert!(matches!(parse(" Carre-21 "), Ok(Lecture::Nomme { largeur_mm: 210, hauteur_mm: 210 })));
    assert!(matches!(parse("paysage-28x21"), Ok(Lecture::Nomme { largeur_mm: 280, hauteur_mm: 210 })));
    match parse("200X150") {
        Ok(Lecture::Mesure { largeur, hauteur }) => assert_eq!((largeur.as_str(), hauteur.as_str()), ("200", "150")),
        autre => panic!("{autre:?}"),
    }
    match parse("210*297") {
        Ok(Lecture::Mesure { largeur, hauteur }) => assert_eq!((largeur.as_str(), hauteur.as_str()), ("210", "297")),
        autre => panic!("{autre:?}"),
    }
    assert_eq!(parse("a4").err(), Some(ErreurFormat::Inconnu));
}
