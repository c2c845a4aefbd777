use colophon::colophon::{faits, periode, texte, Faits};
use colophon::construction::{Chapitre, Date};

fn date(annee: i32, mois: u32, jour: u32) -> Date {
    Date { annee, mois, jour }
}

fn faits_test() -> Faits {
    Faits {
        photos_retenues: 152,
        photos_scannees: 575,
        debut: Some(date(2013, 10, 21)),
        fin: Some(date(2013, 10, 29)),
        lieux: vec!["Porto-Vecchio".into(), "Bonifacio".into()],
        appareils: vec!["Canon EOS 550D".into()],
        compose_le: date(2026, 8, 17),
    }
}

/// 210 × 210 mm, in tenths.
const TRIM: u64 = 2100;

#[test]
fn the_page_says_what_only_the_machine_knows() {
    let t = texte(&faits_test(), TRIM, TRIM, 1500, "0.9.0");
    assert!(t.contains("152 photographies retenues sur 575"));
    assert!(t.contains("prises du 21 au 29 octobre 2013."), "{t}");
    assert!(t.contains("Porto-Vecchio et Bonifacio."));
    assert!(t.contains("Canon EOS 550D."));
    assert!(t.contains("Composé le 17 août 2026 avec Colophon 0.9.0."));
    assert!(t.contains("210 × 210 mm, papier 150 g/m²"));
}

#[test]
fn the_page_never_carries_a_path_a_coordinate_or_a_caption() {
    let mut f = faits_test();
    f.lieux = vec!["Bonifacio".into()];
    let t = texte(&f, TRIM, TRIM, 1500, "0.9.0");
    assert!(!t.contains('\\'), "{t}");
    for ext in [".jpg", ".JPG", ".png", ".heic", ".HEIC"] {
        assert!(!t.contains(ext), "{ext} dans la page : {t}");
    }
    assert!(!t.contains('\u{b0}'), "{t}");
    assert_eq!(t.matches('/').count(), 1, "{t}");
    assert!(t.contains("g/m\u{b2}"), "{t}");
}

#[test]
fn without_a_trusted_date_the_page_says_nothing_about_time() {
    let mut f = faits_test();
    f.debut = None;
    f.fin = None;
    let t = texte(&f, TRIM, TRIM, 1500, "0.9.0");
    assert!(t.contains("152 photographies retenues sur 575."));
    assert!(!t.contains("prises"));
}

#[test]
fn one_of_everything_reads_as_one() {
    let f = Faits {
        photos_retenues: 1,
        photos_scannees: 1,
        debut: Some(date(2013, 10, 21)),
        fin: Some(date(2013, 10, 21)),
        lieux: vec!["Bonifacio".into()],
        appareils: vec!["iPhone 5".into()],
        compose_le: date(2026, 8, 17),
    };
    let t = texte(&f, TRIM, TRIM, 1500, "0.9.0");
    assert!(t.contains("1 photographie retenue sur 1, prises le 21 octobre 2013."));
    assert!(t.contains("Bonifacio."));
}

#[test]
fn a_span_across_two_years_names_both() {
    let mut f = faits_test();
    f.debut = Some(date(2013, 12, 29));
    f.fin = Some(date(2014, 1, 2));
    let t = texte(&f, TRIM, TRIM, 1500, "0.9.0");
    assert!(t.contains("du 29 décembre 2013 au 2 janvier 2014"), "{t}");
}

#[test]
fn the_paper_follows_the_supplier() {
    let f = faits_test();
    assert!(texte(&f, TRIM, TRIM, 1700, "0.9.0").contains("papier 170 g/m²"));
    assert!(texte(&f, TRIM, TRIM, 1150, "0.9.0").contains("papier 115 g/m²"));
}

#[test]
fn a_page_lists_its_lines_in_order() {
    let t = texte(&faits_test(), 2032, 2540, 1500, "0.9.0");
    let lignes: Vec<&str> = t.lines().collect();
    assert_eq!(lignes[0], "Colophon");
    assert_eq!(lignes[1], "");
    assert_eq!(lignes.len(), 8);
    assert_eq!(lignes[7], "203.2 × 254 mm, papier 150 g/m².");
    let mut sans = faits_test();
    sans.lieux.clear();
    sans.appareils.clear();
    assert_eq!(texte(&sans, TRIM, TRIM, 1500, "0.9.0").lines().count(), 6);
}

#[test]
fn a_span_within_a_month_names_the_month_once() {
    assert_eq!(periode(Some(date(2013, 10, 21)), Some(date(2013, 10, 29))).as_deref(), Some("du 21 au 29 octobre 2013"));
    assert_eq!(periode(Some(date(2013, 9, 28)), Some(date(2013, 10, 2))).as_deref(), Some("du 28 septembre au 2 octobre 2013"));
    assert_eq!(periode(Some(date(2013, 10, 21)), Some(date(2013, 10, 21))).as_deref(), Some("le 21 octobre 2013"));
    assert_eq!(periode(None, Some(date(2013, 10, 21))), None);
}

fn chapitre(lieu: Option<&str>, jours: Vec<Date>, modeles: &[Option<&str>]) -> Chapitre {
    Chapitre {
        lieu: lieu.map(|l| l.to_string()),
        jours,
        modeles: modeles.iter().map(|m| m.map(|m| m.to_string())).collect(),
    }
}

#[test]
fn les_faits_se_rassemblent_a_la_composition() {
    let chapitres = vec![
        chapitre(
            Some("Calvi"),
            vec![date(2013, 10, 27), date(2013, 10, 21)],
            &[Some(" iPhone 12 "), Some("X100V"), Some(""), None],
        ),
        chapitre(None, vec![], &[Some("Canon"), Some("   ")]),
        chapitre(
            Some("Ajaccio"),
            vec![date(2013, 11, 2)],
            &[Some("iPhone 12"), Some("X100V"), Some("Alpha")],
        ),
        chapitre(Some("Calvi"), vec![date(2013, 10, 29)], &[]),
    ];
    let f = faits(&chapitres, 12, 40, date(2026, 8, 17));
    assert_eq!(f.photos_retenues, 12);
    assert_eq!(f.photos_scannees, 40);
    assert_eq!(f.compose_le, date(2026, 8, 17));
    assert_eq!(f.debut, Some(date(2013, 10, 21)));
    assert_eq!(f.fin, Some(date(2013, 11, 2)));
    assert_eq!(f.lieux, vec!["Calvi".to_string(), "Ajaccio".to_string()]);
    // Two each for the first two, ties in character order; then the first
    // of the singles in character order.
    assert_eq!(f.appareils, vec!["X100V".to_string(), "iPhone 12".to_string(), "Alpha".to_string()]);
}

#[test]
fn sans_date_sure_les_faits_ne_disent_rien_du_temps() {
    let f = faits(&[chapitre(Some("Calvi"), vec![], &[None])], 1, 1, date(2026, 8, 17));
    assert_eq!(f.debut, None);
    assert_eq!(f.fin, None);
    assert!(f.appareils.is_empty());
}

#[test]
fn six_villes_au_plus_et_trois_appareils() {
    let villes = ["A", "B", "A", "C", "D", "E", "F", "G", "H"];
    let chapitres: Vec<Chapitre> = villes
        .iter()
        .map(|v| chapitre(Some(v), vec![], &[Some(v)]))
        .collect();
    let f = faits(&chapitres, 0, 0, date(2026, 8, 17));
    assert_eq!(f.lieux, vec!["A", "B", "C", "D", "E", "F"]);
    assert_eq!(f.appareils, vec!["A", "B", "C"]);
}
