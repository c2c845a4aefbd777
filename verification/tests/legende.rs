use colophon::construction::Date;
use colophon::legende::{chapitre_de, jour_unique, texte};

fn j(d: u32) -> Date {
    Date { annee: 2013, mois: 10, jour: d }
}

#[test]
fn se_tait_quand_la_planche_dit_comme_son_chapitre() {
    assert_eq!(
        texte(Some("Calvi"), Some("Calvi"), "Calvi, 27 octobre 2013", Some(j(27)), Some((j(27), j(27)))),
        None
    );
}

#[test]
fn nomme_l_excursion() {
    assert_eq!(
        texte(
            Some("Bonifacio"),
            Some("Porto-Vecchio"),
            "Porto-Vecchio, 27 – 30 octobre 2013",
            Some(j(28)),
            Some((j(27), j(30))),
        ),
        Some("Bonifacio, 28 octobre 2013".into())
    );
}

#[test]
fn date_seule_quand_le_chapitre_couvre_plusieurs_jours() {
    assert_eq!(
        texte(Some("Calvi"), Some("Calvi"), "Calvi", Some(j(29)), Some((j(27), j(31)))),
        Some("29 octobre 2013".into())
    );
}

#[test]
fn le_titre_qui_nomme_deja_la_ville_la_fait_taire() {
    assert_eq!(
        texte(Some("Porto-Vecchio"), None, "Porto-Vecchio, octobre 2013", Some(j(27)), Some((j(27), j(27)))),
        None
    );
}

#[test]
fn ville_seule_quand_le_chapitre_tient_en_un_jour() {
    assert_eq!(
        texte(Some("Bonifacio"), Some("Calvi"), "Calvi, 27 octobre 2013", Some(j(27)), Some((j(27), j(27)))),
        Some("Bonifacio".into())
    );
}

#[test]
fn silence_sans_gps_ni_pluralite_de_jours() {
    assert_eq!(texte(None, None, "", Some(j(27)), Some((j(27), j(27)))), None);
    assert_eq!(texte(None, None, "", None, None), None);
}

#[test]
fn une_planche_a_cheval_sur_minuit_tait_sa_date() {
    assert_eq!(jour_unique(&[j(27), j(28)]), None);
    assert_eq!(jour_unique(&[j(27), j(27)]), Some(j(27)));
    assert_eq!(jour_unique(&[]), None);
}

#[test]
fn jamais_un_chemin_ni_une_coordonnee() {
    let s = texte(Some("Bonifacio"), Some("Calvi"), "Calvi", Some(j(28)), Some((j(27), j(30)))).unwrap();
    assert!(!s.contains('/') && !s.contains('\\'));
    assert!(!s.contains('.'), "une coordonnée décimale n'a rien à faire ici : {s}");
}

#[test]
fn le_chapitre_court_d_une_legende_a_la_suivante() {
    let l = [true, false, false, true, false];
    assert_eq!(chapitre_de(&l, 2), (0, 3));
    assert_eq!(chapitre_de(&l, 0), (0, 3));
    assert_eq!(chapitre_de(&l, 4), (3, 5));
    assert_eq!(chapitre_de(&l, 3), (0, 5));
    // Spreads before any caption still form a chapter.
    assert_eq!(chapitre_de(&[false, false, true], 1), (0, 2));
}
