use colophon::banc::classer;

#[test]
fn le_banc_classe_chaque_candidat_une_fois() {
    let noms: Vec<String> = ["g_a", "g_b", "g_c", "g_d", "g_e"].iter().map(|s| s.to_string()).collect();
    let defauts = vec![None, Some("legende_sur_photo".to_string()), None, None, Some("doublon".to_string())];
    let essais = vec![3, 3, 0, 2, 1];
    let c = classer(&noms, &defauts, &essais, 3);
    assert_eq!(c.verts, vec!["g_a".to_string()]);
    assert_eq!(c.sans_essai, 1);
    assert_eq!(c.jeu_manquant, 1);
    assert_eq!(c.recales, 2);
    assert_eq!(
        c.defauts,
        vec![
            ("g_b".to_string(), "legende_sur_photo".to_string()),
            ("g_e".to_string(), "doublon".to_string()),
        ]
    );
}

#[test]
fn les_defauts_se_rangent_par_nom() {
    let noms: Vec<String> = ["g_z", "g_b", "g_m"].iter().map(|s| s.to_string()).collect();
    let defauts = vec![Some("doublon".to_string()), Some("recadrage".to_string()), Some("plancher".to_string())];
    let c = classer(&noms, &defauts, &[1, 1, 1], 1);
    assert!(c.verts.is_empty());
    assert_eq!(c.recales, 3);
    assert_eq!(
        c.defauts,
        vec![
            ("g_b".to_string(), "recadrage".to_string()),
            ("g_m".to_string(), "plancher".to_string()),
            ("g_z".to_string(), "doublon".to_string()),
        ]
    );
}

use colophon::banc::{essayer, EtatCandidat, Issue};

#[test]
fn un_candidat_s_arrete_au_premier_refus() {
    let e = essayer(&[Issue::NonAssignable, Issue::Tenue, Issue::NonAssignable]);
    assert!(e.essaye);
    assert!(e.refus.is_none());
    let e = essayer(&[Issue::NonAssignable, Issue::NonAssignable]);
    assert!(!e.essaye);
    assert!(e.refus.is_none());
    let e = essayer(&[
        Issue::NonAssignable,
        Issue::Refus("doublon_planche".to_string()),
        Issue::Tenue,
        Issue::Refus("sous_resolution".to_string()),
    ]);
    assert!(e.essaye);
    assert_eq!(e.refus, Some((1, "doublon_planche".to_string())));
}

#[test]
fn un_jeu_se_note_une_fois() {
    let mut etat = EtatCandidat::new();
    etat.noter(&"corse-2013".to_string(), true, None);
    etat.noter(&"corse-2013".to_string(), true, None);
    etat.noter(&"mauritanie-2019".to_string(), false, None);
    assert_eq!(etat.jeux, vec!["corse-2013".to_string()]);
    etat.noter(&"islande".to_string(), true, Some("legende_sur_photo".to_string()));
    assert_eq!(etat.jeux, vec!["corse-2013".to_string(), "islande".to_string()]);
    assert_eq!(etat.defaut, Some("legende_sur_photo".to_string()));
}
