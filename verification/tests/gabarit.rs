use colophon::gabarit::{
    capacite_page, catalogue, code_page, combinaisons, familles, gabarit_nomme, nom_genere, offerts,
    parse_genere, Genere, Ordre, Page, Ratio, BANDE_GENEREE, CAPACITES, RETENUS,
};
use std::collections::HashSet;

fn pages() -> Vec<Page> {
    let mut v = vec![Page::Vide, Page::Pleine];
    for cols in 1..=4 {
        for rangs in 1..=4 {
            for ratio in [Ratio::Etroit, Ratio::Portrait, Ratio::Carre, Ratio::Paysage, Ratio::Pano, Ratio::Libre] {
                v.push(Page::Grille { cols, rangs, ratio });
            }
        }
    }
    v
}

/// Every pair of page states, with and without a band, reads back as
/// itself.
#[test]
fn chaque_paire_se_relit() {
    for g in pages() {
        for d in pages() {
            let capacite = capacite_page(&g) + capacite_page(&d);
            if capacite == 0 {
                continue;
            }
            for bande in [0u32, 8] {
                let nom = nom_genere(&g, &d, bande);
                let p = parse_genere(&nom).expect(&nom);
                assert_eq!(p, Genere { capacite, gauche: g, droite: d, ordre: Ordre::ParPage, bande_mm: bande });
            }
        }
    }
}

/// The name is the whole declaration: every enumerated candidate parses
/// back to its own parameters, and a verso name mirrors the pages.
#[test]
fn le_nom_encode_les_parametres() {
    for s in combinaisons() {
        let p = parse_genere(&s.nom).expect(&s.nom);
        assert_eq!((p.capacite, p.gauche, p.droite, p.ordre), (s.capacite, s.gauche, s.droite, s.ordre));
        assert_eq!(p.bande_mm as i64, s.legende);
    }
    let v = parse_genere("g_v_2x1q_verso").unwrap();
    assert_eq!(v.gauche, Page::Grille { cols: 2, rangs: 1, ratio: Ratio::Portrait });
    assert_eq!(v.droite, Page::Vide);
    assert!(parse_genere("g_v_v").is_none(), "capacité zéro");
    assert!(parse_genere("g_1x1q_1x1q_verso").is_none(), "un symétrique n'a pas de verso");
    assert!(parse_genere("solo").is_none());
    assert!(parse_genere("g_v_9z9x").is_none());
}

#[test]
fn the_first_generated_name_and_its_band() {
    assert_eq!(nom_genere(&Page::Vide, &Page::Pleine, 8), "g_v_p_b8");
    assert_eq!(code_page(&Page::Grille { cols: 3, rangs: 2, ratio: Ratio::Libre }), "3x2f");
    let s = parse_genere("g_v_2x1q_b8").expect("le repli parse un nom généré");
    assert_eq!(s.capacite, 2);
    assert_eq!(s.bande_mm, 8);
    assert!(parse_genere("g_v_2x1q_b").is_none());
    assert!(parse_genere("g_v_2x1q_8").is_none());
    assert!(parse_genere("g_v_2x1q_b8_x").is_none());
    assert!(parse_genere("g_v_10x1q").is_none(), "at most nine columns");
    assert_eq!(parse_genere("g_v_+2x01q").unwrap().capacite, 2, "the integer parse takes a sign and zeros");
}

/// The historic catalogue declares no band and no overlay: its geometry
/// must not move an atom.
#[test]
fn le_catalogue_historique_ne_declare_aucune_legende() {
    assert!(catalogue().iter().all(|s| s.legende == 0));
}

/// The mirror is derived, never written: every asymmetric family has its
/// `_verso` right behind it, symmetric ones none.
#[test]
fn les_versos_sont_derives_de_l_asymetrie() {
    let c = catalogue();
    let noms: Vec<&str> = c.iter().map(|s| s.nom.as_str()).collect();
    assert!(noms.contains(&"full1_verso"));
    assert!(noms.contains(&"trio_verso"));
    assert!(noms.contains(&"six_verso"));
    assert!(!noms.contains(&"duo_verso"));
    assert!(!noms.contains(&"quad_verso"));
    assert!(!noms.contains(&"octo_verso"));
    assert!(!noms.contains(&"vide_verso"));
}

/// The enumeration stays inside its bounds: thousands of combinations,
/// every capacity one the chunker produces, no parameter twin of a
/// historical family, and a stable order.
#[test]
fn les_combinaisons_sont_bornees_et_stables() {
    let c = combinaisons();
    assert!(c.len() >= 1500, "des milliers de combinaisons, pas {}", c.len());
    assert!(c.iter().all(|s| CAPACITES.contains(&s.capacite)));
    assert!(c.iter().all(|s| s.ordre == Ordre::ParPage));
    assert!(c.iter().all(|s| s.legende == 0 || s.legende == BANDE_GENEREE as i64));
    for s in &c {
        for f in familles() {
            let jumeau = s.legende == f.legende
                && ((s.gauche == f.gauche && s.droite == f.droite)
                    || (s.gauche == f.droite && s.droite == f.gauche));
            assert!(!jumeau, "{} redéclare {}", s.nom, f.nom);
        }
    }
    let noms: HashSet<&str> = c.iter().map(|s| s.nom.as_str()).collect();
    assert_eq!(noms.len(), c.len(), "deux candidats partagent un nom");
    assert_eq!(c[0].nom, "g_v_p_b8", "l'ordre d'énumération a bougé");
}

/// With nothing retained, the offered list would be the locked catalogue;
/// here the bench retained some, and every retained name is offered. A
/// generated name the list does not hold still resolves through the
/// parser, so a hand-carried album.json renders exactly.
#[test]
fn offerts_et_le_repli_du_parseur() {
    if RETENUS.is_empty() {
        let a: Vec<String> = offerts().iter().map(|s| s.nom.clone()).collect();
        let b: Vec<String> = catalogue().iter().map(|s| s.nom.clone()).collect();
        assert_eq!(a, b);
    } else {
        assert!(offerts().len() > catalogue().len());
    }
    let s = gabarit_nomme("g_v_2x1q_b8").expect("le repli parse un nom généré");
    assert_eq!(s.capacite, 2);
    assert_eq!(s.legende, 8);
    assert!(gabarit_nomme("g_v_2x1q_b8").unwrap().nom == s.nom, "le même gabarit revient");
    assert!(gabarit_nomme("gabarit_inconnu").is_none());
}

/// The exact list the engine always had, in the same order.
#[test]
fn le_catalogue_est_celui_du_match_d_avant() {
    let c = catalogue();
    let noms: Vec<&str> = c.iter().map(|s| s.nom.as_str()).collect();
    assert_eq!(
        noms,
        vec![
            "full1", "full1_verso", "solo", "solo_verso", "solo_paysage",
            "solo_paysage_verso", "solo_pano", "solo_pano_verso", "solo_etroit",
            "solo_etroit_verso", "solo_carre", "solo_carre_verso", "duo",
            "duo_portrait", "duo_paysage", "duo_etroit", "duo_pano", "trio",
            "trio_verso", "trio_portrait", "trio_portrait_verso", "quad",
            "quad_portrait", "quad_etroit", "quad_pano", "six", "six_verso",
            "octo", "vide", "texte", "colophon", "garde",
        ],
    );
}

#[test]
fn chaque_nom_retenu_est_offert_avec_son_verso() {
    let o = offerts();
    let noms: HashSet<&str> = o.iter().map(|s| s.nom.as_str()).collect();
    for nom in RETENUS {
        assert!(noms.contains(nom), "{nom}");
        let p = parse_genere(nom).unwrap();
        let verso = format!("{nom}_verso");
        assert_eq!(noms.contains(verso.as_str()), p.gauche != p.droite, "{nom}");
    }
    let historiques = gabarit_nomme("six_verso").unwrap();
    assert_eq!(historiques.capacite, 6);
    assert_eq!(historiques.gauche, Page::Grille { cols: 1, rangs: 2, ratio: Ratio::Paysage });
    assert_eq!(historiques.ordre, Ordre::ParPage);
}
