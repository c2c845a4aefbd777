use colophon::audit::{
    audit, chapter_ranges, compteurs, doublons, famille_de, flat_runs, orphelins, repeat_runs,
    CaseAuditee, Counter, Finding, Mesures, PlancheAuditee,
};

#[test]
fn flat_runs_finds_long_stretches_only() {
    let t = vec![2usize; 7];
    assert_eq!(flat_runs(&t), vec![(0, 7)]);
    let mut t = vec![2usize; 6];
    t.push(1);
    t.extend(vec![3usize; 7]);
    assert_eq!(flat_runs(&t), vec![(7, 7)]);
    let t = [2usize, 1, 2];
    assert!(flat_runs(&t).is_empty());
}

#[test]
fn repeat_runs_ignores_verso_variants() {
    let t = ["trio", "trio_verso", "trio", "trio_verso", "duo"];
    assert_eq!(repeat_runs(&t), vec![(0, 4, "trio".to_string())]);
    let t = ["duo", "trio", "duo", "trio"];
    assert!(repeat_runs(&t).is_empty());
}

#[test]
fn a_family_sheds_every_verso() {
    assert_eq!(famille_de("duo_verso"), "duo");
    assert_eq!(famille_de("duo_verso_verso"), "duo");
    assert_eq!(famille_de("solo"), "solo");
}

#[test]
fn chapters_open_on_their_captions() {
    assert!(chapter_ranges(&[]).is_empty());
    assert_eq!(chapter_ranges(&[false, false, true, false]), vec![(0, 2), (2, 4)]);
    assert_eq!(chapter_ranges(&[true, false, true]), vec![(0, 2), (2, 3)]);
}

fn case(src: &str, dhash: u64) -> CaseAuditee {
    CaseAuditee { src: src.to_string(), dhash, colorsig: [10; 12] }
}

fn planche(template: &str, legende: bool, cases: Vec<CaseAuditee>) -> PlancheAuditee {
    PlancheAuditee { template: template.to_string(), legende, cases }
}

fn rien() -> Mesures {
    Mesures {
        visage_coupe: Vec::new(),
        orientation_trahie: Vec::new(),
        sous_resolution: Vec::new(),
        ouverture_faible: Vec::new(),
        legende_sur_photo: Vec::new(),
    }
}

fn constat(planche: usize) -> Finding {
    Finding { planche, case_idx: None, src: None, info: "x".to_string() }
}

#[test]
fn un_compteur_passe_sous_son_seuil() {
    let c = Counter::new(1, false, vec![constat(1)]);
    assert_eq!(c.count, 1);
    assert!(c.passes());
    let c = Counter::new(0, true, vec![constat(1)]);
    assert!(!c.passes());
    assert!(Counter::new(0, true, Vec::new()).passes());
}

#[test]
fn deux_photos_presque_pareilles_sur_une_planche_sont_un_doublon() {
    let planches = vec![
        planche("deux", true, vec![case("a.jpg", 0), case("b.jpg", 0xFFFF_FFFF_FFFF_FFFF)]),
        planche("trois", false, vec![case("c.jpg", 0), case("d.jpg", 0xFF), case("e.jpg", 0xFFFF)]),
    ];
    let d = doublons(&planches);
    // Spread 1 holds two opposite hashes; spread 2 holds three close ones,
    // and each close pair counts once, in cell order.
    assert_eq!(d.len(), 3);
    assert_eq!(d[0].planche, 2);
    assert_eq!(d[0].case_idx, Some(0));
    assert_eq!(d[0].src.as_deref(), Some("d.jpg"));
    assert_eq!(d[0].info, "cases 0 et 1 à 8 bits (couleur 0)");
    assert_eq!(d[1].info, "cases 0 et 2 à 16 bits (couleur 0)");
    assert_eq!(d[2].case_idx, Some(1));
    assert_eq!(d[2].src.as_deref(), Some("e.jpg"));
    assert_eq!(d[2].info, "cases 1 et 2 à 8 bits (couleur 0)");
}

#[test]
fn un_chapitre_d_une_planche_est_orphelin() {
    let o = orphelins(&[(0, 3), (3, 4), (4, 6), (6, 7)]);
    assert_eq!(o.len(), 2);
    assert_eq!(o[0].planche, 4);
    assert_eq!(o[1].planche, 7);
    assert_eq!(o[0].info, "chapitre d'une seule planche");
}

#[test]
fn le_rapport_compte_ce_qui_ne_demande_aucun_pixel() {
    let mut planches = vec![planche("pleine", false, vec![case("a.jpg", 1)])];
    for k in 0..7 {
        planches.push(planche("grille", k == 0, vec![case("x.jpg", 0), case("y.jpg", u64::MAX)]));
    }
    let c = compteurs(&planches, rien());
    assert_eq!(c.legende_manquante.count, 1);
    assert_eq!(c.legende_manquante.details[0].info, "l'album s'ouvre sans légende de chapitre");
    assert_eq!(c.rythme_plat.count, 1);
    assert_eq!(c.rythme_plat.details[0].planche, 2);
    assert_eq!(c.rythme_plat.details[0].info, "7 planches consécutives sans page de respiration");
    assert_eq!(c.repetition_gabarit.count, 1);
    assert_eq!(c.repetition_gabarit.details[0].info, "gabarit grille répété 7 fois");
    assert_eq!(c.chapitre_orphelin.count, 1);
    assert_eq!(c.chapitre_orphelin.details[0].planche, 1);
    assert_eq!(c.doublon_planche.count, 0);
    assert!(!c.passent());
}

#[test]
fn un_album_propre_passe() {
    let planches = vec![
        planche("pleine", true, vec![case("a.jpg", 0)]),
        planche("deux", false, vec![case("b.jpg", 0), case("c.jpg", u64::MAX)]),
    ];
    let r = audit("corse".to_string(), &planches, Vec::new(), rien());
    assert!(r.ok);
    assert_eq!(r.planches, 2);
    assert_eq!(r.album, "corse");
    let mut m = rien();
    m.visage_coupe.push(constat(1));
    let r = audit("corse".to_string(), &planches, vec!["note".to_string()], m);
    assert!(!r.ok);
    assert_eq!(r.compteurs.visage_coupe.count, 1);
    assert_eq!(r.notes, vec!["note".to_string()]);
}
