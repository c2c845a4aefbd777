use colophon::construction::{ancres_de_recomposition, bornes, chapter_captions, chapter_dates, date_fr, Chapitre, est_variante, jpeg_dimensions, variantes_offertes, Date};
use colophon::layout::Densite;

fn date(annee: i32, mois: u32, jour: u32) -> Date {
    Date { annee, mois, jour }
}

#[test]
fn une_date_s_ecrit_a_la_francaise() {
    assert_eq!(date_fr(date(2013, 10, 21), true), "21 octobre 2013");
    assert_eq!(date_fr(date(2026, 8, 17), false), "17 août");
    assert_eq!(date_fr(date(2014, 2, 1), true), "1 février 2014");
}

#[test]
fn un_chapitre_dit_son_jour_ou_son_etendue() {
    assert_eq!(chapter_dates(&[]), None);
    assert_eq!(chapter_dates(&[date(2013, 10, 27)]).as_deref(), Some("27 octobre 2013"));
    assert_eq!(
        chapter_dates(&[date(2013, 10, 29), date(2013, 10, 27), date(2013, 10, 28)]).as_deref(),
        Some("27 octobre \u{2013} 29 octobre 2013")
    );
    assert_eq!(bornes(&[date(2014, 1, 2), date(2013, 12, 29)]), Some((date(2013, 12, 29), date(2014, 1, 2))));
}

/// A JPEG's frame header, after an APP0 segment to step over.
fn jpeg(w: u16, h: u16) -> Vec<u8> {
    let mut v = vec![0xFF, 0xD8, 0xFF, 0xE0, 0x00, 0x10];
    v.extend_from_slice(&[0u8; 14]);
    v.extend_from_slice(&[0xFF, 0xC0, 0x00, 0x11, 0x08]);
    v.extend_from_slice(&h.to_be_bytes());
    v.extend_from_slice(&w.to_be_bytes());
    v.extend_from_slice(&[0u8; 12]);
    v
}

#[test]
fn la_taille_d_un_jpeg_se_lit_dans_son_entete() {
    assert_eq!(jpeg_dimensions(&jpeg(4000, 3000)), Some((4000, 3000)));
    assert_eq!(jpeg_dimensions(&jpeg(80, 60)[..20]), None);
    assert_eq!(jpeg_dimensions(b"pas un jpeg"), None);
    let mut dht = jpeg(640, 480);
    dht[21] = 0xC4;
    assert_eq!(jpeg_dimensions(&dht), None, "a Huffman table is not a frame");
}

#[test]
fn deux_propositions_a_cote_de_la_demande() {
    let v = variantes_offertes(Densite::Equilibree, 24);
    assert_eq!(v.len(), 2);
    assert_eq!(v[0].id, "autre-rythme");
    assert_eq!(v[0].densite, Densite::Aeree);
    assert_eq!(v[0].nom, "Aérée");
    assert_eq!(v[0].spreads, 24);
    assert_eq!(v[1].id, "resserree");
    assert_eq!(v[1].densite, Densite::Equilibree);
    assert_eq!(v[1].spreads, 16);
    assert_eq!(variantes_offertes(Densite::Aeree, 9)[0].densite, Densite::Equilibree);
    assert_eq!(variantes_offertes(Densite::Aeree, 9)[1].spreads, 8, "never under eight spreads");
}

#[test]
fn seules_les_propositions_s_oublient() {
    assert!(est_variante("album.resserree.json"));
    assert!(est_variante("curation.autre-rythme.json"));
    assert!(!est_variante("album.origin.json"));
    assert!(!est_variante("album.json"));
    assert!(!est_variante("album.a.b.json"));
    assert!(!est_variante("thumbs.x.json"));
}

fn chapitre(lieu: Option<&str>, jours: Vec<Date>) -> Chapitre {
    Chapitre { lieu: lieu.map(|l| l.to_string()), jours, modeles: Vec::new() }
}

#[test]
fn une_ville_se_nomme_une_fois_par_sejour() {
    let chapitres = vec![
        chapitre(Some("Calvi"), vec![date(2013, 10, 27), date(2013, 10, 30)]),
        chapitre(Some("Calvi"), vec![date(2013, 10, 31)]),
        chapitre(None, vec![date(2013, 11, 1)]),
        chapitre(Some("Calvi"), vec![date(2013, 11, 2)]),
        chapitre(Some("Ajaccio"), vec![]),
        chapitre(None, vec![]),
        chapitre(Some("Calvi"), vec![date(2013, 11, 5)]),
    ];
    let l = chapter_captions(&chapitres);
    assert_eq!(l.len(), 7);
    assert_eq!(l[0].as_deref(), Some("Calvi, 27 octobre \u{2013} 30 octobre 2013"));
    assert_eq!(l[1].as_deref(), Some("31 octobre 2013"));
    assert_eq!(l[2].as_deref(), Some("1 novembre 2013"));
    // A chapter that named nowhere does not break the stay.
    assert_eq!(l[3].as_deref(), Some("2 novembre 2013"));
    assert_eq!(l[4].as_deref(), Some("Ajaccio"));
    assert_eq!(l[5], None);
    // Back in Calvi after Ajaccio: the town is named again.
    assert_eq!(l[6].as_deref(), Some("Calvi, 5 novembre 2013"));
}

#[test]
fn sans_chapitre_aucune_legende() {
    assert!(chapter_captions(&[]).is_empty());
}

#[test]
fn une_planche_epinglee_garde_son_ancre_et_le_reste_se_recompose() {
    let planches = [(false, Some(1u64)), (true, None), (false, None), (true, Some(5)), (true, None)];
    let (ancres, cible) = ancres_de_recomposition(&planches);
    // A text page takes the time of the spread before it.
    assert_eq!(ancres, vec![(1, Some(1)), (3, Some(5)), (4, Some(5))]);
    // Two spreads left over, but never fewer than four to compose.
    assert_eq!(cible, 4);
    let mut longues = vec![(false, Some(0u64)); 10];
    longues[2].0 = true;
    longues[7].0 = true;
    let (ancres, cible) = ancres_de_recomposition(&longues);
    assert_eq!(ancres, vec![(2, Some(0)), (7, Some(0))]);
    assert_eq!(cible, 8);
    let (ancres, cible) = ancres_de_recomposition::<u64>(&[(true, None)]);
    assert_eq!(ancres, vec![(0, None)]);
    assert_eq!(cible, 4);
}
