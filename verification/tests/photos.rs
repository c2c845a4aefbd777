use colophon::photos::{etape_import, EtapeImport, dossier_propose, nom_de_fichier, noter_export, demander, etat, lister, statut, Etat, IssueExport, RapportImport};

#[test]
fn le_rang_ecarte_les_homonymes() {
    assert_eq!(nom_de_fichier(0, "IMG_0001.HEIC"), "0001-IMG_0001.HEIC");
    assert_eq!(nom_de_fichier(41, "IMG_0001.HEIC"), "0042-IMG_0001.HEIC");
    assert_ne!(nom_de_fichier(0, "IMG_0001.HEIC"), nom_de_fichier(1, "IMG_0001.HEIC"));
}

#[test]
fn un_nom_ne_sort_jamais_du_dossier() {
    let n = nom_de_fichier(0, "../../.ssh/authorized_keys");
    assert!(!n.contains('/'), "{n}");
    assert!(!n.contains('\\'), "{n}");
    assert!(n.starts_with("0001-"), "{n}");
}

#[test]
fn un_nom_vide_reste_un_fichier() {
    assert_eq!(nom_de_fichier(0, ""), "0001-photo.jpg");
    assert_eq!(nom_de_fichier(0, "   "), "0001-photo.jpg");
}

#[test]
fn le_dossier_propose_est_trouvable_a_la_main() {
    let d = dossier_propose("/Users/x", "Corse 2013");
    assert_eq!(d, "/Users/x/Pictures/Colophon/Corse 2013");
}

#[test]
fn un_nom_dalbum_ne_creuse_pas_darborescence() {
    let d = dossier_propose("/Users/x", "Été/2019");
    assert_eq!(d, "/Users/x/Pictures/Colophon/Été-2019");
}

#[test]
fn un_rang_au_dela_de_dix_mille_garde_tous_ses_chiffres() {
    assert_eq!(nom_de_fichier(12344, "a.jpg"), "12345-a.jpg");
}

#[test]
fn hors_du_mac_la_bibliotheque_est_indisponible() {
    assert_eq!(statut(), 1);
    assert_eq!(demander(), 1);
    assert!(matches!(etat(), Etat::Indisponible));
    assert!(lister("album").is_err());
}

#[test]
fn un_rapport_nomme_les_absentes_et_compte_les_autres() {
    let mut r = RapportImport {
        album: "Corse".into(),
        dossier: "/d".into(),
        demandees: 3,
        importees: 0,
        octets: 0,
        absentes_du_mac: Vec::new(),
        echecs: Vec::new(),
    };
    noter_export(&mut r, "a.jpg", &IssueExport { ok: true, octets: 10, absente_du_mac: false, motif: String::new() });
    noter_export(&mut r, "b.jpg", &IssueExport { ok: false, octets: 0, absente_du_mac: true, motif: String::new() });
    noter_export(&mut r, "c.jpg", &IssueExport { ok: false, octets: 0, absente_du_mac: false, motif: "refus".into() });
    assert_eq!(r.importees, 1);
    assert_eq!(r.octets, 10);
    assert_eq!(r.absentes_du_mac, vec!["b.jpg".to_string()]);
    assert_eq!(r.echecs.len(), 1);
    assert_eq!(r.echecs[0].nom, "c.jpg");
    assert_eq!(r.echecs[0].motif, "refus");
}

#[test]
fn l_import_avance_photo_par_photo_et_s_arrete_quand_on_l_annule() {
    let noms = vec!["IMG_0001.HEIC".to_string(), "IMG_0001.HEIC".to_string()];
    match etape_import(&noms, 1, false) {
        EtapeImport::Exporter { rang, fichier } => {
            assert_eq!(rang, 1);
            assert_eq!(fichier, "0002-IMG_0001.HEIC");
        },
        EtapeImport::Terminer => panic!("une photo reste à exporter"),
    }
    assert!(matches!(etape_import(&noms, 2, false), EtapeImport::Terminer));
    assert!(matches!(etape_import(&noms, 0, true), EtapeImport::Terminer));
}
