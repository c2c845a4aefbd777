use colophon::export::{empreinte, hex, Artefact, Manifeste};

#[test]
fn l_empreinte_est_celle_que_le_pdf_ecrivait_deja() {
    assert_eq!(
        hex(&empreinte(b"Corse|2023-11-14T23:13:20+01:00")),
        "932a4a473e384f8e388482902a03a995"
    );
    assert_eq!(hex(&empreinte(b"")), "cbf29ce48422232555c5e55dfb685f30");
}

#[test]
fn l_hexadecimal_ecrit_deux_chiffres_par_octet() {
    assert_eq!(hex(&[0x00, 0x0f, 0xa0, 0xff]), "000fa0ff");
    assert_eq!(hex(&[]), "");
}

#[test]
fn deux_contenus_different_d_empreinte() {
    assert_ne!(empreinte(b"Corse"), empreinte(b"Corsf"));
    assert_eq!(empreinte(b"Corse"), empreinte(b"Corse"));
}

fn artefact(fichier: &str, profil: &str, octets: u64) -> Artefact {
    Artefact {
        fichier: fichier.into(),
        profil: profil.into(),
        album: "0123".into(),
        octets,
        date: "2026-01-01T00:00:00+00:00".into(),
    }
}

#[test]
fn le_manifeste_garde_une_entree_par_fichier() {
    let mut m = Manifeste::vide();
    m.remplacer(artefact("album-print.pdf", "generique", 11));
    m.remplacer(artefact("album-cover.pdf", "cloudprinter", 7));
    m.remplacer(artefact("album-print.pdf", "cloudprinter", 11));

    assert_eq!(m.artefacts.len(), 2);
    assert_eq!(m.artefacts[0].fichier, "album-cover.pdf");
    let print = m.artefact("album-print.pdf").unwrap();
    assert_eq!(print.profil, "cloudprinter");
    assert_eq!(print.octets, 11);
    assert_eq!(m.artefact("album-cover.pdf").unwrap().octets, 7);
    assert!(m.artefact("album.pdf").is_none());
}

#[test]
fn un_manifeste_desordonne_se_range_en_notant() {
    let mut m = Manifeste {
        artefacts: vec![artefact("b.pdf", "x", 1), artefact("a.pdf", "x", 2), artefact("b.pdf", "y", 3)],
    };
    m.remplacer(artefact("c.pdf", "z", 4));
    let noms: Vec<&str> = m.artefacts.iter().map(|a| a.fichier.as_str()).collect();
    assert_eq!(noms, ["a.pdf", "b.pdf", "b.pdf", "c.pdf"]);
    assert_eq!(m.artefact("b.pdf").unwrap().octets, 1, "le premier sous ce nom");
    m.remplacer(artefact("b.pdf", "w", 5));
    let noms: Vec<&str> = m.artefacts.iter().map(|a| a.fichier.as_str()).collect();
    assert_eq!(noms, ["a.pdf", "b.pdf", "c.pdf"]);
    assert_eq!(m.artefact("b.pdf").unwrap().profil, "w");
}
